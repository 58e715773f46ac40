use vstd::prelude::*;
use crate::numeric::{Numeric, component_bound};

verus! {

/// Largest dimension a vector may have, so that exact similarity
/// comparisons fit in 128-bit arithmetic.
pub const MAX_DIM: usize = 4096;

/// Sum of `a[i] * b[i]` over the first `n` positions.
pub open spec fn dot_upto(a: Seq<int>, b: Seq<int>, n: int) -> int
    decreases n,
{
    if n <= 0 {
        0
    } else {
        dot_upto(a, b, n - 1) + a[n - 1] * b[n - 1]
    }
}

/// The dot product of two vectors of equal length.
pub open spec fn dot(a: Seq<int>, b: Seq<int>) -> int {
    dot_upto(a, b, a.len() as int)
}

/// The squared Euclidean magnitude.
pub open spec fn norm_sq(a: Seq<int>) -> int {
    dot(a, a)
}

/// Every component of `a` lies within `component_bound()`.
pub open spec fn components_bounded(a: Seq<int>) -> bool {
    forall|i: int| 0 <= i < a.len() ==> -component_bound() <= #[trigger] a[i] <= component_bound()
}

/// Cosine similarity held exactly as the pair `(dot, |a|^2 * |b|^2)`: its
/// value is `dot / sqrt(|a|^2 * |b|^2)`, and 0 when a magnitude is 0.
pub open spec fn cosine(a: Seq<int>, b: Seq<int>) -> (int, int) {
    (dot(a, b), norm_sq(a) * norm_sq(b))
}

/// The pair stands for exactly 1.
pub open spec fn represents_one(s: (int, int)) -> bool {
    s.0 > 0 && s.0 * s.0 == s.1
}

pub proof fn lemma_dot_upto_symmetric(a: Seq<int>, b: Seq<int>, n: int)
    ensures
        dot_upto(a, b, n) == dot_upto(b, a, n),
    decreases n,
{
    if n > 0 {
        lemma_dot_upto_symmetric(a, b, n - 1);
        assert(a[n - 1] * b[n - 1] == b[n - 1] * a[n - 1]) by (nonlinear_arith);
    }
}

proof fn lemma_product_bounded(x: int, y: int)
    requires
        -32768 <= x <= 32768,
        -32768 <= y <= 32768,
    ensures
        -0x4000_0000 <= x * y <= 0x4000_0000,
{
    assert(-0x4000_0000 <= x * y <= 0x4000_0000) by (nonlinear_arith)
        requires
            -32768 <= x <= 32768,
            -32768 <= y <= 32768,
    ;
}

/// Partial dot products of bounded vectors grow by at most 2^30 per position.
pub proof fn lemma_dot_upto_bounded(a: Seq<int>, b: Seq<int>, n: int)
    requires
        0 <= n <= a.len(),
        n <= b.len(),
        components_bounded(a),
        components_bounded(b),
    ensures
        -n * 0x4000_0000 <= dot_upto(a, b, n) <= n * 0x4000_0000,
    decreases n,
{
    if n > 0 {
        lemma_dot_upto_bounded(a, b, n - 1);
        lemma_product_bounded(a[n - 1], b[n - 1]);
    }
}

/// A sum of squares is never negative.
pub proof fn lemma_norm_upto_nonneg(a: Seq<int>, n: int)
    ensures
        dot_upto(a, a, n) >= 0,
    decreases n,
{
    if n > 0 {
        lemma_norm_upto_nonneg(a, n - 1);
        assert(a[n - 1] * a[n - 1] >= 0) by (nonlinear_arith);
    }
}

/// A zero magnitude makes every dot product with `a` zero.
pub proof fn lemma_zero_norm_zero_dot(a: Seq<int>, b: Seq<int>, n: int)
    requires
        0 <= n <= a.len(),
        dot_upto(a, a, n) == 0,
    ensures
        dot_upto(a, b, n) == 0,
    decreases n,
{
    if n > 0 {
        lemma_norm_upto_nonneg(a, n - 1);
        assert(a[n - 1] * a[n - 1] >= 0) by (nonlinear_arith);
        assert(dot_upto(a, a, n - 1) == 0);
        assert(a[n - 1] == 0) by (nonlinear_arith)
            requires
                a[n - 1] * a[n - 1] == 0,
        ;
        lemma_zero_norm_zero_dot(a, b, n - 1);
        assert(a[n - 1] * b[n - 1] == 0) by (nonlinear_arith)
            requires
                a[n - 1] == 0,
        ;
    }
}

/// A fixed-length vector of numeric components.
#[derive(Debug)]
pub struct Vector<T: Numeric> {
    data: Vec<T>,
}

impl<T: Numeric> View for Vector<T> {
    type V = Seq<int>;

    closed spec fn view(&self) -> Seq<int> {
        self.data@.map_values(|x: T| x.value())
    }
}

impl<T: Numeric> Vector<T> {
    #[verifier::type_invariant]
    spec fn well_formed(&self) -> bool {
        self.data@.len() <= MAX_DIM
    }

    /// The components of a vector are bounded.
    pub proof fn lemma_bounded(&self)
        ensures
            components_bounded(self@),
    {
        assert forall|i: int| 0 <= i < self@.len() implies -component_bound() <= #[trigger] self@[i]
            <= component_bound() by {
            self.data@[i].lemma_bounded();
        }
    }

    /// Builds a vector holding a copy of `data`.
    pub fn new(data: &[T]) -> (r: Self)
        requires
            data@.len() <= MAX_DIM,
        ensures
            r@ == data@.map_values(|x: T| x.value()),
    {
        let mut v: Vec<T> = Vec::with_capacity(data.len());
        let mut i: usize = 0;
        while i < data.len()
            invariant
                i <= data@.len(),
                v@ == data@.subrange(0, i as int),
            decreases data@.len() - i,
        {
            v.push(data[i]);
            i = i + 1;
        }
        assert(v@ =~= data@);
        Vector { data: v }
    }

    /// Number of components.
    pub fn dim(&self) -> (r: usize)
        ensures
            r == self@.len(),
    {
        self.data.len()
    }

    /// The components as stored.
    pub fn raw(&self) -> (r: &[T])
        ensures
            r@.map_values(|x: T| x.value()) == self@,
    {
        self.data.as_slice()
    }

    /// Dot product with a vector of the same dimension.
    pub(crate) fn dot_with(&self, other: &Vector<T>) -> (r: i64)
        requires
            self@.len() == other@.len(),
            self@.len() <= MAX_DIM,
        ensures
            r as int == dot(self@, other@),
            -0x400_0000_0000 <= r <= 0x400_0000_0000,
    {
        proof {
            self.lemma_bounded();
            other.lemma_bounded();
        }
        let n = self.data.len();
        let mut acc: i64 = 0;
        let mut i: usize = 0;
        while i < n
            invariant
                n == self@.len(),
                n == other@.len(),
                n <= MAX_DIM,
                self@.len() == self.data@.len(),
                other@.len() == other.data@.len(),
                components_bounded(self@),
                components_bounded(other@),
                i <= n,
                acc as int == dot_upto(self@, other@, i as int),
            decreases n - i,
        {
            proof {
                lemma_dot_upto_bounded(self@, other@, i as int);
                lemma_dot_upto_bounded(self@, other@, i as int + 1);
            }
            let x = self.data[i].widen();
            let y = other.data[i].widen();
            assert(x as int == self@[i as int]);
            assert(y as int == other@[i as int]);
            proof {
                lemma_product_bounded(x as int, y as int);
            }
            acc = acc + x * y;
            i = i + 1;
        }
        proof {
            lemma_dot_upto_bounded(self@, other@, n as int);
            assert(n * 0x4000_0000 <= 0x400_0000_0000) by (nonlinear_arith)
                requires
                    n <= 4096,
            ;
        }
        acc
    }

    /// Cosine similarity with `other`, held exactly as a `Score`; fails when
    /// the dimensions differ.
    pub fn cosine_similarity(&self, other: &Vector<T>) -> (r: Result<Score, crate::error::VectorDBError>)
        ensures
            self@.len() != other@.len() ==> r == Err::<Score, _>(
                crate::error::VectorDBError::DimensionMismatch,
            ),
            self@.len() == other@.len() ==> r is Ok && r->Ok_0@ == cosine(self@, other@),
    {
        if self.data.len() != other.data.len() {
            return Err(crate::error::VectorDBError::DimensionMismatch);
        }
        proof {
            use_type_invariant(self);
        }
        Ok(self.exact_cosine(other))
    }

    /// Exact cosine similarity with a vector of the same dimension.
    pub(crate) fn exact_cosine(&self, other: &Vector<T>) -> (r: Score)
        requires
            self@.len() == other@.len(),
            self@.len() <= MAX_DIM,
        ensures
            r@ == cosine(self@, other@),
            -0x400_0000_0000 <= r@.0 <= 0x400_0000_0000,
    {
        let d = self.dot_with(other);
        let na = self.dot_with(self);
        let nb = other.dot_with(other);
        proof {
            lemma_norm_upto_nonneg(self@, self@.len() as int);
            lemma_norm_upto_nonneg(other@, other@.len() as int);
        }
        assert(0 <= (na as u128) * (nb as u128) <= 0x100_0000_0000_0000_0000_0000) by (nonlinear_arith)
            requires
                0 <= na <= 0x400_0000_0000,
                0 <= nb <= 0x400_0000_0000,
        ;
        let p = (na as u128) * (nb as u128);
        Score { dot: d, norm_product: p }
    }
}

impl<T: Numeric> Clone for Vector<T> {
    fn clone(&self) -> (r: Self)
        ensures
            r@ == self@,
    {
        proof {
            use_type_invariant(self);
        }
        Vector::new(self.data.as_slice())
    }
}

/// An exact cosine similarity: `dot / sqrt(norm_product)`, read as 0 when
/// `norm_product` is 0.
#[derive(Clone, Copy, Debug, PartialEq, Eq)]
pub struct Score {
    dot: i64,
    norm_product: u128,
}

impl View for Score {
    type V = (int, int);

    closed spec fn view(&self) -> (int, int) {
        (self.dot as int, self.norm_product as int)
    }
}

impl Score {
    /// The numerator: the dot product of the two vectors.
    pub fn dot(&self) -> (r: i64)
        ensures
            r as int == self@.0,
    {
        self.dot
    }

    /// The square of the denominator: the product of the squared magnitudes.
    pub fn norm_product(&self) -> (r: u128)
        ensures
            r as int == self@.1,
    {
        self.norm_product
    }
}


/// The sum of squares is at least the square of any one component.
proof fn lemma_norm_upto_at_least(a: Seq<int>, n: int, i: int)
    requires
        0 <= i < n <= a.len(),
    ensures
        dot_upto(a, a, n) >= a[i] * a[i],
    decreases n,
{
    assert(a[n - 1] * a[n - 1] >= 0) by (nonlinear_arith);
    if i < n - 1 {
        lemma_norm_upto_at_least(a, n - 1, i);
    } else {
        lemma_norm_upto_nonneg(a, n - 1);
    }
}

/// A vector with a nonzero component has a positive squared magnitude.
pub proof fn lemma_nonzero_norm(a: Seq<int>, i: int)
    requires
        0 <= i < a.len(),
        a[i] != 0,
    ensures
        norm_sq(a) > 0,
{
    lemma_norm_upto_at_least(a, a.len() as int, i);
    assert(a[i] * a[i] > 0) by (nonlinear_arith)
        requires
            a[i] != 0,
    ;
}

/// The similarity of any nonzero vector with itself is exactly 1.
pub proof fn lemma_self_similarity_is_one(v: Seq<int>, i: int)
    requires
        0 <= i < v.len(),
        v[i] != 0,
    ensures
        represents_one(cosine(v, v)),
{
    lemma_nonzero_norm(v, i);
}

/// Cosine similarity is symmetric for vectors of equal dimension.
pub proof fn lemma_similarity_symmetric(a: Seq<int>, b: Seq<int>)
    requires
        a.len() == b.len(),
    ensures
        cosine(a, b) == cosine(b, a),
{
    lemma_dot_upto_symmetric(a, b, a.len() as int);
    assert(norm_sq(a) * norm_sq(b) == norm_sq(b) * norm_sq(a)) by (nonlinear_arith);
}

} // verus!
