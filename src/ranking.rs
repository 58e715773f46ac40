use vstd::prelude::*;

verus! {

/// Lexicographic order on identifiers, by character code.
pub open spec fn id_less(a: Seq<char>, b: Seq<char>) -> bool
    decreases a.len(),
{
    if a.len() == 0 {
        b.len() > 0
    } else if b.len() == 0 {
        false
    } else if a[0] != b[0] {
        (a[0] as int) < (b[0] as int)
    } else {
        id_less(a.drop_first(), b.drop_first())
    }
}

/// Sign of the similarity that a score stands for.
pub open spec fn score_sign(s: (int, int)) -> int {
    if s.0 > 0 {
        1
    } else if s.0 < 0 {
        -1
    } else {
        0
    }
}

/// A score pair can stand for a similarity: a nonzero dot product comes with
/// a positive norm product.
pub open spec fn score_valid(s: (int, int)) -> bool {
    s.1 >= 0 && (s.0 != 0 ==> s.1 > 0)
}

/// `s.0 / sqrt(s.1) >= t.0 / sqrt(t.1)`, comparing squares once the signs agree.
pub open spec fn score_ge(s: (int, int), t: (int, int)) -> bool {
    if score_sign(s) != score_sign(t) {
        score_sign(s) > score_sign(t)
    } else if score_sign(s) == 0 {
        true
    } else if score_sign(s) > 0 {
        s.0 * s.0 * t.1 >= t.0 * t.0 * s.1
    } else {
        s.0 * s.0 * t.1 <= t.0 * t.0 * s.1
    }
}

/// Result order of a search: higher similarity first, ties by ascending id.
pub open spec fn ranks_before(a: (Seq<char>, (int, int)), b: (Seq<char>, (int, int))) -> bool {
    if score_ge(a.1, b.1) && score_ge(b.1, a.1) {
        id_less(a.0, b.0)
    } else {
        score_ge(a.1, b.1)
    }
}

pub proof fn lemma_id_less_irreflexive(a: Seq<char>)
    ensures
        !id_less(a, a),
    decreases a.len(),
{
    if a.len() > 0 {
        lemma_id_less_irreflexive(a.drop_first());
    }
}

pub proof fn lemma_id_less_total(a: Seq<char>, b: Seq<char>)
    requires
        a != b,
    ensures
        id_less(a, b) || id_less(b, a),
    decreases a.len(),
{
    if a.len() > 0 && b.len() > 0 {
        if a[0] == b[0] {
            if a.drop_first() == b.drop_first() {
                assert(a =~= seq![a[0]] + a.drop_first());
                assert(b =~= seq![b[0]] + b.drop_first());
            }
            lemma_id_less_total(a.drop_first(), b.drop_first());
        } else {
            assert((a[0] as int) != (b[0] as int));
        }
    } else if a.len() == 0 && b.len() == 0 {
        assert(a =~= b);
    }
}

pub proof fn lemma_id_less_transitive(a: Seq<char>, b: Seq<char>, c: Seq<char>)
    requires
        id_less(a, b),
        id_less(b, c),
    ensures
        id_less(a, c),
    decreases a.len(),
{
    if a.len() > 0 && b.len() > 0 && c.len() > 0 && a[0] == b[0] && b[0] == c[0] {
        lemma_id_less_transitive(a.drop_first(), b.drop_first(), c.drop_first());
    }
}

/// `id_less` looks past a common first character.
pub proof fn lemma_id_less_skip(a: Seq<char>, b: Seq<char>, i: int)
    requires
        0 <= i < a.len(),
        i < b.len(),
        a[i] == b[i],
    ensures
        id_less(a.skip(i), b.skip(i)) == id_less(a.skip(i + 1), b.skip(i + 1)),
{
    assert(a.skip(i).drop_first() =~= a.skip(i + 1));
    assert(b.skip(i).drop_first() =~= b.skip(i + 1));
}

proof fn lemma_ratio_transitive(a: int, b: int, c: int, x: int, y: int, z: int)
    requires
        x > 0,
        y > 0,
        z > 0,
        a >= 0,
        b >= 0,
        c >= 0,
        a * y >= b * x,
        b * z >= c * y,
    ensures
        a * z >= c * x,
{
    assert(a * y * z >= b * x * z) by (nonlinear_arith)
        requires
            a * y >= b * x,
            z > 0,
    ;
    assert(b * x * z >= c * y * x) by (nonlinear_arith)
        requires
            b * z >= c * y,
            x > 0,
    ;
    assert(a * z >= c * x) by (nonlinear_arith)
        requires
            a * y * z >= c * y * x,
            y > 0,
    ;
}

pub proof fn lemma_score_ge_transitive(s: (int, int), t: (int, int), u: (int, int))
    requires
        score_valid(s),
        score_valid(t),
        score_valid(u),
        score_ge(s, t),
        score_ge(t, u),
    ensures
        score_ge(s, u),
{
    if score_sign(s) == score_sign(t) && score_sign(t) == score_sign(u) && score_sign(s) != 0 {
        assert(s.0 * s.0 >= 0 && t.0 * t.0 >= 0 && u.0 * u.0 >= 0) by (nonlinear_arith);
        if score_sign(s) > 0 {
            lemma_ratio_transitive(s.0 * s.0, t.0 * t.0, u.0 * u.0, s.1, t.1, u.1);
        } else {
            lemma_ratio_transitive(u.0 * u.0, t.0 * t.0, s.0 * s.0, u.1, t.1, s.1);
            assert(s.0 * s.0 * u.1 <= u.0 * u.0 * s.1) by (nonlinear_arith)
                requires
                    u.0 * u.0 * s.1 >= s.0 * s.0 * u.1,
            ;
        }
    }
}

pub proof fn lemma_ranks_before_transitive(
    a: (Seq<char>, (int, int)),
    b: (Seq<char>, (int, int)),
    c: (Seq<char>, (int, int)),
)
    requires
        score_valid(a.1),
        score_valid(b.1),
        score_valid(c.1),
        ranks_before(a, b),
        ranks_before(b, c),
    ensures
        ranks_before(a, c),
{
    lemma_score_ge_transitive(a.1, b.1, c.1);
    if score_ge(c.1, a.1) {
        lemma_score_ge_transitive(b.1, c.1, a.1);
        lemma_score_ge_transitive(c.1, a.1, b.1);
        lemma_id_less_transitive(a.0, b.0, c.0);
    }
}

pub proof fn lemma_ranks_before_total(a: (Seq<char>, (int, int)), b: (Seq<char>, (int, int)))
    requires
        a.0 != b.0,
    ensures
        ranks_before(a, b) || ranks_before(b, a),
{
    lemma_id_less_total(a.0, b.0);
}

/// Exact lexicographic comparison of two identifiers.
pub fn id_precedes(a: &str, b: &str) -> (r: bool)
    ensures
        r == id_less(a@, b@),
{
    let la = a.unicode_len();
    let lb = b.unicode_len();
    let mut i: usize = 0;
    assert(a@.skip(0) =~= a@);
    assert(b@.skip(0) =~= b@);
    while i < la && i < lb
        invariant
            la == a@.len(),
            lb == b@.len(),
            i <= la,
            i <= lb,
            id_less(a@, b@) == id_less(a@.skip(i as int), b@.skip(i as int)),
        decreases la - i,
    {
        let ca = a.get_char(i);
        let cb = b.get_char(i);
        if ca != cb {
            assert(a@.skip(i as int)[0] == ca);
            assert(b@.skip(i as int)[0] == cb);
            return (ca as u32) < (cb as u32);
        }
        proof {
            lemma_id_less_skip(a@, b@, i as int);
        }
        i = i + 1;
    }
    i == la && i < lb
}


/// Whether two identifiers are equal.
pub fn str_eq(a: &str, b: &str) -> (r: bool)
    ensures
        r == (a@ == b@),
{
    let lt = id_precedes(a, b);
    let gt = id_precedes(b, a);
    proof {
        if a@ == b@ {
            lemma_id_less_irreflexive(a@);
        } else {
            lemma_id_less_total(a@, b@);
        }
    }
    !lt && !gt
}

} // verus!
