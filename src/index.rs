use vstd::prelude::*;
use crate::error::VectorDBError;
use crate::numeric::Numeric;
use crate::ranking::{
    id_precedes,
    ranks_before,
    score_sign,
    score_valid,
    str_eq,
    lemma_ranks_before_total,
    lemma_ranks_before_transitive,
};
use crate::vector::{
    Vector,
    Score,
    MAX_DIM,
    cosine,
    norm_sq,
    lemma_norm_upto_nonneg,
    lemma_zero_norm_zero_dot,
    lemma_dot_upto_symmetric,
};

verus! {

/// The ids and scores of a search result.
pub open spec fn hits_view(r: Seq<(String, Score)>) -> Seq<(Seq<char>, (int, int))> {
    r.map_values(|p: (String, Score)| (p.0@, p.1@))
}

/// `r` answers a search of `m` for `q` limited to `k` entries: each entry
/// is a stored id with its similarity to `q`, entries come in ranking order,
/// and an id left out means `k` entries were returned, all ranking before it.
pub open spec fn is_ranking(
    r: Seq<(Seq<char>, (int, int))>,
    m: Map<Seq<char>, Seq<int>>,
    q: Seq<int>,
    k: int,
) -> bool {
    &&& r.len() <= k
    &&& forall|i: int|
        0 <= i < r.len() ==> m.contains_key(#[trigger] r[i].0) && r[i].1 == cosine(q, m[r[i].0])
    &&& forall|i: int, j: int| 0 <= i < j < r.len() ==> ranks_before(#[trigger] r[i], #[trigger] r[j])
    &&& forall|id: Seq<char>|
        m.contains_key(id) && (forall|i: int| 0 <= i < r.len() ==> (#[trigger] r[i]).0 != id)
            ==> r.len() == k && forall|i: int|
            0 <= i < r.len() ==> ranks_before(#[trigger] r[i], (id, cosine(q, m[id])))
}

/// A candidate of a search, with the squared magnitude of its vector.
struct Hit {
    id: String,
    score: Score,
    norm: i64,
}

spec fn hit_view(h: Hit) -> (Seq<char>, (int, int)) {
    (h.id@, h.score@)
}

/// `h` is scored against a query of squared magnitude `qn`.
#[verifier::opaque]
spec fn hit_ok(h: Hit, qn: int) -> bool {
    &&& 0 <= h.norm <= 0x400_0000_0000
    &&& 0 <= qn
    &&& -0x400_0000_0000 <= h.score@.0 <= 0x400_0000_0000
    &&& h.score@.1 == h.norm * qn
    &&& (h.score@.0 != 0 ==> h.norm > 0 && qn > 0)
}

proof fn lemma_hit_valid(h: Hit, qn: int)
    requires
        hit_ok(h, qn),
    ensures
        score_valid(h.score@),
{
    reveal(hit_ok);
    assert(h.norm * qn >= 0) by (nonlinear_arith)
        requires
            h.norm >= 0,
            qn >= 0,
    ;
    if h.score@.0 != 0 {
        assert(h.norm * qn > 0) by (nonlinear_arith)
            requires
                h.norm > 0,
                qn > 0,
        ;
    }
}

/// Candidates in ranking order, pairwise.
spec fn sorted_hits(s: Seq<Hit>) -> bool {
    forall|i: int, j: int|
        0 <= i < j < s.len() ==> ranks_before(hit_view(#[trigger] s[i]), hit_view(#[trigger] s[j]))
}

/// Placing `h` after every candidate ranking before it keeps the order.
proof fn lemma_insert_keeps_order(old_hits: Seq<Hit>, h: Hit, p: int, qi: int)
    requires
        0 <= p <= old_hits.len(),
        hit_ok(h, qi),
        forall|t: int| 0 <= t < old_hits.len() ==> hit_ok(#[trigger] old_hits[t], qi),
        sorted_hits(old_hits),
        forall|t: int| 0 <= t < p ==> ranks_before(hit_view(#[trigger] old_hits[t]), hit_view(h)),
        p < old_hits.len() ==> ranks_before(hit_view(h), hit_view(old_hits[p])),
    ensures
        sorted_hits(old_hits.insert(p, h)),
{
    let hits = old_hits.insert(p, h);
    lemma_hit_valid(h, qi);
    assert forall|t: int| 0 <= t < old_hits.len() implies score_valid(
        (#[trigger] old_hits[t]).score@,
    ) by {
        lemma_hit_valid(old_hits[t], qi);
    }
    assert forall|s: int, t: int| 0 <= s < t < hits.len() implies ranks_before(
        hit_view(#[trigger] hits[s]),
        hit_view(#[trigger] hits[t]),
    ) by {
        if t < p {
            assert(hits[s] == old_hits[s] && hits[t] == old_hits[t]);
        } else if t == p {
            assert(hits[s] == old_hits[s]);
        } else if s > p {
            assert(hits[s] == old_hits[s - 1] && hits[t] == old_hits[t - 1]);
        } else if s == p {
            assert(hits[t] == old_hits[t - 1]);
            if t - 1 > p {
                assert(ranks_before(hit_view(old_hits[p]), hit_view(old_hits[t - 1])));
                lemma_ranks_before_transitive(
                    hit_view(h),
                    hit_view(old_hits[p]),
                    hit_view(old_hits[t - 1]),
                );
            }
        } else {
            assert(hits[s] == old_hits[s] && hits[t] == old_hits[t - 1]);
            assert(ranks_before(hit_view(old_hits[s]), hit_view(h)));
            if t - 1 > p {
                assert(ranks_before(hit_view(old_hits[p]), hit_view(old_hits[t - 1])));
                lemma_ranks_before_transitive(
                    hit_view(h),
                    hit_view(old_hits[p]),
                    hit_view(old_hits[t - 1]),
                );
            }
            lemma_ranks_before_transitive(
                hit_view(old_hits[s]),
                hit_view(h),
                hit_view(old_hits[t - 1]),
            );
        }
    }
}

/// The ids of a list of entries.
spec fn entry_ids<T: Numeric>(entries: Seq<(String, Vector<T>)>) -> Seq<Seq<char>> {
    entries.map_values(|p: (String, Vector<T>)| p.0@)
}

/// `id` is one of the first `e` ids.
#[verifier::opaque]
spec fn among_first(ids: Seq<Seq<char>>, e: int, id: Seq<char>) -> bool {
    exists|x: int| 0 <= x < e && ids[x] == id
}

proof fn lemma_among_first_grows(ids: Seq<Seq<char>>, e: int, id: Seq<char>)
    requires
        among_first(ids, e, id),
    ensures
        among_first(ids, e + 1, id),
{
    reveal(among_first);
}

proof fn lemma_among_first_last(ids: Seq<Seq<char>>, e: int)
    requires
        0 <= e < ids.len(),
    ensures
        among_first(ids, e + 1, ids[e]),
{
    reveal(among_first);
    assert(ids[e] == ids[e]);
}

/// `hits` holds one candidate for each of the first `e` ids, each scored
/// against `q`, and nothing else.
spec fn hits_cover(
    hits: Seq<Hit>,
    ids: Seq<Seq<char>>,
    e: int,
    m: Map<Seq<char>, Seq<int>>,
    q: Seq<int>,
    qi: int,
) -> bool {
    &&& hits.len() == e
    &&& forall|t: int|
        0 <= t < hits.len() ==> {
            &&& hit_ok(#[trigger] hits[t], qi)
            &&& m.contains_key(hits[t].id@)
            &&& hits[t].score@ == cosine(q, m[hits[t].id@])
            &&& among_first(ids, e, hits[t].id@)
        }
    &&& forall|x: int|
        0 <= x < e ==> exists|t: int| 0 <= t < hits.len() && #[trigger] hits[t].id@ == #[trigger] ids[x]
}

proof fn lemma_insert_keeps_cover(
    old_hits: Seq<Hit>,
    h: Hit,
    p: int,
    ids: Seq<Seq<char>>,
    e: int,
    m: Map<Seq<char>, Seq<int>>,
    q: Seq<int>,
    qi: int,
)
    requires
        0 <= p <= old_hits.len(),
        0 <= e < ids.len(),
        hits_cover(old_hits, ids, e, m, q, qi),
        h.id@ == ids[e],
        hit_ok(h, qi),
        m.contains_key(h.id@),
        h.score@ == cosine(q, m[h.id@]),
    ensures
        hits_cover(old_hits.insert(p, h), ids, e + 1, m, q, qi),
{
    let hits = old_hits.insert(p, h);
    assert forall|t: int| 0 <= t < hits.len() implies {
        &&& hit_ok(#[trigger] hits[t], qi)
        &&& m.contains_key(hits[t].id@)
        &&& hits[t].score@ == cosine(q, m[hits[t].id@])
        &&& among_first(ids, e + 1, hits[t].id@)
    } by {
        if t < p {
            assert(hits[t] == old_hits[t]);
            lemma_among_first_grows(ids, e, hits[t].id@);
        } else if t == p {
            assert(hits[t] == h);
            lemma_among_first_last(ids, e);
        } else {
            assert(hits[t] == old_hits[t - 1]);
            lemma_among_first_grows(ids, e, hits[t].id@);
        }
    }
    assert forall|x: int| 0 <= x < e + 1 implies exists|t: int|
        0 <= t < hits.len() && #[trigger] hits[t].id@ == #[trigger] ids[x] by {
        if x == e {
            assert(hits[p].id@ == ids[x]);
        } else {
            let t0 = choose|t: int| 0 <= t < old_hits.len() && #[trigger] old_hits[t].id@ == ids[x];
            if t0 < p {
                assert(hits[t0] == old_hits[t0]);
            } else {
                assert(hits[t0 + 1] == old_hits[t0]);
            }
        }
    }
}

/// Position at which `h` joins `hits`: after every candidate ranking before it.
fn place_hit(hits: &Vec<Hit>, h: &Hit, Ghost(qi): Ghost<int>) -> (p: usize)
    requires
        hit_ok(*h, qi),
        forall|t: int| 0 <= t < hits@.len() ==> hit_ok(#[trigger] hits@[t], qi),
        forall|t: int| 0 <= t < hits@.len() ==> (#[trigger] hits@[t]).id@ != h.id@,
    ensures
        p <= hits@.len(),
        forall|t: int| 0 <= t < p ==> ranks_before(hit_view(#[trigger] hits@[t]), hit_view(*h)),
        p < hits@.len() ==> ranks_before(hit_view(*h), hit_view(hits@[p as int])),
{
    let mut p: usize = 0;
    while p < hits.len()
        invariant
            p <= hits@.len(),
            hit_ok(*h, qi),
            forall|t: int| 0 <= t < hits@.len() ==> hit_ok(#[trigger] hits@[t], qi),
            forall|t: int| 0 <= t < hits@.len() ==> (#[trigger] hits@[t]).id@ != h.id@,
            forall|t: int| 0 <= t < p ==> ranks_before(hit_view(#[trigger] hits@[t]), hit_view(*h)),
        decreases hits@.len() - p,
    {
        if hit_before(h, &hits[p], Ghost(qi)) {
            return p;
        }
        proof {
            lemma_ranks_before_total(hit_view(*h), hit_view(hits@[p as int]));
        }
        p = p + 1;
    }
    p
}

/// Whether `a` ranks before `b`, both scored against the same query.
fn hit_before(a: &Hit, b: &Hit, Ghost(qn): Ghost<int>) -> (r: bool)
    requires
        hit_ok(*a, qn),
        hit_ok(*b, qn),
    ensures
        r == ranks_before(hit_view(*a), hit_view(*b)),
{
    reveal(hit_ok);
    let da = a.score.dot();
    let db = b.score.dot();
    let sa: i8 = if da > 0 {
        1
    } else if da < 0 {
        -1
    } else {
        0
    };
    let sb: i8 = if db > 0 {
        1
    } else if db < 0 {
        -1
    } else {
        0
    };
    assert(sa as int == score_sign(a.score@));
    assert(sb as int == score_sign(b.score@));
    if sa != sb {
        return sa > sb;
    }
    if sa == 0 {
        return id_precedes(a.id.as_str(), b.id.as_str());
    }
    let ghost na = a.norm as int;
    let ghost nb = b.norm as int;
    assert(0 <= da * da <= 0x10_0000_0000_0000_0000_0000) by (nonlinear_arith)
        requires
            -0x400_0000_0000 <= da <= 0x400_0000_0000,
    ;
    assert(0 <= db * db <= 0x10_0000_0000_0000_0000_0000) by (nonlinear_arith)
        requires
            -0x400_0000_0000 <= db <= 0x400_0000_0000,
    ;
    let sqa = (da as i128) * (da as i128);
    let sqb = (db as i128) * (db as i128);
    assert((sqa as u128) * (b.norm as u128) <= 0x4000_0000_0000_0000_0000_0000_0000_0000)
        by (nonlinear_arith)
        requires
            0 <= sqa <= 0x10_0000_0000_0000_0000_0000,
            0 <= b.norm <= 0x400_0000_0000,
    ;
    assert((sqb as u128) * (a.norm as u128) <= 0x4000_0000_0000_0000_0000_0000_0000_0000)
        by (nonlinear_arith)
        requires
            0 <= sqb <= 0x10_0000_0000_0000_0000_0000,
            0 <= a.norm <= 0x400_0000_0000,
    ;
    let l = (sqa as u128) * (b.norm as u128);
    let r = (sqb as u128) * (a.norm as u128);
    proof {
        let x = l as int;
        let y = r as int;
        assert(da * da * (nb * qn) == x * qn) by (nonlinear_arith)
            requires
                x == (da * da) * nb,
        ;
        assert(db * db * (na * qn) == y * qn) by (nonlinear_arith)
            requires
                y == (db * db) * na,
        ;
        assert(qn > 0);
        assert((x * qn >= y * qn) == (x >= y)) by (nonlinear_arith)
            requires
                qn > 0,
        ;
        assert((x * qn <= y * qn) == (x <= y)) by (nonlinear_arith)
            requires
                qn > 0,
        ;
    }
    if l == r {
        id_precedes(a.id.as_str(), b.id.as_str())
    } else if sa > 0 {
        l > r
    } else {
        l < r
    }
}

/// The vectors of one collection, keyed by id, all of one fixed dimension.
pub struct VectorIndex<T: Numeric> {
    dim: usize,
    entries: Vec<(String, Vector<T>)>,
    model: Ghost<Map<Seq<char>, Seq<int>>>,
}

impl<T: Numeric> View for VectorIndex<T> {
    type V = Map<Seq<char>, Seq<int>>;

    closed spec fn view(&self) -> Map<Seq<char>, Seq<int>> {
        self.model@
    }
}

impl<T: Numeric> VectorIndex<T> {
    /// Ids are unique, every vector has the index's dimension, and the
    /// model maps each id to its vector.
    pub closed spec fn wf(&self) -> bool {
        &&& self.dim <= MAX_DIM
        &&& forall|i: int, j: int|
            0 <= i < j < self.entries@.len() ==> self.entries@[i].0@ != self.entries@[j].0@
        &&& forall|i: int|
            0 <= i < self.entries@.len() ==> {
                &&& self.model@.contains_key(#[trigger] self.entries@[i].0@)
                &&& self.model@[self.entries@[i].0@] == self.entries@[i].1@
                &&& self.entries@[i].1@.len() == self.dim
            }
        &&& forall|k: Seq<char>|
            #[trigger] self.model@.contains_key(k) ==> exists|i: int|
                0 <= i < self.entries@.len() && self.entries@[i].0@ == k
        &&& self.model@.dom().finite()
        &&& self.model@.dom().len() == self.entries@.len()
    }

    /// The dimension fixed at creation.
    pub closed spec fn spec_dim(&self) -> nat {
        self.dim as nat
    }

    /// An empty index for vectors of dimension `dim`.
    pub fn with_dim(dim: usize) -> (r: Self)
        requires
            dim <= MAX_DIM,
        ensures
            r.wf(),
            r@ == Map::<Seq<char>, Seq<int>>::empty(),
            r.spec_dim() == dim,
    {
        VectorIndex { dim, entries: Vec::new(), model: Ghost(Map::empty()) }
    }

    /// The dimension fixed at creation.
    pub fn dim(&self) -> (r: usize)
        requires
            self.wf(),
        ensures
            r == self.spec_dim(),
            r <= MAX_DIM,
    {
        self.dim
    }

    /// Position of `id` among the entries.
    fn find(&self, id: &str) -> (r: Option<usize>)
        requires
            self.wf(),
        ensures
            r is None ==> !self@.contains_key(id@),
            r is Some ==> r->0 < self.entries@.len() && self.entries@[r->0 as int].0@ == id@,
    {
        let mut i: usize = 0;
        while i < self.entries.len()
            invariant
                i <= self.entries@.len(),
                forall|j: int| 0 <= j < i ==> self.entries@[j].0@ != id@,
            decreases self.entries@.len() - i,
        {
            if str_eq(self.entries[i].0.as_str(), id) {
                return Some(i);
            }
            i = i + 1;
        }
        None
    }

    /// Stores `vector` under `id`, replacing any vector held there; fails,
    /// changing nothing, when its dimension is not the index's.
    pub fn insert(&mut self, id: String, vector: Vector<T>) -> (r: Result<(), VectorDBError>)
        requires
            old(self).wf(),
        ensures
            final(self).wf(),
            final(self).spec_dim() == old(self).spec_dim(),
            vector@.len() != old(self).spec_dim() ==> r == Err::<(), _>(
                VectorDBError::DimensionMismatch,
            ) && final(self)@ == old(self)@,
            vector@.len() == old(self).spec_dim() ==> r is Ok && final(self)@ == old(self)@.insert(
                id@,
                vector@,
            ),
    {
        if vector.dim() != self.dim {
            return Err(VectorDBError::DimensionMismatch);
        }
        let ghost key = id@;
        let ghost v = vector@;
        match self.find(id.as_str()) {
            Some(i) => {
                let ghost old_entries = self.entries@;
                self.entries.set(i, (id, vector));
                self.model = Ghost(self.model@.insert(key, v));
                proof {
                    assert(self.model@.dom() =~= old(self).model@.dom());
                    assert forall|k: Seq<char>| #[trigger] self.model@.contains_key(k) implies exists|j: int|
                        0 <= j < self.entries@.len() && self.entries@[j].0@ == k by {
                        let j = choose|j: int| 0 <= j < old_entries.len() && old_entries[j].0@ == k;
                        assert(self.entries@[j].0@ == k);
                    }
                }
            },
            None => {
                self.entries.push((id, vector));
                self.model = Ghost(self.model@.insert(key, v));
                proof {
                    let n = self.entries@.len() - 1;
                    assert forall|k: Seq<char>| #[trigger] self.model@.contains_key(k) implies exists|j: int|
                        0 <= j < self.entries@.len() && self.entries@[j].0@ == k by {
                        if k != key {
                            let j = choose|j: int| 0 <= j < n && old(self).entries@[j].0@ == k;
                            assert(self.entries@[j].0@ == k);
                        } else {
                            assert(self.entries@[n].0@ == k);
                        }
                    }
                    assert forall|j: int| 0 <= j < n implies self.entries@[j].0@ != key by {
                        assert(old(self).model@.contains_key(old(self).entries@[j].0@));
                    }
                }
            },
        }
        Ok(())
    }

    /// Replaces the vector stored under `id`; fails when the dimension is not
    /// the index's, else when `id` is absent, changing nothing either way.
    pub fn update(&mut self, id: &str, vector: Vector<T>) -> (r: Result<(), VectorDBError>)
        requires
            old(self).wf(),
        ensures
            final(self).wf(),
            final(self).spec_dim() == old(self).spec_dim(),
            vector@.len() != old(self).spec_dim() ==> r == Err::<(), _>(
                VectorDBError::DimensionMismatch,
            ),
            vector@.len() == old(self).spec_dim() && !old(self)@.contains_key(id@) ==> r == Err::<
                (),
                _,
            >(VectorDBError::VectorIdNotFound),
            r is Err ==> final(self)@ == old(self)@,
            vector@.len() == old(self).spec_dim() && old(self)@.contains_key(id@) ==> r is Ok
                && final(self)@ == old(self)@.insert(id@, vector@),
    {
        if vector.dim() != self.dim {
            return Err(VectorDBError::DimensionMismatch);
        }
        if self.find(id).is_none() {
            return Err(VectorDBError::VectorIdNotFound);
        }
        let key = id.to_owned();
        self.insert(key, vector)
    }

    /// Removes `id` and hands back its vector; an absent id changes nothing.
    pub fn delete(&mut self, id: &str) -> (r: Option<Vector<T>>)
        requires
            old(self).wf(),
        ensures
            final(self).wf(),
            final(self).spec_dim() == old(self).spec_dim(),
            final(self)@ == old(self)@.remove(id@),
            r is Some <==> old(self)@.contains_key(id@),
            r is Some ==> r->0@ == old(self)@[id@],
    {
        match self.find(id) {
            None => {
                assert(self.model@.remove(id@) =~= self.model@);
                None
            },
            Some(i) => {
                let ghost old_entries = self.entries@;
                let (_, v) = self.entries.remove(i);
                self.model = Ghost(self.model@.remove(id@));
                proof {
                    assert forall|k: Seq<char>| #[trigger] self.model@.contains_key(k) implies exists|j: int|
                        0 <= j < self.entries@.len() && self.entries@[j].0@ == k by {
                        let j = choose|j: int| 0 <= j < old_entries.len() && old_entries[j].0@ == k;
                        if j < i {
                            assert(self.entries@[j].0@ == k);
                        } else {
                            assert(j != i);
                            assert(self.entries@[j - 1].0@ == k);
                        }
                    }
                    assert forall|a: int, b: int|
                        0 <= a < b < self.entries@.len() implies self.entries@[a].0@
                        != self.entries@[b].0@ by {
                        let a0 = if a < i { a } else { a + 1 };
                        let b0 = if b < i { b } else { b + 1 };
                        assert(self.entries@[a] == old_entries[a0]);
                        assert(self.entries@[b] == old_entries[b0]);
                    }
                    assert forall|a: int| 0 <= a < self.entries@.len() implies {
                        &&& self.model@.contains_key(#[trigger] self.entries@[a].0@)
                        &&& self.model@[self.entries@[a].0@] == self.entries@[a].1@
                        &&& self.entries@[a].1@.len() == self.dim
                    } by {
                        let a0 = if a < i { a } else { a + 1 };
                        assert(self.entries@[a] == old_entries[a0]);
                    }
                }
                Some(v)
            },
        }
    }

    /// The vector stored under `id`, if any.
    pub fn get(&self, id: &str) -> (r: Option<&Vector<T>>)
        requires
            self.wf(),
        ensures
            r is Some <==> self@.contains_key(id@),
            r is Some ==> r->0@ == self@[id@],
    {
        match self.find(id) {
            Some(i) => Some(&self.entries[i].1),
            None => None,
        }
    }

    /// Every stored vector as a candidate scored against `query`, in ranking order.
    fn ranked_hits(&self, query: &Vector<T>) -> (hits: Vec<Hit>)
        requires
            self.wf(),
            query@.len() == self.dim,
        ensures
            hits_cover(hits@, entry_ids(self.entries@), self.entries@.len() as int, self.model@, query@, norm_sq(query@)),
            sorted_hits(hits@),
    {
        let ghost q = query@;
        let ghost ids = entry_ids(self.entries@);
        let qn = query.dot_with(query);
        proof {
            lemma_norm_upto_nonneg(q, q.len() as int);
        }
        let ghost qi = qn as int;
        let n = self.entries.len();
        let mut hits: Vec<Hit> = Vec::new();
        let mut e: usize = 0;
        while e < n
            invariant
                self.wf(),
                n == self.entries@.len(),
                ids == entry_ids(self.entries@),
                e <= n,
                q == query@,
                q.len() == self.dim,
                qi == norm_sq(q),
                0 <= qi,
                hits_cover(hits@, ids, e as int, self.model@, q, qi),
                sorted_hits(hits@),
            decreases n - e,
        {
            proof {
                assert(self.model@.contains_key(self.entries@[e as int].0@));
            }
            let v = &self.entries[e].1;
            let score = query.exact_cosine(v);
            let nv = v.dot_with(v);
            let h = Hit { id: self.entries[e].0.clone(), score, norm: nv };
            proof {
                reveal(hit_ok);
                assert(ids[e as int] == self.entries@[e as int].0@);
                assert(self.model@.contains_key(h.id@));
                lemma_norm_upto_nonneg(v@, v@.len() as int);
                assert(score@.1 == nv * qi) by (nonlinear_arith)
                    requires
                        score@.1 == qi * nv,
                ;
                if nv == 0 {
                    lemma_zero_norm_zero_dot(v@, q, v@.len() as int);
                    lemma_dot_upto_symmetric(v@, q, v@.len() as int);
                }
                if qi == 0 {
                    lemma_zero_norm_zero_dot(q, v@, q.len() as int);
                }
                assert forall|t: int| 0 <= t < hits@.len() implies (#[trigger] hits@[t]).id@ != h.id@ by {
                    reveal(among_first);
                    let x = choose|x: int| 0 <= x < e && ids[x] == hits@[t].id@;
                    assert(self.entries@[x].0@ != self.entries@[e as int].0@);
                }
            }
            let p = place_hit(&hits, &h, Ghost(qi));
            let ghost old_hits = hits@;
            hits.insert(p, h);
            proof {
                lemma_insert_keeps_order(old_hits, h, p as int, qi);
                lemma_insert_keeps_cover(old_hits, h, p as int, ids, e as int, self.model@, q, qi);
            }
            e = e + 1;
        }
        hits
    }

    /// Ranks the stored vectors by similarity to `query`, highest first and
    /// ties by ascending id, and returns at most `top_k` of them; fails when
    /// the query's dimension is not the index's.
    pub fn search(&self, query: &Vector<T>, top_k: usize) -> (r: Result<
        Vec<(String, Score)>,
        VectorDBError,
    >)
        requires
            self.wf(),
        ensures
            query@.len() != self.spec_dim() ==> r == Err::<Vec<(String, Score)>, VectorDBError>(
                VectorDBError::DimensionMismatch,
            ),
            query@.len() == self.spec_dim() ==> r is Ok && is_ranking(
                hits_view(r->Ok_0@),
                self@,
                query@,
                top_k as int,
            ),
            query@.len() == self.spec_dim() ==> r->Ok_0@.len() == if top_k < self@.dom().len() {
                top_k as int
            } else {
                self@.dom().len() as int
            },
    {
        if query.dim() != self.dim {
            return Err(VectorDBError::DimensionMismatch);
        }
        let hits = self.ranked_hits(query);
        let ghost ids = entry_ids(self.entries@);
        let ghost q = query@;
        let ghost qi = norm_sq(q);
        let k = if top_k < hits.len() {
            top_k
        } else {
            hits.len()
        };
        let mut out: Vec<(String, Score)> = Vec::new();
        let mut i: usize = 0;
        while i < k
            invariant
                k <= hits@.len(),
                i <= k,
                out@.len() == i,
                forall|j: int|
                    0 <= j < i ==> (#[trigger] out@[j]).0@ == hits@[j].id@ && out@[j].1@
                        == hits@[j].score@,
            decreases k - i,
        {
            out.push((hits[i].id.clone(), hits[i].score));
            i = i + 1;
        }
        proof {
            let rv = hits_view(out@);
            let m = self.model@;
            assert forall|j: int| 0 <= j < rv.len() implies #[trigger] rv[j] == hit_view(hits@[j]) by {
                assert(out@[j].0@ == hits@[j].id@);
            }
            assert forall|a: int, b: int| 0 <= a < b < rv.len() implies ranks_before(
                #[trigger] rv[a],
                #[trigger] rv[b],
            ) by {
                assert(rv[a] == hit_view(hits@[a]));
                assert(rv[b] == hit_view(hits@[b]));
            }
            assert forall|j: int| 0 <= j < rv.len() implies m.contains_key(#[trigger] rv[j].0)
                && rv[j].1 == cosine(q, m[rv[j].0]) by {
                assert(rv[j] == hit_view(hits@[j]));
            }
            assert forall|id: Seq<char>|
                m.contains_key(id) && (forall|j: int| 0 <= j < rv.len() ==> (#[trigger] rv[j]).0 != id)
                    implies rv.len() == top_k && forall|j: int|
                    0 <= j < rv.len() ==> ranks_before(#[trigger] rv[j], (id, cosine(q, m[id]))) by {
                let x = choose|x: int| 0 <= x < self.entries@.len() && self.entries@[x].0@ == id;
                assert(ids[x] == id);
                let t = choose|t: int| 0 <= t < hits@.len() && #[trigger] hits@[t].id@ == ids[x];
                if t < k {
                    assert(rv[t] == hit_view(hits@[t]));
                    assert(rv[t].0 == id);
                }
                assert(hit_view(hits@[t]) == (id, cosine(q, m[id])));
                assert forall|j: int| 0 <= j < rv.len() implies ranks_before(
                    #[trigger] rv[j],
                    (id, cosine(q, m[id])),
                ) by {
                    assert(rv[j] == hit_view(hits@[j]));
                    assert(ranks_before(hit_view(hits@[j]), hit_view(hits@[t])));
                }
            }
        }
        Ok(out)
    }

    /// The ids of a well-formed index form a finite set.
    pub proof fn lemma_finite(&self)
        requires
            self.wf(),
        ensures
            self@.dom().finite(),
    {
    }

    /// Number of stored vectors.
    pub fn len(&self) -> (r: usize)
        requires
            self.wf(),
        ensures
            self@.dom().finite(),
            r == self@.dom().len(),
    {
        self.entries.len()
    }

    /// Whether no vector is stored.
    pub fn is_empty(&self) -> (r: bool)
        requires
            self.wf(),
        ensures
            r == (self@.dom().len() == 0),
    {
        self.entries.len() == 0
    }
}

} // verus!
