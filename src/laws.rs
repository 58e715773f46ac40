use vstd::prelude::*;
use crate::index::is_ranking;
use crate::ranking::{ranks_before, score_ge, lemma_id_less_irreflexive};
use crate::vector::{cosine, represents_one, lemma_self_similarity_is_one};

verus! {

/// After `v` is inserted under `id`, a search with `v` itself as the query
/// and room for at least one result returns `id` first with similarity 1,
/// provided no other stored vector is at least as similar to `v`.
pub proof fn lemma_inserted_vector_ranks_first(
    m: Map<Seq<char>, Seq<int>>,
    id: Seq<char>,
    v: Seq<int>,
    i: int,
    r: Seq<(Seq<char>, (int, int))>,
    k: int,
)
    requires
        0 <= i < v.len(),
        v[i] != 0,
        k >= 1,
        is_ranking(r, m.insert(id, v), v, k),
        forall|o: Seq<char>|
            m.insert(id, v).contains_key(o) && o != id ==> !score_ge(
                cosine(v, m.insert(id, v)[o]),
                cosine(v, v),
            ),
    ensures
        r.len() > 0,
        r[0].0 == id,
        represents_one(r[0].1),
{
    let m2 = m.insert(id, v);
    lemma_self_similarity_is_one(v, i);
    assert(m2.contains_key(id));
    if forall|j: int| 0 <= j < r.len() ==> (#[trigger] r[j]).0 != id {
        assert(r.len() == k);
        assert(ranks_before(r[0], (id, cosine(v, m2[id]))));
        assert(m2.contains_key(r[0].0));
    } else {
        let j = choose|j: int| 0 <= j < r.len() && (#[trigger] r[j]).0 == id;
        if j > 0 {
            assert(ranks_before(r[0], r[j]));
            assert(m2.contains_key(r[0].0));
            if r[0].0 == id {
                lemma_id_less_irreflexive(id);
            }
        }
    }
}

/// After `update(id, v2)`, a search reports `id` with its similarity to `v2`.
pub proof fn lemma_search_sees_update(
    m: Map<Seq<char>, Seq<int>>,
    id: Seq<char>,
    v2: Seq<int>,
    q: Seq<int>,
    r: Seq<(Seq<char>, (int, int))>,
    k: int,
)
    requires
        is_ranking(r, m.insert(id, v2), q, k),
    ensures
        forall|j: int| 0 <= j < r.len() && (#[trigger] r[j]).0 == id ==> r[j].1 == cosine(q, v2),
{
}

/// After `delete(id)`, no search returns `id`; deleting an absent id leaves
/// the vectors as they were.
pub proof fn lemma_search_omits_deleted(
    m: Map<Seq<char>, Seq<int>>,
    id: Seq<char>,
    q: Seq<int>,
    r: Seq<(Seq<char>, (int, int))>,
    k: int,
)
    requires
        is_ranking(r, m.remove(id), q, k),
    ensures
        forall|j: int| 0 <= j < r.len() ==> (#[trigger] r[j]).0 != id,
        !m.contains_key(id) ==> m.remove(id) == m,
{
    assert(!m.contains_key(id) ==> m.remove(id) =~= m);
}

} // verus!
