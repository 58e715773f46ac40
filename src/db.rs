use vstd::prelude::*;
use crate::embedding::{
    Embedding,
    EmbeddingConfig,
    EmbeddingError,
    EmbeddingMethod,
    default_config_spec,
    technique_method,
};
use crate::error::VectorDBError;
use crate::index::{VectorIndex, hits_view, is_ranking};
use crate::numeric::Numeric;
use crate::ranking::str_eq;
use crate::vector::{Vector, Score, MAX_DIM};

verus! {

/// What a collection holds: its dimension and its vectors by id.
pub type CollectionModel = (nat, Map<Seq<char>, Seq<int>>);

/// A store of named collections of vectors.
pub struct VectorDB<T: Numeric> {
    collections: Vec<(String, VectorIndex<T>)>,
    config: EmbeddingConfig,
    model: Ghost<Map<Seq<char>, CollectionModel>>,
}

impl<T: Numeric> View for VectorDB<T> {
    type V = Map<Seq<char>, CollectionModel>;

    closed spec fn view(&self) -> Map<Seq<char>, CollectionModel> {
        self.model@
    }
}

impl<T: Numeric> VectorDB<T> {
    /// Names are unique and the model maps each name to its collection.
    pub closed spec fn wf(&self) -> bool {
        &&& forall|i: int, j: int|
            0 <= i < j < self.collections@.len() ==> self.collections@[i].0@
                != self.collections@[j].0@
        &&& forall|i: int|
            0 <= i < self.collections@.len() ==> {
                &&& self.collections@[i].1.wf()
                &&& self.model@.contains_key(#[trigger] self.collections@[i].0@)
                &&& self.model@[self.collections@[i].0@] == (
                    self.collections@[i].1.spec_dim(),
                    self.collections@[i].1@,
                )
            }
        &&& forall|k: Seq<char>|
            #[trigger] self.model@.contains_key(k) ==> exists|i: int|
                0 <= i < self.collections@.len() && self.collections@[i].0@ == k
    }

    /// The default embedding configuration of the store.
    pub closed spec fn spec_config(&self) -> EmbeddingConfig {
        self.config
    }

    /// An empty store with the default embedding configuration.
    pub fn new() -> (r: Self)
        ensures
            r.wf(),
            r@ == Map::<Seq<char>, CollectionModel>::empty(),
            default_config_spec(r.spec_config()),
    {
        VectorDB { collections: Vec::new(), config: EmbeddingConfig::default(), model: Ghost(Map::empty()) }
    }

    /// An empty store with the given embedding configuration.
    pub fn with_config(config: EmbeddingConfig) -> (r: Self)
        ensures
            r.wf(),
            r@ == Map::<Seq<char>, CollectionModel>::empty(),
            r.spec_config() == config,
    {
        VectorDB { collections: Vec::new(), config, model: Ghost(Map::empty()) }
    }

    /// Position of the collection called `name`.
    fn find(&self, name: &str) -> (r: Option<usize>)
        requires
            self.wf(),
        ensures
            r is None ==> !self@.contains_key(name@),
            r is Some ==> r->0 < self.collections@.len() && self.collections@[r->0 as int].0@
                == name@,
    {
        let mut i: usize = 0;
        while i < self.collections.len()
            invariant
                i <= self.collections@.len(),
                forall|j: int| 0 <= j < i ==> self.collections@[j].0@ != name@,
            decreases self.collections@.len() - i,
        {
            if str_eq(self.collections[i].0.as_str(), name) {
                return Some(i);
            }
            i = i + 1;
        }
        None
    }

    /// Creates an empty collection of dimension `dim`; fails, changing
    /// nothing, when the name is taken.
    pub fn create_collection(&mut self, name: &str, dim: usize) -> (r: Result<(), VectorDBError>)
        requires
            old(self).wf(),
            dim <= MAX_DIM,
        ensures
            final(self).wf(),
            final(self).spec_config() == old(self).spec_config(),
            old(self)@.contains_key(name@) ==> r == Err::<(), _>(VectorDBError::CollectionExists)
                && final(self)@ == old(self)@,
            !old(self)@.contains_key(name@) ==> r is Ok && final(self)@ == old(self)@.insert(
                name@,
                (dim as nat, Map::<Seq<char>, Seq<int>>::empty()),
            ),
    {
        if self.find(name).is_some() {
            return Err(VectorDBError::CollectionExists);
        }
        let index = VectorIndex::<T>::with_dim(dim);
        let ghost entry = (dim as nat, index@);
        self.collections.push((name.to_owned(), index));
        self.model = Ghost(self.model@.insert(name@, entry));
        proof {
            let n = self.collections@.len() - 1;
            assert forall|k: Seq<char>| #[trigger] self.model@.contains_key(k) implies exists|j: int|
                0 <= j < self.collections@.len() && self.collections@[j].0@ == k by {
                if k != name@ {
                    let j = choose|j: int| 0 <= j < n && old(self).collections@[j].0@ == k;
                    assert(self.collections@[j].0@ == k);
                } else {
                    assert(self.collections@[n].0@ == k);
                }
            }
            assert forall|j: int| 0 <= j < n implies self.collections@[j].0@ != name@ by {
                assert(old(self).model@.contains_key(old(self).collections@[j].0@));
            }
        }
        Ok(())
    }

    /// Deletes a collection and all its vectors; fails when it is absent.
    pub fn delete_collection(&mut self, name: &str) -> (r: Result<(), VectorDBError>)
        requires
            old(self).wf(),
        ensures
            final(self).wf(),
            final(self).spec_config() == old(self).spec_config(),
            !old(self)@.contains_key(name@) ==> r == Err::<(), _>(VectorDBError::CollectionNotFound)
                && final(self)@ == old(self)@,
            old(self)@.contains_key(name@) ==> r is Ok && final(self)@ == old(self)@.remove(name@),
    {
        match self.find(name) {
            None => Err(VectorDBError::CollectionNotFound),
            Some(i) => {
                let ghost old_cols = self.collections@;
                let _ = self.collections.remove(i);
                self.model = Ghost(self.model@.remove(name@));
                proof {
                    assert forall|k: Seq<char>| #[trigger] self.model@.contains_key(k) implies exists|j: int|
                        0 <= j < self.collections@.len() && self.collections@[j].0@ == k by {
                        let j = choose|j: int| 0 <= j < old_cols.len() && old_cols[j].0@ == k;
                        if j < i {
                            assert(self.collections@[j].0@ == k);
                        } else {
                            assert(j != i);
                            assert(self.collections@[j - 1].0@ == k);
                        }
                    }
                    assert forall|a: int, b: int|
                        0 <= a < b < self.collections@.len() implies self.collections@[a].0@
                        != self.collections@[b].0@ by {
                        let a0 = if a < i { a } else { a + 1 };
                        let b0 = if b < i { b } else { b + 1 };
                        assert(self.collections@[a] == old_cols[a0]);
                        assert(self.collections@[b] == old_cols[b0]);
                    }
                    assert forall|a: int| 0 <= a < self.collections@.len() implies {
                        &&& self.collections@[a].1.wf()
                        &&& self.model@.contains_key(#[trigger] self.collections@[a].0@)
                        &&& self.model@[self.collections@[a].0@] == (
                            self.collections@[a].1.spec_dim(),
                            self.collections@[a].1@,
                        )
                    } by {
                        let a0 = if a < i { a } else { a + 1 };
                        assert(self.collections@[a] == old_cols[a0]);
                    }
                }
                Ok(())
            },
        }
    }

    /// Replacing one collection's index and its model entry keeps the store well formed.
    proof fn lemma_replaced(old_db: Self, new_db: Self, i: int)
        requires
            old_db.wf(),
            0 <= i < old_db.collections@.len(),
            new_db.collections@.len() == old_db.collections@.len(),
            forall|j: int|
                0 <= j < old_db.collections@.len() && j != i ==> new_db.collections@[j]
                    == old_db.collections@[j],
            new_db.collections@[i].0 == old_db.collections@[i].0,
            new_db.collections@[i].1.wf(),
            new_db.model@ == old_db.model@.insert(
                old_db.collections@[i].0@,
                (new_db.collections@[i].1.spec_dim(), new_db.collections@[i].1@),
            ),
        ensures
            new_db.wf(),
    {
        assert forall|k: Seq<char>| #[trigger] new_db.model@.contains_key(k) implies exists|j: int|
            0 <= j < new_db.collections@.len() && new_db.collections@[j].0@ == k by {
            let j = choose|j: int|
                0 <= j < old_db.collections@.len() && old_db.collections@[j].0@ == k;
            assert(new_db.collections@[j].0@ == k);
        }
        assert forall|a: int, b: int|
            0 <= a < b < new_db.collections@.len() implies new_db.collections@[a].0@
            != new_db.collections@[b].0@ by {
            assert(new_db.collections@[a].0@ == old_db.collections@[a].0@);
            assert(new_db.collections@[b].0@ == old_db.collections@[b].0@);
        }
    }

    /// Stores `vector` under `id` in `collection`, replacing any vector held
    /// there; fails, changing nothing, when the collection is absent or the
    /// dimension is not the collection's.
    pub fn insert(&mut self, collection: &str, id: String, vector: Vector<T>) -> (r: Result<
        (),
        VectorDBError,
    >)
        requires
            old(self).wf(),
        ensures
            final(self).wf(),
            final(self).spec_config() == old(self).spec_config(),
            !old(self)@.contains_key(collection@) ==> r == Err::<(), _>(
                VectorDBError::CollectionNotFound,
            ),
            old(self)@.contains_key(collection@) && vector@.len() != old(self)@[collection@].0
                ==> r == Err::<(), _>(VectorDBError::DimensionMismatch),
            r is Err ==> final(self)@ == old(self)@,
            old(self)@.contains_key(collection@) && vector@.len() == old(self)@[collection@].0
                ==> r is Ok && final(self)@ == old(self)@.insert(
                collection@,
                (old(self)@[collection@].0, old(self)@[collection@].1.insert(id@, vector@)),
            ),
    {
        match self.find(collection) {
            None => Err(VectorDBError::CollectionNotFound),
            Some(i) => {
                let r = self.collections[i].1.insert(id, vector);
                self.model = Ghost(
                    self.model@.insert(
                        collection@,
                        (self.collections@[i as int].1.spec_dim(), self.collections@[i as int].1@),
                    ),
                );
                proof {
                    Self::lemma_replaced(*old(self), *self, i as int);
                    if r is Err {
                        assert(self.model@ =~= old(self).model@);
                    }
                }
                r
            },
        }
    }

    /// Replaces the vector stored under `id` in `collection`; fails, changing
    /// nothing, when the collection is absent, the dimension is not the
    /// collection's, or the id is absent.
    pub fn update(&mut self, collection: &str, id: &str, vector: Vector<T>) -> (r: Result<
        (),
        VectorDBError,
    >)
        requires
            old(self).wf(),
        ensures
            final(self).wf(),
            final(self).spec_config() == old(self).spec_config(),
            !old(self)@.contains_key(collection@) ==> r == Err::<(), _>(
                VectorDBError::CollectionNotFound,
            ),
            old(self)@.contains_key(collection@) && vector@.len() != old(self)@[collection@].0
                ==> r == Err::<(), _>(VectorDBError::DimensionMismatch),
            old(self)@.contains_key(collection@) && vector@.len() == old(self)@[collection@].0
                && !old(self)@[collection@].1.contains_key(id@) ==> r == Err::<(), _>(
                VectorDBError::VectorIdNotFound,
            ),
            r is Err ==> final(self)@ == old(self)@,
            old(self)@.contains_key(collection@) && vector@.len() == old(self)@[collection@].0
                && old(self)@[collection@].1.contains_key(id@) ==> r is Ok && final(self)@
                == old(self)@.insert(
                collection@,
                (old(self)@[collection@].0, old(self)@[collection@].1.insert(id@, vector@)),
            ),
    {
        match self.find(collection) {
            None => Err(VectorDBError::CollectionNotFound),
            Some(i) => {
                let r = self.collections[i].1.update(id, vector);
                self.model = Ghost(
                    self.model@.insert(
                        collection@,
                        (self.collections@[i as int].1.spec_dim(), self.collections@[i as int].1@),
                    ),
                );
                proof {
                    Self::lemma_replaced(*old(self), *self, i as int);
                    if r is Err {
                        assert(self.model@ =~= old(self).model@);
                    }
                }
                r
            },
        }
    }

    /// Removes `id` from `collection`; an absent id changes nothing and is no
    /// error; fails when the collection is absent.
    pub fn delete(&mut self, collection: &str, id: &str) -> (r: Result<(), VectorDBError>)
        requires
            old(self).wf(),
        ensures
            final(self).wf(),
            final(self).spec_config() == old(self).spec_config(),
            !old(self)@.contains_key(collection@) ==> r == Err::<(), _>(
                VectorDBError::CollectionNotFound,
            ) && final(self)@ == old(self)@,
            old(self)@.contains_key(collection@) ==> r is Ok && final(self)@ == old(self)@.insert(
                collection@,
                (old(self)@[collection@].0, old(self)@[collection@].1.remove(id@)),
            ),
    {
        match self.find(collection) {
            None => Err(VectorDBError::CollectionNotFound),
            Some(i) => {
                let _ = self.collections[i].1.delete(id);
                self.model = Ghost(
                    self.model@.insert(
                        collection@,
                        (self.collections@[i as int].1.spec_dim(), self.collections@[i as int].1@),
                    ),
                );
                proof {
                    Self::lemma_replaced(*old(self), *self, i as int);
                }
                Ok(())
            },
        }
    }

    /// Ranks the vectors of `collection` by similarity to `query` (see
    /// `VectorIndex::search`); fails when the collection is absent or the
    /// query's dimension is not the collection's.
    pub fn search(&self, collection: &str, query: &Vector<T>, top_k: usize) -> (r: Result<
        Vec<(String, Score)>,
        VectorDBError,
    >)
        requires
            self.wf(),
        ensures
            !self@.contains_key(collection@) ==> r == Err::<Vec<(String, Score)>, VectorDBError>(
                VectorDBError::CollectionNotFound,
            ),
            self@.contains_key(collection@) && query@.len() != self@[collection@].0 ==> r == Err::<
                Vec<(String, Score)>,
                VectorDBError,
            >(VectorDBError::DimensionMismatch),
            self@.contains_key(collection@) && query@.len() == self@[collection@].0 ==> r is Ok
                && is_ranking(hits_view(r->Ok_0@), self@[collection@].1, query@, top_k as int),
            self@.contains_key(collection@) && query@.len() == self@[collection@].0 ==> r->Ok_0@.len()
                == if top_k < self@[collection@].1.dom().len() {
                top_k as int
            } else {
                self@[collection@].1.dom().len() as int
            },
    {
        match self.find(collection) {
            None => Err(VectorDBError::CollectionNotFound),
            Some(i) => self.collections[i].1.search(query, top_k),
        }
    }

    /// The configuration for embedding content into `collection` with
    /// `technique`: the collection's dimension, the technique's method (or
    /// `AsciiSum` for an unknown name, reported by the flag), and the store's
    /// own parameters; fails when the collection is absent.
    pub fn embedding_config(&self, collection: &str, technique: &str) -> (r: Result<
        (EmbeddingConfig, bool),
        VectorDBError,
    >)
        requires
            self.wf(),
        ensures
            !self@.contains_key(collection@) ==> r == Err::<(EmbeddingConfig, bool), _>(
                VectorDBError::CollectionNotFound,
            ),
            self@.contains_key(collection@) ==> r is Ok && ({
                let (c, fell_back) = r->Ok_0;
                &&& c.dim == self@[collection@].0
                &&& technique_method(technique@) is Some ==> c.method == technique_method(
                    technique@,
                )->0 && !fell_back
                &&& technique_method(technique@) is None ==> c.method == EmbeddingMethod::AsciiSum
                    && fell_back
                &&& c.api_key == self.spec_config().api_key
                &&& c.api_endpoint == self.spec_config().api_endpoint
                &&& c.model_path == self.spec_config().model_path
                &&& c.vocab_path == self.spec_config().vocab_path
                &&& c.ngram_size == self.spec_config().ngram_size
                &&& c.min_count == self.spec_config().min_count
                &&& c.window_size == self.spec_config().window_size
            }),
    {
        match self.find(collection) {
            None => Err(VectorDBError::CollectionNotFound),
            Some(i) => {
                let dim = self.collections[i].1.dim();
                let (method, fell_back) = Embedding::method_for_technique(technique);
                let config = EmbeddingConfig {
                    method,
                    dim,
                    api_key: self.config.api_key.clone(),
                    api_endpoint: self.config.api_endpoint.clone(),
                    model_path: self.config.model_path.clone(),
                    vocab_path: self.config.vocab_path.clone(),
                    ngram_size: self.config.ngram_size,
                    min_count: self.config.min_count,
                    window_size: self.config.window_size,
                };
                Ok((config, fell_back))
            },
        }
    }

    /// Stores the outcome of an embedding under `id`: a failed embedding is
    /// reported as `EmbeddingError`, a vector is inserted as by `insert`.
    pub fn insert_embedding(
        &mut self,
        collection: &str,
        id: String,
        embedding: Result<Vector<T>, EmbeddingError>,
    ) -> (r: Result<(), VectorDBError>)
        requires
            old(self).wf(),
        ensures
            final(self).wf(),
            final(self).spec_config() == old(self).spec_config(),
            !old(self)@.contains_key(collection@) ==> r == Err::<(), _>(
                VectorDBError::CollectionNotFound,
            ),
            old(self)@.contains_key(collection@) && embedding is Err ==> r == Err::<(), _>(
                VectorDBError::EmbeddingError(embedding->Err_0),
            ),
            old(self)@.contains_key(collection@) && embedding is Ok && embedding->Ok_0@.len()
                != old(self)@[collection@].0 ==> r == Err::<(), _>(VectorDBError::DimensionMismatch),
            r is Err ==> final(self)@ == old(self)@,
            old(self)@.contains_key(collection@) && embedding is Ok && embedding->Ok_0@.len()
                == old(self)@[collection@].0 ==> r is Ok && final(self)@ == old(self)@.insert(
                collection@,
                (old(self)@[collection@].0, old(self)@[collection@].1.insert(id@, embedding->Ok_0@)),
            ),
    {
        if self.find(collection).is_none() {
            return Err(VectorDBError::CollectionNotFound);
        }
        match embedding {
            Err(e) => Err(VectorDBError::EmbeddingError(e)),
            Ok(v) => self.insert(collection, id, v),
        }
    }

    /// The names of all collections, each once.
    pub fn list_collections(&self) -> (r: Vec<String>)
        requires
            self.wf(),
        ensures
            forall|k: Seq<char>|
                self@.contains_key(k) <==> exists|i: int| 0 <= i < r@.len() && (#[trigger] r@[i])@ == k,
            forall|i: int, j: int| 0 <= i < j < r@.len() ==> r@[i]@ != r@[j]@,
    {
        let mut out: Vec<String> = Vec::new();
        let mut i: usize = 0;
        while i < self.collections.len()
            invariant
                self.wf(),
                i <= self.collections@.len(),
                out@.len() == i,
                forall|j: int| 0 <= j < i ==> (#[trigger] out@[j])@ == self.collections@[j].0@,
            decreases self.collections@.len() - i,
        {
            out.push(self.collections[i].0.clone());
            i = i + 1;
        }
        proof {
            assert forall|k: Seq<char>| self@.contains_key(k) implies exists|i: int|
                0 <= i < out@.len() && (#[trigger] out@[i])@ == k by {
                let j = choose|j: int| 0 <= j < self.collections@.len() && self.collections@[j].0@ == k;
                assert(out@[j]@ == k);
            }
            assert forall|i: int| 0 <= i < out@.len() implies self@.contains_key((#[trigger] out@[i])@) by {
                assert(self.model@.contains_key(self.collections@[i].0@));
            }
        }
        out
    }
}

} // verus!
