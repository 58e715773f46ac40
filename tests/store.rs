use viie::db::VectorDB;
use viie::embedding::{EmbeddingError, EmbeddingMethod};
use viie::error::VectorDBError;
use viie::index::VectorIndex;
use viie::vector::{Score, Vector};

fn similarity(s: &Score) -> f64 {
    if s.norm_product() == 0 {
        0.0
    } else {
        s.dot() as f64 / (s.norm_product() as f64).sqrt()
    }
}

#[test]
fn test_vector_db_operations() {
    let mut db = VectorDB::<i16>::new();

    assert!(db.create_collection("test_collection", 3).is_ok());
    assert!(db.create_collection("test_collection", 3).is_err());

    let v1 = Vector::new(&[1i16, 2, 3]);
    assert!(db.insert("test_collection", "vec1".to_string(), v1.clone()).is_ok());
    assert!(db.insert("nonexistent", "vec1".to_string(), v1.clone()).is_err());

    let v2 = Vector::new(&[4i16, 5, 6]);
    assert!(db.update("test_collection", "vec1", v2.clone()).is_ok());
    assert!(db.update("test_collection", "nonexistent", v2.clone()).is_err());

    let query = Vector::new(&[4i16, 5, 6]);
    let results = db.search("test_collection", &query, 10).unwrap();
    assert_eq!(results.len(), 1);
    assert_eq!(results[0].0, "vec1");
    assert_eq!(similarity(&results[0].1), 1.0);

    assert!(db.delete("test_collection", "vec1").is_ok());
    let results = db.search("test_collection", &query, 10).unwrap();
    assert_eq!(results.len(), 0);

    assert!(db.delete_collection("test_collection").is_ok());
    assert!(db.delete_collection("test_collection").is_err());
}

#[test]
fn test_vector_db_integer_type() {
    let mut db = VectorDB::<i16>::new();

    assert!(db.create_collection("int_collection", 2).is_ok());

    let v1 = Vector::new(&[10i16, 20]);
    let v2 = Vector::new(&[30i16, 40]);

    assert!(db.insert("int_collection", "vec1".to_string(), v1).is_ok());
    assert!(db.insert("int_collection", "vec2".to_string(), v2).is_ok());

    let query = Vector::new(&[15i16, 25]);
    let results = db.search("int_collection", &query, 2).unwrap();

    assert_eq!(results.len(), 2);
    assert_eq!(results[0].0, "vec1");
}

#[test]
fn test_vector_index_f32() {
    let mut index = VectorIndex::<i16>::with_dim(3);

    let v1 = Vector::new(&[1i16, 0, 1]);
    let v2 = Vector::new(&[0i16, 1, 0]);

    index.insert("vec1".to_string(), v1.clone()).unwrap();
    index.insert("vec2".to_string(), v2).unwrap();

    assert_eq!(index.len(), 2);

    let results = index.search(&v1, 2).unwrap();
    assert_eq!(results.len(), 2);
    assert_eq!(results[0].0, "vec1");
    assert_eq!(similarity(&results[0].1), 1.0);

    index.delete("vec1");
    assert_eq!(index.len(), 1);
}

#[test]
fn test_vector_index_i32() {
    let mut index = VectorIndex::<i16>::with_dim(2);

    let v1 = Vector::new(&[10i16, 20]);
    let v2 = Vector::new(&[5i16, 10]);

    index.insert("vec1".to_string(), v1).unwrap();
    index.insert("vec2".to_string(), v2.clone()).unwrap();

    let results = index.search(&v2, 2).unwrap();
    assert_eq!(results.len(), 2);
    // Both vectors point the same way: the tie goes to the smaller id.
    assert_eq!(results[0].0, "vec1");
    assert_eq!(results[1].0, "vec2");
    assert_eq!(similarity(&results[0].1), similarity(&results[1].1));

    index.update("vec2", Vector::new(&[15i16, 25])).unwrap();
    let updated_vec = index.get("vec2").unwrap();
    assert_eq!(updated_vec.raw()[0], 15);
    assert_eq!(updated_vec.raw()[1], 25);
}

#[test]
fn test_dim_f32() {
    let v = Vector::new(&[1i16, 2, 3]);
    assert_eq!(v.dim(), 3);
}

#[test]
fn test_dim_f64() {
    let v = Vector::new(&[1i8, 2, 3]);
    assert_eq!(v.dim(), 3);
}

#[test]
fn test_cosine_similarity_f32() {
    let v1 = Vector::new(&[1i16, 0, 1]);
    let v2 = Vector::new(&[1i16, 0, 1]);
    assert_eq!(similarity(&v1.cosine_similarity(&v2).unwrap()), 1.0);
}

#[test]
fn test_cosine_similarity_f64() {
    let v1 = Vector::new(&[1u8, 0, 1]);
    let v2 = Vector::new(&[1u8, 0, 1]);
    assert_eq!(similarity(&v1.cosine_similarity(&v2).unwrap()), 1.0);
}

#[test]
fn test_cosine_similarity_i16() {
    let v1 = Vector::new(&[1000i16, 0, 1000]);
    let v2 = Vector::new(&[1000i16, 0, 1000]);
    assert_eq!(similarity(&v1.cosine_similarity(&v2).unwrap()), 1.0);
}

#[test]
fn docs_scenario_ranks_exact_match_first() {
    let mut db = VectorDB::<i16>::new();
    db.create_collection("docs", 3).unwrap();
    db.insert("docs", "a".to_string(), Vector::new(&[1i16, 0, 0])).unwrap();
    db.insert("docs", "b".to_string(), Vector::new(&[0i16, 1, 0])).unwrap();
    let results = db.search("docs", &Vector::new(&[1i16, 0, 0]), 2).unwrap();
    assert_eq!(results.len(), 2);
    assert_eq!(results[0].0, "a");
    assert_eq!(similarity(&results[0].1), 1.0);
    assert_eq!(results[1].0, "b");
    assert_eq!(similarity(&results[1].1), 0.0);
}

#[test]
fn search_orders_by_score_then_id_and_cuts_at_k() {
    let mut index = VectorIndex::<i16>::with_dim(2);
    index.insert("z".to_string(), Vector::new(&[1i16, 0])).unwrap();
    index.insert("m".to_string(), Vector::new(&[-1i16, 0])).unwrap();
    index.insert("b".to_string(), Vector::new(&[2i16, 0])).unwrap();
    index.insert("a".to_string(), Vector::new(&[1i16, 1])).unwrap();
    let all = index.search(&Vector::new(&[3i16, 0]), 10).unwrap();
    let ids: Vec<&str> = all.iter().map(|(id, _)| id.as_str()).collect();
    assert_eq!(ids, vec!["b", "z", "a", "m"]);
    for w in all.windows(2) {
        assert!(similarity(&w[0].1) >= similarity(&w[1].1));
    }
    let top = index.search(&Vector::new(&[3i16, 0]), 2).unwrap();
    assert_eq!(top.len(), 2);
    assert_eq!(top[0].0, "b");
    assert_eq!(top[1].0, "z");
    assert_eq!(index.search(&Vector::new(&[3i16, 0]), 0).unwrap().len(), 0);
}

#[test]
fn similarity_is_symmetric_and_zero_for_zero_vector() {
    let a = Vector::new(&[3i16, -4, 5]);
    let b = Vector::new(&[-2i16, 7, 1]);
    let ab = a.cosine_similarity(&b).unwrap();
    let ba = b.cosine_similarity(&a).unwrap();
    assert_eq!(ab, ba);
    assert_eq!(ab.dot(), -29);
    assert_eq!(ab.norm_product(), 50 * 54);
    let z = Vector::new(&[0i16, 0, 0]);
    let az = a.cosine_similarity(&z).unwrap();
    assert_eq!(az.dot(), 0);
    assert_eq!(az.norm_product(), 0);
    assert_eq!(similarity(&az), 0.0);
}

#[test]
fn cosine_of_different_dimensions_fails() {
    let a = Vector::new(&[1i16, 2]);
    let b = Vector::new(&[1i16, 2, 3]);
    assert_eq!(a.cosine_similarity(&b), Err(VectorDBError::DimensionMismatch));
}

#[test]
fn wrong_dimension_is_rejected_and_changes_nothing() {
    let mut db = VectorDB::<i16>::new();
    db.create_collection("c", 2).unwrap();
    db.insert("c", "x".to_string(), Vector::new(&[1i16, 2])).unwrap();
    assert_eq!(
        db.insert("c", "y".to_string(), Vector::new(&[1i16, 2, 3])),
        Err(VectorDBError::DimensionMismatch)
    );
    assert_eq!(db.update("c", "x", Vector::new(&[1i16])), Err(VectorDBError::DimensionMismatch));
    assert_eq!(
        db.search("c", &Vector::new(&[1i16, 2, 3]), 5).err(),
        Some(VectorDBError::DimensionMismatch)
    );
    let results = db.search("c", &Vector::new(&[1i16, 2]), 5).unwrap();
    assert_eq!(results.len(), 1);
    assert_eq!(results[0].0, "x");
    assert_eq!(similarity(&results[0].1), 1.0);
}

#[test]
fn missing_collection_and_id_errors() {
    let mut db = VectorDB::<i16>::new();
    assert_eq!(db.create_collection("c", 2), Ok(()));
    assert_eq!(db.create_collection("c", 2), Err(VectorDBError::CollectionExists));
    let v = Vector::new(&[1i16, 1]);
    assert_eq!(db.insert("none", "x".to_string(), v.clone()), Err(VectorDBError::CollectionNotFound));
    assert_eq!(db.update("none", "x", v.clone()), Err(VectorDBError::CollectionNotFound));
    assert_eq!(db.delete("none", "x"), Err(VectorDBError::CollectionNotFound));
    assert_eq!(db.search("none", &v, 1).err(), Some(VectorDBError::CollectionNotFound));
    assert_eq!(db.delete_collection("none"), Err(VectorDBError::CollectionNotFound));
    assert_eq!(db.update("c", "x", v.clone()), Err(VectorDBError::VectorIdNotFound));
    assert_eq!(db.delete("c", "never-there"), Ok(()));
}

#[test]
fn update_replaces_and_delete_removes() {
    let mut db = VectorDB::<i16>::new();
    db.create_collection("c", 2).unwrap();
    db.insert("c", "x".to_string(), Vector::new(&[1i16, 0])).unwrap();
    db.insert("c", "y".to_string(), Vector::new(&[1i16, 1])).unwrap();
    db.update("c", "x", Vector::new(&[0i16, 1])).unwrap();
    let r = db.search("c", &Vector::new(&[0i16, 5]), 5).unwrap();
    assert_eq!(r[0].0, "x");
    assert_eq!(similarity(&r[0].1), 1.0);
    db.delete("c", "x").unwrap();
    let r = db.search("c", &Vector::new(&[0i16, 5]), 5).unwrap();
    assert!(r.iter().all(|(id, _)| id != "x"));
    assert_eq!(r.len(), 1);
}

#[test]
fn insert_overwrites_existing_id() {
    let mut index = VectorIndex::<u8>::with_dim(2);
    index.insert("x".to_string(), Vector::new(&[1u8, 2])).unwrap();
    index.insert("x".to_string(), Vector::new(&[7u8, 9])).unwrap();
    assert_eq!(index.len(), 1);
    assert_eq!(index.get("x").unwrap().raw(), &[7u8, 9]);
    assert!(!index.is_empty());
    assert!(index.delete("x").is_some());
    assert!(index.delete("x").is_none());
    assert!(index.is_empty());
}

#[test]
fn list_collections_names_each_once() {
    let mut db = VectorDB::<i16>::new();
    db.create_collection("a", 1).unwrap();
    db.create_collection("b", 2).unwrap();
    let mut names = db.list_collections();
    names.sort();
    assert_eq!(names, vec!["a".to_string(), "b".to_string()]);
}

#[test]
fn embedding_config_takes_collection_dimension() {
    let mut db = VectorDB::<i16>::new();
    db.create_collection("c", 7).unwrap();
    let (config, fell_back) = db.embedding_config("c", "one_hot").unwrap();
    assert_eq!(config.dim, 7);
    assert_eq!(config.method, EmbeddingMethod::OneHotEncoding);
    assert!(!fell_back);
    assert_eq!(config.ngram_size, Some(3));
    let (config, fell_back) = db.embedding_config("c", "no-such-technique").unwrap();
    assert_eq!(config.method, EmbeddingMethod::AsciiSum);
    assert!(fell_back);
    assert_eq!(db.embedding_config("none", "random").err(), Some(VectorDBError::CollectionNotFound));
}

#[test]
fn insert_embedding_wraps_failures() {
    let mut db = VectorDB::<i16>::new();
    db.create_collection("c", 2).unwrap();
    let failed: Result<Vector<i16>, EmbeddingError> = Err(EmbeddingError::MissingCredentials);
    assert_eq!(
        db.insert_embedding("c", "x".to_string(), failed),
        Err(VectorDBError::EmbeddingError(EmbeddingError::MissingCredentials))
    );
    assert_eq!(
        db.insert_embedding("c", "x".to_string(), Ok(Vector::new(&[1i16, 2, 3]))),
        Err(VectorDBError::DimensionMismatch)
    );
    assert_eq!(db.insert_embedding("c", "x".to_string(), Ok(Vector::new(&[1i16, 2]))), Ok(()));
    assert_eq!(db.search("c", &Vector::new(&[1i16, 2]), 1).unwrap()[0].0, "x");
}
