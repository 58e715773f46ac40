use viie::chunker::{Chunkable, TextChunker};
use viie::embedding::{Embedding, EmbeddingConfig, EmbeddingError, EmbeddingMethod, EmbeddingPlan};
use viie::text::words_of;

fn vocab(words: &[&str]) -> Vec<String> {
    words.iter().map(|w| w.to_string()).collect()
}

#[test]
fn technique_names_select_methods() {
    assert_eq!(Embedding::method_for_technique("tf_idf"), (EmbeddingMethod::TfIdf, false));
    assert_eq!(Embedding::method_for_technique("one_hot"), (EmbeddingMethod::OneHotEncoding, false));
    assert_eq!(Embedding::method_for_technique("bert"), (EmbeddingMethod::BertEmbedding, false));
    assert_eq!(Embedding::method_for_technique("external_api"), (EmbeddingMethod::ExternalApi, false));
}

#[test]
fn unknown_technique_falls_back_to_ascii_sum() {
    assert_eq!(Embedding::method_for_technique("glove-ish"), (EmbeddingMethod::AsciiSum, true));
    assert_eq!(Embedding::method_for_technique(""), (EmbeddingMethod::AsciiSum, true));
}

#[test]
fn plans_follow_the_method() {
    let mut config = EmbeddingConfig::default();
    assert_eq!(config.dim, 100);
    assert_eq!(Embedding::plan(&config), Ok(EmbeddingPlan::BagOfWords));
    config.method = EmbeddingMethod::NGram;
    assert_eq!(Embedding::plan(&config), Ok(EmbeddingPlan::NGram(3)));
    config.ngram_size = None;
    assert_eq!(Embedding::plan(&config), Ok(EmbeddingPlan::NGram(3)));
    config.ngram_size = Some(2);
    assert_eq!(Embedding::plan(&config), Ok(EmbeddingPlan::NGram(2)));
    config.method = EmbeddingMethod::Word2Vec;
    match Embedding::plan(&config) {
        Err(EmbeddingError::NotSupported(text)) => assert!(text.contains("tch-rs")),
        other => panic!("unexpected {:?}", other),
    }
    config.method = EmbeddingMethod::Lda;
    assert_eq!(
        Embedding::plan(&config),
        Err(EmbeddingError::NotSupported(
            "LDA requires specific topic modeling implementation.".to_string()
        ))
    );
    config.method = EmbeddingMethod::BertEmbedding;
    assert_eq!(
        Embedding::plan(&config),
        Err(EmbeddingError::NotSupported("BERT embeddings require rust-bert crate.".to_string()))
    );
    config.method = EmbeddingMethod::ExternalApi;
    assert_eq!(Embedding::plan(&config), Err(EmbeddingError::MissingCredentials));
    config.api_key = Some("k".to_string());
    config.api_endpoint = Some("http://localhost/embed".to_string());
    assert_eq!(
        Embedding::plan(&config),
        Ok(EmbeddingPlan::ExternalApi {
            api_key: "k".to_string(),
            endpoint: "http://localhost/embed".to_string()
        })
    );
}

#[test]
fn words_split_on_white_space() {
    let w = words_of("  The quick\tbrown\n fox ");
    assert_eq!(w, vocab(&["The", "quick", "brown", "fox"]));
    assert!(words_of("   ").is_empty());
}

#[test]
fn bag_of_words_counts_lowercased_terms() {
    let v = vocab(&["the", "and", "is"]);
    assert_eq!(Embedding::bag_of_words("The cat and THE dog is", &v, 5), vec![2, 1, 1, 0, 0]);
    assert_eq!(Embedding::bag_of_words("the the", &v, 2), vec![2, 0]);
    assert_eq!(Embedding::bag_of_words("", &v, 3), vec![0, 0, 0]);
}

#[test]
fn one_hot_marks_present_terms() {
    let v = vocab(&["the", "and", "is"]);
    assert_eq!(Embedding::one_hot_encoding("IS it the one", &v, 4), vec![1, 0, 1, 0]);
    assert_eq!(Embedding::one_hot_encoding("and", &v, 1), vec![0]);
    let repeated = vocab(&["a", "a"]);
    assert_eq!(Embedding::one_hot_of_words(&vocab(&["a"]), &repeated, 2), vec![1, 0]);
}

#[test]
fn character_sums_fill_buckets_by_position() {
    assert_eq!(Embedding::character_code_sums("abc", 2), vec![97 + 99, 98]);
    assert_eq!(Embedding::character_code_sums("", 3), vec![0, 0, 0]);
    assert_eq!(Embedding::character_code_sums("abc", 0), Vec::<u128>::new());
}

#[test]
fn text_chunks_merge_sentences_under_budget() {
    let chunks = TextChunker::chunk_text("One. Two! Three? Four", 12);
    assert_eq!(chunks, vocab(&["One Two", "Three Four"]));
    let chunks = TextChunker::chunk_text("A long first sentence. B.", 5);
    assert_eq!(chunks, vocab(&["", "A long first sentence", "B"]));
    assert!(TextChunker::chunk_text("  ...  ", 10).is_empty());
    let via_trait = TextChunker::chunk(("Hi. There.".to_string(), 100)).unwrap();
    assert_eq!(via_trait, vocab(&["Hi There"]));
}

#[test]
fn local_generators_fill_the_collection_dimension() {
    let mut db = viie::db::VectorDB::<i16>::new();
    db.create_collection("c", 6).unwrap();
    let text = "The quick brown fox and the lazy dog is here. 42!";
    for technique in ["bag_of_words", "one_hot", "character_level", "ngram", "hashing_trick", "tf_idf"] {
        let (config, _) = db.embedding_config("c", technique).unwrap();
        assert_eq!(config.dim, 6);
        let vocab = Embedding::default_vocabulary();
        let len = match Embedding::plan(&config).unwrap() {
            EmbeddingPlan::BagOfWords => Embedding::bag_of_words(text, &vocab, config.dim).len(),
            EmbeddingPlan::TfIdf => {
                Embedding::bag_of_words(text, &Embedding::tf_idf_vocabulary(), config.dim).len()
            }
            EmbeddingPlan::OneHotEncoding => Embedding::one_hot_encoding(text, &vocab, config.dim).len(),
            EmbeddingPlan::CharacterLevel => Embedding::character_code_sums(text, config.dim).len(),
            EmbeddingPlan::NGram(n) => Embedding::ngram_counts(text, n, config.dim).len(),
            EmbeddingPlan::HashingTrick => Embedding::hashing_trick_counts(text, config.dim).len(),
            other => panic!("unexpected {:?}", other),
        };
        assert_eq!(len, 6);
        let stored: Vec<i16> = vec![1; len];
        assert!(db
            .insert_embedding("c", technique.to_string(), Ok(viie::vector::Vector::new(&stored)))
            .is_ok());
    }
}
