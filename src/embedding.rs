use vstd::prelude::*;
use crate::ranking::str_eq;
use crate::chunker::{trim, trim_text};

verus! {

/// The ways content can be turned into a vector.
#[derive(Clone, Copy, Debug, PartialEq, Eq, Structural)]
pub enum EmbeddingMethod {
    Random,
    AsciiSum,
    BagOfWords,
    TfIdf,
    OneHotEncoding,
    CharacterLevel,
    CosineSimilarity,
    WordCount,
    NGram,
    PosTagging,
    HashingTrick,
    Word2Vec,
    GloVe,
    FastText,
    BertEmbedding,
    UniversalSentenceEncoder,
    Doc2Vec,
    Lsa,
    Lda,
    PcaReduced,
    ExternalApi,
}

/// Why an embedding could not be produced.
#[derive(Clone, Debug, PartialEq, Eq)]
pub enum EmbeddingError {
    /// The method needs an integration that is not available; the text
    /// names what is missing.
    NotSupported(String),
    /// The external API method was chosen without an API key or endpoint.
    MissingCredentials,
    /// The text to embed is empty or white space only.
    EmptyText,
    /// The request to the external API could not be completed.
    Transport(String),
    /// The external API answered with a non-success status.
    Status(u16),
    /// The external API answered with an embedding of the wrong dimension.
    WrongDimension { expected: usize, got: usize },
}

/// How embeddings are produced: the method, the target dimension and the
/// method's optional parameters.
#[derive(Clone, Debug)]
pub struct EmbeddingConfig {
    pub method: EmbeddingMethod,
    pub dim: usize,
    pub api_key: Option<String>,
    pub api_endpoint: Option<String>,
    pub model_path: Option<String>,
    pub vocab_path: Option<String>,
    pub ngram_size: Option<usize>,
    pub min_count: Option<usize>,
    pub window_size: Option<usize>,
}

/// The configuration a store starts with.
pub open spec fn default_config_spec(c: EmbeddingConfig) -> bool {
    &&& c.method == EmbeddingMethod::BagOfWords
    &&& c.dim == 100
    &&& c.api_key is None
    &&& c.api_endpoint is None
    &&& c.model_path is None
    &&& c.vocab_path is None
    &&& c.ngram_size == Some(3usize)
    &&& c.min_count == Some(5usize)
    &&& c.window_size == Some(5usize)
}

impl Default for EmbeddingConfig {
    fn default() -> (r: Self)
        ensures
            default_config_spec(r),
    {
        EmbeddingConfig {
            method: EmbeddingMethod::BagOfWords,
            dim: 100,
            api_key: None,
            api_endpoint: None,
            model_path: None,
            vocab_path: None,
            ngram_size: Some(3),
            min_count: Some(5),
            window_size: Some(5),
        }
    }
}

/// The method named by a technique name, if the name is known.
pub open spec fn technique_method(t: Seq<char>) -> Option<EmbeddingMethod> {
    if t == "random"@ {
        Some(EmbeddingMethod::Random)
    } else if t == "ascii_sum"@ {
        Some(EmbeddingMethod::AsciiSum)
    } else if t == "bag_of_words"@ {
        Some(EmbeddingMethod::BagOfWords)
    } else if t == "tf_idf"@ {
        Some(EmbeddingMethod::TfIdf)
    } else if t == "one_hot"@ {
        Some(EmbeddingMethod::OneHotEncoding)
    } else if t == "character_level"@ {
        Some(EmbeddingMethod::CharacterLevel)
    } else if t == "ngram"@ {
        Some(EmbeddingMethod::NGram)
    } else if t == "hashing_trick"@ {
        Some(EmbeddingMethod::HashingTrick)
    } else if t == "word_count"@ {
        Some(EmbeddingMethod::WordCount)
    } else if t == "word2vec"@ {
        Some(EmbeddingMethod::Word2Vec)
    } else if t == "bert"@ {
        Some(EmbeddingMethod::BertEmbedding)
    } else if t == "external_api"@ {
        Some(EmbeddingMethod::ExternalApi)
    } else {
        None
    }
}

/// Methods that have no generator here and fail with `NotSupported`.
pub open spec fn unsupported(m: EmbeddingMethod) -> bool {
    match m {
        EmbeddingMethod::Word2Vec | EmbeddingMethod::GloVe | EmbeddingMethod::FastText
        | EmbeddingMethod::BertEmbedding | EmbeddingMethod::UniversalSentenceEncoder
        | EmbeddingMethod::Doc2Vec | EmbeddingMethod::Lsa | EmbeddingMethod::Lda
        | EmbeddingMethod::PcaReduced | EmbeddingMethod::PosTagging
        | EmbeddingMethod::CosineSimilarity => true,
        _ => false,
    }
}

/// What to run to embed content under a configuration.
#[derive(Clone, Debug, PartialEq, Eq)]
pub enum EmbeddingPlan {
    Random,
    AsciiSum,
    BagOfWords,
    TfIdf,
    OneHotEncoding,
    CharacterLevel,
    /// Character n-grams of the given length.
    NGram(usize),
    HashingTrick,
    WordCount,
    /// A call to the external API with this key and endpoint.
    ExternalApi { api_key: String, endpoint: String },
}

/// The text naming what an unsupported method needs and lacks.
pub open spec fn missing_integration_text(m: EmbeddingMethod) -> Seq<char> {
    match m {
        EmbeddingMethod::Word2Vec => "Word2Vec requires the tch-rs crate with pre-trained models."@,
        EmbeddingMethod::GloVe => "GloVe requires pre-trained embeddings loaded from file."@,
        EmbeddingMethod::FastText => "FastText requires binding to the FastText library."@,
        EmbeddingMethod::BertEmbedding => "BERT embeddings require rust-bert crate."@,
        EmbeddingMethod::UniversalSentenceEncoder => "Universal Sentence Encoder requires TensorFlow bindings."@,
        EmbeddingMethod::Doc2Vec => "Doc2Vec requires specific ML implementation."@,
        EmbeddingMethod::Lsa => "LSA requires linear algebra operations from ndarray."@,
        EmbeddingMethod::Lda => "LDA requires specific topic modeling implementation."@,
        EmbeddingMethod::PcaReduced => "PCA reduction requires linear algebra from ndarray."@,
        EmbeddingMethod::PosTagging => "POS tagging requires a specific NLP library."@,
        _ => "Cosine similarity is a comparison method, not an embedding generator."@,
    }
}

/// Text naming what the method needs and lacks.
fn missing_integration(m: EmbeddingMethod) -> (r: String)
    requires
        unsupported(m),
    ensures
        r@ == missing_integration_text(m),
{
    let text = match m {
        EmbeddingMethod::Word2Vec => "Word2Vec requires the tch-rs crate with pre-trained models.",
        EmbeddingMethod::GloVe => "GloVe requires pre-trained embeddings loaded from file.",
        EmbeddingMethod::FastText => "FastText requires binding to the FastText library.",
        EmbeddingMethod::BertEmbedding => "BERT embeddings require rust-bert crate.",
        EmbeddingMethod::UniversalSentenceEncoder => "Universal Sentence Encoder requires TensorFlow bindings.",
        EmbeddingMethod::Doc2Vec => "Doc2Vec requires specific ML implementation.",
        EmbeddingMethod::Lsa => "LSA requires linear algebra operations from ndarray.",
        EmbeddingMethod::Lda => "LDA requires specific topic modeling implementation.",
        EmbeddingMethod::PcaReduced => "PCA reduction requires linear algebra from ndarray.",
        EmbeddingMethod::PosTagging => "POS tagging requires a specific NLP library.",
        _ => "Cosine similarity is a comparison method, not an embedding generator.",
    };
    text.to_owned()
}

/// Content-independent part of the embedding engine.
pub struct Embedding;

impl Embedding {
    /// The method a technique name selects, and whether the name was unknown
    /// and the method fell back to `AsciiSum`.
    pub fn method_for_technique(technique: &str) -> (r: (EmbeddingMethod, bool))
        ensures
            technique_method(technique@) is Some ==> r == (technique_method(technique@)->0, false),
            technique_method(technique@) is None ==> r == (EmbeddingMethod::AsciiSum, true),
    {
        if str_eq(technique, "random") {
            (EmbeddingMethod::Random, false)
        } else if str_eq(technique, "ascii_sum") {
            (EmbeddingMethod::AsciiSum, false)
        } else if str_eq(technique, "bag_of_words") {
            (EmbeddingMethod::BagOfWords, false)
        } else if str_eq(technique, "tf_idf") {
            (EmbeddingMethod::TfIdf, false)
        } else if str_eq(technique, "one_hot") {
            (EmbeddingMethod::OneHotEncoding, false)
        } else if str_eq(technique, "character_level") {
            (EmbeddingMethod::CharacterLevel, false)
        } else if str_eq(technique, "ngram") {
            (EmbeddingMethod::NGram, false)
        } else if str_eq(technique, "hashing_trick") {
            (EmbeddingMethod::HashingTrick, false)
        } else if str_eq(technique, "word_count") {
            (EmbeddingMethod::WordCount, false)
        } else if str_eq(technique, "word2vec") {
            (EmbeddingMethod::Word2Vec, false)
        } else if str_eq(technique, "bert") {
            (EmbeddingMethod::BertEmbedding, false)
        } else if str_eq(technique, "external_api") {
            (EmbeddingMethod::ExternalApi, false)
        } else {
            (EmbeddingMethod::AsciiSum, true)
        }
    }

    /// What to run for `config`: its local generator, or the external API
    /// when both its key and endpoint are set; fails for the methods with no
    /// generator and for the external API without credentials.
    pub fn plan(config: &EmbeddingConfig) -> (r: Result<EmbeddingPlan, EmbeddingError>)
        ensures
            unsupported(config.method) <==> (r is Err && r->Err_0 is NotSupported),
            unsupported(config.method) ==> (r matches Err(EmbeddingError::NotSupported(t)) && t@
                == missing_integration_text(config.method)),
            config.method == EmbeddingMethod::Random ==> r == Ok::<_, EmbeddingError>(EmbeddingPlan::Random),
            config.method == EmbeddingMethod::AsciiSum ==> r == Ok::<_, EmbeddingError>(EmbeddingPlan::AsciiSum),
            config.method == EmbeddingMethod::BagOfWords ==> r == Ok::<_, EmbeddingError>(EmbeddingPlan::BagOfWords),
            config.method == EmbeddingMethod::TfIdf ==> r == Ok::<_, EmbeddingError>(EmbeddingPlan::TfIdf),
            config.method == EmbeddingMethod::OneHotEncoding ==> r == Ok::<_, EmbeddingError>(EmbeddingPlan::OneHotEncoding),
            config.method == EmbeddingMethod::CharacterLevel ==> r == Ok::<_, EmbeddingError>(EmbeddingPlan::CharacterLevel),
            config.method == EmbeddingMethod::NGram ==> r == Ok::<_, EmbeddingError>(
                EmbeddingPlan::NGram(
                    match config.ngram_size {
                        Some(n) => n,
                        None => 3,
                    },
                ),
            ),
            config.method == EmbeddingMethod::HashingTrick ==> r == Ok::<_, EmbeddingError>(EmbeddingPlan::HashingTrick),
            config.method == EmbeddingMethod::WordCount ==> r == Ok::<_, EmbeddingError>(EmbeddingPlan::WordCount),
            config.method == EmbeddingMethod::ExternalApi ==> match (config.api_key, config.api_endpoint) {
                (Some(k), Some(e)) => r matches Ok(EmbeddingPlan::ExternalApi { api_key, endpoint })
                    && api_key@ == k@ && endpoint@ == e@,
                _ => r == Err::<EmbeddingPlan, _>(EmbeddingError::MissingCredentials),
            },
    {
        match config.method {
            EmbeddingMethod::Random => Ok(EmbeddingPlan::Random),
            EmbeddingMethod::AsciiSum => Ok(EmbeddingPlan::AsciiSum),
            EmbeddingMethod::BagOfWords => Ok(EmbeddingPlan::BagOfWords),
            EmbeddingMethod::TfIdf => Ok(EmbeddingPlan::TfIdf),
            EmbeddingMethod::OneHotEncoding => Ok(EmbeddingPlan::OneHotEncoding),
            EmbeddingMethod::CharacterLevel => Ok(EmbeddingPlan::CharacterLevel),
            EmbeddingMethod::NGram => {
                let n = match config.ngram_size {
                    Some(n) => n,
                    None => 3,
                };
                Ok(EmbeddingPlan::NGram(n))
            },
            EmbeddingMethod::HashingTrick => Ok(EmbeddingPlan::HashingTrick),
            EmbeddingMethod::WordCount => Ok(EmbeddingPlan::WordCount),
            EmbeddingMethod::ExternalApi => match (&config.api_key, &config.api_endpoint) {
                (Some(k), Some(e)) => Ok(EmbeddingPlan::ExternalApi { api_key: k.clone(), endpoint: e.clone() }),
                _ => Err(EmbeddingError::MissingCredentials),
            },
            m => Err(EmbeddingError::NotSupported(missing_integration(m))),
        }
    }
}

/// The texts of `v`.
pub open spec fn texts(v: Seq<String>) -> Seq<Seq<char>> {
    v.map_values(|t: String| t@)
}

impl Embedding {
    /// The built-in vocabulary of the bag-of-words and one-hot methods.
    pub fn default_vocabulary() -> (r: Vec<String>)
        ensures
            texts(r@) == seq!["the"@, "and"@, "is"@],
    {
        let r = vec!["the".to_owned(), "and".to_owned(), "is".to_owned()];
        assert(texts(r@) =~= seq!["the"@, "and"@, "is"@]);
        r
    }

    /// The built-in reference corpus of the TF-IDF method.
    pub fn tf_idf_corpus() -> (r: Vec<String>)
        ensures
            texts(r@) == seq!["example document one"@, "example document two"@],
    {
        let r = vec!["example document one".to_owned(), "example document two".to_owned()];
        assert(texts(r@) =~= seq!["example document one"@, "example document two"@]);
        r
    }

    /// The built-in vocabulary of the TF-IDF method.
    pub fn tf_idf_vocabulary() -> (r: Vec<String>)
        ensures
            texts(r@) == seq!["example"@, "document"@, "one"@, "two"@],
    {
        let r = vec!["example".to_owned(), "document".to_owned(), "one".to_owned(), "two".to_owned()];
        assert(texts(r@) =~= seq!["example"@, "document"@, "one"@, "two"@]);
        r
    }

    /// Accepts a text for the external API unless it is empty or white
    /// space only.
    pub fn check_api_text(text: &str) -> (r: Result<(), EmbeddingError>)
        ensures
            trim(text@).len() == 0 ==> r == Err::<(), _>(EmbeddingError::EmptyText),
            trim(text@).len() > 0 ==> r is Ok,
    {
        let t = trim_text(text);
        if t.as_str().unicode_len() == 0 {
            Err(EmbeddingError::EmptyText)
        } else {
            Ok(())
        }
    }

    /// Accepts a success (2xx) status of the external API.
    pub fn check_api_status(status: u16) -> (r: Result<(), EmbeddingError>)
        ensures
            200 <= status < 300 ==> r is Ok,
            !(200 <= status < 300) ==> r == Err::<(), _>(EmbeddingError::Status(status)),
    {
        if 200 <= status && status < 300 {
            Ok(())
        } else {
            Err(EmbeddingError::Status(status))
        }
    }

    /// Accepts an embedding from the external API of exactly `dim` values.
    pub fn check_api_dimension(got: usize, dim: usize) -> (r: Result<(), EmbeddingError>)
        ensures
            got == dim ==> r is Ok,
            got != dim ==> r == Err::<(), _>(EmbeddingError::WrongDimension { expected: dim, got }),
    {
        if got == dim {
            Ok(())
        } else {
            Err(EmbeddingError::WrongDimension { expected: dim, got })
        }
    }
}

} // verus!
