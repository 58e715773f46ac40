use base64::Engine;
use std::hash::BuildHasher;
use viie::audio::{chunk_samples, keep_read_samples, AudioChunker, AudioInput, SAMPLES_PER_CHUNK};
use viie::chunker::{ChunkError, Chunkable};
use viie::embedding::{Embedding, EmbeddingError};
use viie::features::WordStats;
use viie::image::{patch_origins, ImageChunker, ImageInput};
use viie::video::VideoChunker;

#[test]
fn audio_samples_are_cut_into_seconds() {
    assert_eq!(SAMPLES_PER_CHUNK, 44100);
    let samples: Vec<i16> = (0..100_000).map(|i| (i % 1000) as i16).collect();
    let chunks = chunk_samples(&samples);
    assert_eq!(chunks.len(), 3);
    assert_eq!(chunks[0].len(), 44100);
    assert_eq!(chunks[1].len(), 44100);
    assert_eq!(chunks[2].len(), 100_000 - 88200);
    assert_eq!(chunks[1][0], samples[44100]);
    assert!(chunk_samples(&Vec::new()).is_empty());
    let via_trait = AudioChunker::chunk(AudioInput::Samples(vec![1, 2, 3])).unwrap();
    assert_eq!(via_trait, vec![vec![1, 2, 3]]);
}

#[test]
fn failed_sample_reads_are_dropped() {
    assert_eq!(keep_read_samples(&vec![Some(1), None, Some(-3)]), vec![1, -3]);
}

#[test]
fn malformed_base64_audio_fails() {
    let r = AudioChunker::chunk_audio(AudioInput::Base64("not base64!!".to_string()));
    assert!(matches!(r, Err(ChunkError::Decode(_))));
    // Valid base64 of bytes that are no WAV file.
    let r = AudioChunker::chunk_audio(AudioInput::Base64("aGVsbG8=".to_string()));
    assert!(matches!(r, Err(ChunkError::Decode(_))));
}

#[test]
fn wav_audio_is_decoded_then_chunked() {
    // A mono 16-bit WAV of three samples: 1, -2, 3.
    let mut wav: Vec<u8> = Vec::new();
    wav.extend_from_slice(b"RIFF");
    wav.extend_from_slice(&(36u32 + 6).to_le_bytes());
    wav.extend_from_slice(b"WAVEfmt ");
    wav.extend_from_slice(&16u32.to_le_bytes());
    wav.extend_from_slice(&1u16.to_le_bytes());
    wav.extend_from_slice(&1u16.to_le_bytes());
    wav.extend_from_slice(&44100u32.to_le_bytes());
    wav.extend_from_slice(&88200u32.to_le_bytes());
    wav.extend_from_slice(&2u16.to_le_bytes());
    wav.extend_from_slice(&16u16.to_le_bytes());
    wav.extend_from_slice(b"data");
    wav.extend_from_slice(&6u32.to_le_bytes());
    for s in [1i16, -2, 3] {
        wav.extend_from_slice(&s.to_le_bytes());
    }
    let b64 = base64::engine::general_purpose::STANDARD.encode(&wav);
    let chunks = AudioChunker::chunk_audio(AudioInput::Base64(b64)).unwrap();
    assert_eq!(chunks, vec![vec![1, -2, 3]]);
}

#[test]
fn image_patches_go_row_by_row() {
    assert_eq!(
        patch_origins(300, 230),
        vec![(0, 0), (224, 0), (0, 224), (224, 224)]
    );
    assert_eq!(patch_origins(224, 224), vec![(0, 0)]);
    assert!(patch_origins(0, 10).is_empty());
}

#[test]
fn image_is_tiled_with_edge_patches() {
    let img = image::DynamicImage::new_rgb8(300, 100);
    let patches = ImageChunker::chunk(ImageInput::Dynamic(img)).unwrap();
    assert_eq!(patches.len(), 2);
    assert_eq!((patches[0].width(), patches[0].height()), (224, 100));
    assert_eq!((patches[1].width(), patches[1].height()), (76, 100));
    assert!(ImageChunker::chunk_image(ImageInput::Base64("aGVsbG8=".to_string())).is_err());
}

#[test]
fn image_patches_follow_rows_then_columns() {
    let mut img = image::RgbImage::new(300, 250);
    img.put_pixel(230, 0, image::Rgb([9, 0, 0]));
    img.put_pixel(0, 230, image::Rgb([0, 7, 0]));
    let patches = ImageChunker::chunk(ImageInput::Dynamic(image::DynamicImage::ImageRgb8(img))).unwrap();
    assert_eq!(patches.len(), 4);
    let sizes: Vec<(u32, u32)> = patches.iter().map(|p| (p.width(), p.height())).collect();
    assert_eq!(sizes, vec![(224, 224), (76, 224), (224, 26), (76, 26)]);
    assert_eq!(patches[1].to_rgb8().get_pixel(6, 0).0, [9, 0, 0]);
    assert_eq!(patches[2].to_rgb8().get_pixel(0, 6).0, [0, 7, 0]);
}

#[test]
fn png_data_is_decoded_then_tiled() {
    let img = image::DynamicImage::new_rgb8(230, 10);
    let mut png: Vec<u8> = Vec::new();
    img.write_to(&mut std::io::Cursor::new(&mut png), image::ImageFormat::Png).unwrap();
    let b64 = base64::engine::general_purpose::STANDARD.encode(&png);
    let patches = ImageChunker::chunk_image(ImageInput::Base64(b64)).unwrap();
    assert_eq!(patches.len(), 2);
    assert_eq!((patches[1].width(), patches[1].height()), (6, 10));
}

#[test]
fn video_keeps_one_frame_per_second() {
    assert_eq!(VideoChunker::keeps_frame(0, 25), Ok(true));
    assert_eq!(VideoChunker::keeps_frame(1, 25), Ok(false));
    assert_eq!(VideoChunker::keeps_frame(50, 25), Ok(true));
    assert!(matches!(VideoChunker::keeps_frame(7, 0), Err(ChunkError::Decode(_))));
}

#[test]
fn ngram_counts_total_the_ngrams() {
    let c = Embedding::ngram_counts("abcd", 3, 4);
    assert_eq!(c.len(), 4);
    assert_eq!(c.iter().sum::<u128>(), 2);
    let same = Embedding::ngram_counts("abab", 2, 1);
    assert_eq!(same, vec![3]);
    assert_eq!(Embedding::ngram_counts("ab", 3, 5), vec![0; 5]);
    assert!(Embedding::ngram_counts("abc", 1, 0).is_empty());
}

#[test]
fn ngram_buckets_follow_the_default_hasher() {
    let h = std::hash::BuildHasherDefault::<std::collections::hash_map::DefaultHasher>::default();
    let dim = 7usize;
    let c = Embedding::ngram_counts("xyz", 3, dim);
    let b = (h.hash_one("xyz") % dim as u64) as usize;
    let mut expected = vec![0u128; dim];
    expected[b] = 1;
    assert_eq!(c, expected);
}

#[test]
fn hashing_trick_counts_signed_words() {
    let c = Embedding::hashing_trick_counts("Word word WORD", 1);
    assert!(c == vec![3] || c == vec![-3]);
    let c = Embedding::hashing_trick_counts("a b c d e", 16);
    assert_eq!(c.len(), 16);
    assert_eq!(c.iter().map(|x| x.abs()).sum::<i128>() <= 5, true);
    assert_eq!(Embedding::hashing_trick_counts("", 3), vec![0, 0, 0]);
}

#[test]
fn word_stats_count_classes() {
    let s = Embedding::word_count_stats("Hello, World 42 hello");
    assert_eq!(
        s,
        WordStats {
            word_count: 4,
            unique_words: 4,
            word_bytes: 18,
            alphabetic: 15,
            uppercase: 2,
            digits: 2,
            punctuation: 1,
            text_bytes: 21,
        }
    );
    let s = Embedding::word_count_stats("a a a");
    assert_eq!((s.word_count, s.unique_words), (3, 1));
    assert_eq!(Embedding::word_count_stats("").word_count, 0);
}

#[test]
fn document_frequency_counts_documents() {
    let corpus = Embedding::tf_idf_corpus();
    assert_eq!(Embedding::document_frequency(&corpus, "example"), 2);
    assert_eq!(Embedding::document_frequency(&corpus, "one"), 1);
    assert_eq!(Embedding::document_frequency(&corpus, "three"), 0);
    let upper = vec!["The Cat".to_string(), "cat".to_string()];
    assert_eq!(Embedding::document_frequency(&upper, "cat"), 2);
    assert_eq!(Embedding::tf_idf_vocabulary().len(), 4);
    assert_eq!(Embedding::default_vocabulary(), vec!["the", "and", "is"]);
}

#[test]
fn api_answers_are_checked() {
    assert_eq!(Embedding::check_api_text("  \t "), Err(EmbeddingError::EmptyText));
    assert_eq!(Embedding::check_api_text(""), Err(EmbeddingError::EmptyText));
    assert_eq!(Embedding::check_api_text(" hi "), Ok(()));
    assert_eq!(Embedding::check_api_status(200), Ok(()));
    assert_eq!(Embedding::check_api_status(299), Ok(()));
    assert_eq!(Embedding::check_api_status(404), Err(EmbeddingError::Status(404)));
    assert_eq!(Embedding::check_api_status(199), Err(EmbeddingError::Status(199)));
    assert_eq!(Embedding::check_api_dimension(3, 3), Ok(()));
    assert_eq!(
        Embedding::check_api_dimension(2, 3),
        Err(EmbeddingError::WrongDimension { expected: 3, got: 2 })
    );
}
