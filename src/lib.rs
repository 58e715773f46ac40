//! An in-memory store of fixed-dimension vectors, grouped in named
//! collections, ranked by exact cosine similarity.

pub mod numeric;
pub mod vector;
pub mod error;
pub mod ranking;
pub mod index;
pub mod embedding;
pub mod db;
pub mod laws;
pub mod text;
pub mod features;
pub mod chunker;
pub mod audio;
pub mod image;
pub mod video;
