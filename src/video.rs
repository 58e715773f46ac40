use vstd::prelude::*;
use crate::chunker::ChunkError;

verus! {

/// A video given as a file path or as base64-encoded file contents.
pub enum VideoInput {
    FilePath(String),
    Base64(String),
}

/// Keeps one decoded frame per second of video.
pub struct VideoChunker;

impl VideoChunker {
    /// Whether the frame at `index` is kept from a video of `fps` frames per
    /// second: every `fps`-th frame, starting with the first; fails when the
    /// video reports no frame rate.
    pub fn keeps_frame(index: usize, fps: usize) -> (r: Result<bool, ChunkError>)
        ensures
            fps == 0 ==> r is Err,
            fps > 0 ==> r == Ok::<bool, ChunkError>(index % fps == 0),
    {
        if fps == 0 {
            return Err(ChunkError::Decode("video reports no frame rate".to_owned()));
        }
        Ok(index % fps == 0)
    }
}

} // verus!
