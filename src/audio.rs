use vstd::prelude::*;
use base64::Engine;
use crate::chunker::{Chunkable, ChunkError};

verus! {

/// Sample rate that audio is assumed to have.
pub const SAMPLE_RATE: usize = 44100;

/// Length of one chunk, in milliseconds.
pub const CHUNK_MILLIS: usize = 1000;

/// Samples in one chunk: one second of audio.
pub const SAMPLES_PER_CHUNK: usize = SAMPLE_RATE * CHUNK_MILLIS / 1000;

/// Audio given as PCM samples or as a base64-encoded WAV file.
pub enum AudioInput {
    Samples(Vec<i16>),
    Base64(String),
}

/// What the standard base64 engine decodes a text into.
pub uninterp spec fn base64_decoded(s: Seq<char>) -> Seq<u8>;

/// Whether the standard base64 engine accepts a text.
pub uninterp spec fn base64_ok(s: Seq<char>) -> bool;

/// Relies on `base64::engine::general_purpose::STANDARD.decode`: whether it
/// succeeds, and the bytes, depend on the text alone.
#[verifier::external_body]
pub(crate) fn decode_base64(s: &str) -> (r: Result<Vec<u8>, ChunkError>)
    ensures
        r is Ok <==> base64_ok(s@),
        r is Ok ==> r->Ok_0@ == base64_decoded(s@),
{
    match base64::engine::general_purpose::STANDARD.decode(s) {
        Ok(bytes) => Ok(bytes),
        Err(e) => Err(ChunkError::Decode(format!("Base64 decode failed: {}", e))),
    }
}

/// The samples hound reads from a WAV file, one per sample: `None` where
/// hound reports an error for it.
pub uninterp spec fn wav_sample_reads(b: Seq<u8>) -> Seq<Option<i16>>;

/// Whether hound accepts the header of a WAV file.
pub uninterp spec fn wav_ok(b: Seq<u8>) -> bool;

/// Relies on `hound::WavReader::new` and `WavReader::into_samples::<i16>`:
/// whether the header is accepted, and the samples, depend on the bytes alone.
#[verifier::external_body]
fn read_wav(bytes: Vec<u8>) -> (r: Result<Vec<Option<i16>>, ChunkError>)
    ensures
        r is Ok <==> wav_ok(bytes@),
        r is Ok ==> r->Ok_0@ == wav_sample_reads(bytes@),
{
    match hound::WavReader::new(std::io::Cursor::new(bytes)) {
        Ok(reader) => Ok(reader.into_samples::<i16>().map(|s| s.ok()).collect()),
        Err(e) => Err(ChunkError::Decode(format!("{}", e))),
    }
}

/// The samples that were read, in order, without the failed reads.
pub open spec fn read_samples(reads: Seq<Option<i16>>) -> Seq<i16>
    decreases reads.len(),
{
    if reads.len() == 0 {
        Seq::empty()
    } else {
        let r = read_samples(reads.drop_last());
        match reads.last() {
            Some(s) => r.push(s),
            None => r,
        }
    }
}

/// `s` cut into consecutive pieces of `size` samples; the last may be shorter.
pub open spec fn fixed_chunks(s: Seq<i16>, size: nat) -> Seq<Seq<i16>>
    decreases s.len(),
{
    if s.len() == 0 || size == 0 {
        Seq::empty()
    } else if s.len() <= size {
        seq![s]
    } else {
        seq![s.take(size as int)] + fixed_chunks(s.skip(size as int), size)
    }
}

/// Keeps the samples that were read.
pub fn keep_read_samples(reads: &Vec<Option<i16>>) -> (r: Vec<i16>)
    ensures
        r@ == read_samples(reads@),
{
    let mut out: Vec<i16> = Vec::new();
    let mut i: usize = 0;
    while i < reads.len()
        invariant
            i <= reads@.len(),
            out@ == read_samples(reads@.take(i as int)),
        decreases reads@.len() - i,
    {
        assert(reads@.take(i as int + 1).drop_last() =~= reads@.take(i as int));
        if let Some(s) = reads[i] {
            out.push(s);
        }
        i = i + 1;
    }
    assert(reads@.take(reads@.len() as int) =~= reads@);
    out
}

/// Cuts `samples` into one-second chunks; the last may be shorter.
pub fn chunk_samples(samples: &Vec<i16>) -> (r: Vec<Vec<i16>>)
    ensures
        r@.map_values(|c: Vec<i16>| c@) == fixed_chunks(samples@, SAMPLES_PER_CHUNK as nat),
{
    let size = SAMPLES_PER_CHUNK;
    let n = samples.len();
    let ghost whole = fixed_chunks(samples@, size as nat);
    let mut out: Vec<Vec<i16>> = Vec::new();
    let mut start: usize = 0;
    assert(samples@.skip(0) =~= samples@);
    while start < n
        invariant
            size == SAMPLES_PER_CHUNK,
            n == samples@.len(),
            start <= n,
            whole == fixed_chunks(samples@, size as nat),
            whole == out@.map_values(|c: Vec<i16>| c@) + fixed_chunks(
                samples@.skip(start as int),
                size as nat,
            ),
        decreases n - start,
    {
        let end = if n - start <= size {
            n
        } else {
            start + size
        };
        let mut piece: Vec<i16> = Vec::new();
        let mut i: usize = start;
        while i < end
            invariant
                start <= i <= end <= n,
                n == samples@.len(),
                piece@ == samples@.subrange(start as int, i as int),
            decreases end - i,
        {
            piece.push(samples[i]);
            i = i + 1;
            assert(piece@ =~= samples@.subrange(start as int, i as int));
        }
        let ghost rest = samples@.skip(start as int);
        let ghost o0 = out@.map_values(|c: Vec<i16>| c@);
        out.push(piece);
        proof {
            assert(out@.map_values(|c: Vec<i16>| c@) =~= o0.push(piece@));
            if end == n {
                assert(rest =~= piece@);
                assert(samples@.skip(end as int) =~= Seq::<i16>::empty());
                assert(fixed_chunks(rest, size as nat) == seq![rest]);
                assert(fixed_chunks(samples@.skip(end as int), size as nat) =~= Seq::<Seq<i16>>::empty());
            } else {
                assert(rest.take(size as int) =~= piece@);
                assert(rest.skip(size as int) =~= samples@.skip(end as int));
            }
            assert(whole =~= out@.map_values(|c: Vec<i16>| c@) + fixed_chunks(
                samples@.skip(end as int),
                size as nat,
            ));
        }
        start = end;
    }
    assert(fixed_chunks(samples@.skip(n as int), size as nat) =~= Seq::<Seq<i16>>::empty());
    assert(whole =~= out@.map_values(|c: Vec<i16>| c@));
    out
}

/// Cuts audio into one-second chunks.
pub struct AudioChunker;

impl AudioChunker {
    /// The one-second chunks of the samples given, or of the samples read
    /// from the decoded WAV file; fails when decoding fails.
    pub fn chunk_audio(input: AudioInput) -> (r: Result<Vec<Vec<i16>>, ChunkError>)
        ensures
            input matches AudioInput::Samples(s) ==> r is Ok && r->Ok_0@.map_values(
                |c: Vec<i16>| c@,
            ) == fixed_chunks(s@, SAMPLES_PER_CHUNK as nat),
            input matches AudioInput::Base64(b) ==> (r is Ok <==> base64_ok(b@) && wav_ok(
                base64_decoded(b@),
            )),
            input matches AudioInput::Base64(b) ==> (r is Ok ==> r->Ok_0@.map_values(
                |c: Vec<i16>| c@,
            ) == fixed_chunks(
                read_samples(wav_sample_reads(base64_decoded(b@))),
                SAMPLES_PER_CHUNK as nat,
            )),
    {
        match input {
            AudioInput::Samples(s) => Ok(chunk_samples(&s)),
            AudioInput::Base64(b) => {
                let bytes = decode_base64(b.as_str())?;
                let reads = read_wav(bytes)?;
                let samples = keep_read_samples(&reads);
                Ok(chunk_samples(&samples))
            },
        }
    }
}

impl Chunkable for AudioChunker {
    type Input = AudioInput;
    type Output = Vec<i16>;

    fn chunk(input: AudioInput) -> (r: Result<Vec<Vec<i16>>, ChunkError>)
        ensures
            input matches AudioInput::Samples(s) ==> r is Ok && r->Ok_0@.map_values(
                |c: Vec<i16>| c@,
            ) == fixed_chunks(s@, SAMPLES_PER_CHUNK as nat),
            input matches AudioInput::Base64(b) ==> (r is Ok <==> base64_ok(b@) && wav_ok(
                base64_decoded(b@),
            )),
            input matches AudioInput::Base64(b) ==> (r is Ok ==> r->Ok_0@.map_values(
                |c: Vec<i16>| c@,
            ) == fixed_chunks(
                read_samples(wav_sample_reads(base64_decoded(b@))),
                SAMPLES_PER_CHUNK as nat,
            )),
    {
        Self::chunk_audio(input)
    }
}

} // verus!
