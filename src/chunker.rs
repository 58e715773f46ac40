use vstd::prelude::*;
use vstd::string::StringExecFns;
use crate::text::{
    white_space,
    is_white_space,
    byte_len,
    nonempty_only,
    keep_nonempty,
    chars_of,
    push_char,
};

verus! {

broadcast use vstd::string::group_string_axioms;

/// Why content could not be cut into chunks.
#[derive(Clone, Debug, PartialEq, Eq)]
pub enum ChunkError {
    /// The input could not be decoded.
    Decode(String),
}

/// Cuts one kind of content into an ordered sequence of smaller units.
pub trait Chunkable {
    type Input;
    type Output;

    fn chunk(input: Self::Input) -> Result<Vec<Self::Output>, ChunkError>;
}

/// A sentence ends at one of these characters.
pub open spec fn terminator(c: char) -> bool {
    c == '.' || c == '!' || c == '?'
}

/// Splits the first `n` characters of `s` at terminators: the finished
/// pieces and the piece still open.
pub open spec fn split_terminated_upto(s: Seq<char>, n: int) -> (Seq<Seq<char>>, Seq<char>)
    decreases n,
{
    if n <= 0 {
        (Seq::empty(), Seq::empty())
    } else {
        let (done, open) = split_terminated_upto(s, n - 1);
        if terminator(s[n - 1]) {
            (done.push(open), Seq::empty())
        } else {
            (done, open.push(s[n - 1]))
        }
    }
}

/// `s` without its leading white space.
pub open spec fn trim_start(s: Seq<char>) -> Seq<char>
    decreases s.len(),
{
    if s.len() > 0 && white_space(s[0]) {
        trim_start(s.drop_first())
    } else {
        s
    }
}

/// `s` without its trailing white space.
pub open spec fn trim_end(s: Seq<char>) -> Seq<char>
    decreases s.len(),
{
    if s.len() > 0 && white_space(s.last()) {
        trim_end(s.drop_last())
    } else {
        s
    }
}

/// `s` without leading and trailing white space.
pub open spec fn trim(s: Seq<char>) -> Seq<char> {
    trim_end(trim_start(s))
}

/// The sentences of `s`: the pieces between terminators, trimmed, empty
/// ones dropped.
pub open spec fn sentences(s: Seq<char>) -> Seq<Seq<char>> {
    let (done, open) = split_terminated_upto(s, s.len() as int);
    nonempty_only(done.push(open).map_values(|p: Seq<char>| trim(p)))
}

/// Greedy merge of the first `n` sentences: the chunks emitted so far and
/// the chunk being filled. A sentence joins the current chunk, after a
/// space, while the two byte lengths sum to less than `max`; otherwise the
/// current chunk is emitted, trimmed, and the sentence starts the next one.
pub open spec fn merge_upto(f: Seq<Seq<char>>, max: int, n: int) -> (Seq<Seq<char>>, Seq<char>)
    decreases n,
{
    if n <= 0 {
        (Seq::empty(), Seq::empty())
    } else {
        let (out, cur) = merge_upto(f, max, n - 1);
        if byte_len(cur) + byte_len(f[n - 1]) < max {
            (out, cur + seq![' '] + f[n - 1])
        } else {
            (out.push(trim(cur)), f[n - 1])
        }
    }
}

/// The chunks of `s` under a byte budget of `max`.
pub open spec fn text_chunks(s: Seq<char>, max: int) -> Seq<Seq<char>> {
    let f = sentences(s);
    let (out, cur) = merge_upto(f, max, f.len() as int);
    if cur.len() > 0 {
        out.push(trim(cur))
    } else {
        out
    }
}

/// `s` without leading and trailing white space.
pub fn trim_text(s: &str) -> (r: String)
    ensures
        r@ == trim(s@),
{
    let chars = chars_of(s);
    let n = chars.len();
    let mut start: usize = 0;
    assert(s@.skip(0) =~= s@);
    while start < n && is_white_space(chars[start])
        invariant
            chars@ == s@,
            n == s@.len(),
            start <= n,
            trim_start(s@) == trim_start(s@.skip(start as int)),
        decreases n - start,
    {
        assert(s@.skip(start as int).drop_first() =~= s@.skip(start as int + 1));
        start = start + 1;
    }
    let ghost head = s@.skip(start as int);
    assert(trim_start(s@) == head);
    let mut end: usize = n;
    assert(head.take(head.len() as int) =~= head);
    while end > start && is_white_space(chars[end - 1])
        invariant
            chars@ == s@,
            n == s@.len(),
            start <= end <= n,
            head == s@.skip(start as int),
            trim_end(head) == trim_end(head.take(end - start)),
        decreases end - start,
    {
        assert(head.take(end - start).drop_last() =~= head.take(end - start - 1));
        end = end - 1;
    }
    let mut out = String::new();
    let mut i: usize = start;
    while i < end
        invariant
            chars@ == s@,
            start <= i <= end <= n,
            n == s@.len(),
            out@ == s@.subrange(start as int, i as int),
        decreases end - i,
    {
        push_char(&mut out, chars[i]);
        i = i + 1;
        assert(out@ =~= s@.subrange(start as int, i as int));
    }
    assert(head.take(end - start) =~= s@.subrange(start as int, end as int));
    out
}

/// The sentences of `text`, in order.
pub fn sentences_of(text: &str) -> (r: Vec<String>)
    ensures
        r@.map_values(|p: String| p@) == sentences(text@),
{
    let chars = chars_of(text);
    let mut done: Vec<String> = Vec::new();
    let mut open = String::new();
    let mut i: usize = 0;
    while i < chars.len()
        invariant
            chars@ == text@,
            i <= chars@.len(),
            (done@.map_values(|w: String| w@), open@) == split_terminated_upto(text@, i as int),
        decreases chars@.len() - i,
    {
        let c = chars[i];
        if c == '.' || c == '!' || c == '?' {
            let ghost d0 = done@;
            let finished = open;
            done.push(finished);
            open = String::new();
            assert(done@.map_values(|w: String| w@) =~= d0.map_values(|w: String| w@).push(
                finished@,
            ));
        } else {
            push_char(&mut open, c);
        }
        i = i + 1;
    }
    let ghost d0 = done@;
    let last = open;
    done.push(last);
    assert(done@.map_values(|w: String| w@) =~= d0.map_values(|w: String| w@).push(last@));
    let ghost pv = done@.map_values(|w: String| w@);
    let mut trimmed: Vec<String> = Vec::new();
    let mut j: usize = 0;
    while j < done.len()
        invariant
            pv == done@.map_values(|w: String| w@),
            j <= done@.len(),
            trimmed@.len() == j,
            forall|k: int| 0 <= k < j ==> (#[trigger] trimmed@[k])@ == trim(pv[k]),
        decreases done@.len() - j,
    {
        trimmed.push(trim_text(done[j].as_str()));
        j = j + 1;
    }
    assert(trimmed@.map_values(|w: String| w@) =~= pv.map_values(|p: Seq<char>| trim(p)));
    keep_nonempty(trimmed)
}

/// Cuts text into chunks of whole sentences.
pub struct TextChunker;

impl TextChunker {
    /// Splits `text` into sentences and merges them greedily into chunks
    /// whose byte length stays under `max_length`.
    pub fn chunk_text(text: &str, max_length: i32) -> (r: Vec<String>)
        ensures
            r@.map_values(|p: String| p@) == text_chunks(text@, max_length as int),
    {
        let f = sentences_of(text);
        let ghost fv = f@.map_values(|p: String| p@);
        let mut out: Vec<String> = Vec::new();
        let mut current = String::new();
        let mut i: usize = 0;
        while i < f.len()
            invariant
                fv == f@.map_values(|p: String| p@),
                fv == sentences(text@),
                i <= f@.len(),
                (out@.map_values(|p: String| p@), current@) == merge_upto(fv, max_length as int, i as int),
            decreases f@.len() - i,
        {
            let piece = &f[i];
            assert(piece@ == fv[i as int]);
            let ghost c0 = current@;
            let ghost o0 = out@;
            let cl = current.as_str().len();
            let pl = piece.as_str().len();
            assert(cl == byte_len(c0));
            assert(pl == byte_len(fv[i as int]));
            if (cl as i128) + (pl as i128) < max_length as i128 {
                proof {
                    reveal_strlit(" ");
                }
                assert(" "@ =~= seq![' ']);
                current.append(" ");
                current.append(piece.as_str());
                assert(current@ =~= c0 + seq![' '] + fv[i as int]);
            } else {
                let ghost o0 = out@;
                let done = trim_text(current.as_str());
                out.push(done);
                assert(out@.map_values(|p: String| p@) =~= o0.map_values(|p: String| p@).push(done@));
                current = piece.clone();
            }
            i = i + 1;
        }
        if current.as_str().unicode_len() > 0 {
            let ghost o0 = out@;
            let done = trim_text(current.as_str());
            out.push(done);
            assert(out@.map_values(|p: String| p@) =~= o0.map_values(|p: String| p@).push(done@));
        }
        out
    }
}

impl Chunkable for TextChunker {
    type Input = (String, i32);
    type Output = String;

    /// Chunks `input.0` under the byte budget `input.1`; never fails.
    fn chunk(input: (String, i32)) -> (r: Result<Vec<String>, ChunkError>)
        ensures
            r is Ok && r->Ok_0@.map_values(|p: String| p@) == text_chunks(input.0@, input.1 as int),
    {
        Ok(Self::chunk_text(input.0.as_str(), input.1))
    }
}

} // verus!
