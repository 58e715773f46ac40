use vstd::prelude::*;
use vstd::utf8::encode_utf8;

verus! {

broadcast use vstd::string::group_string_axioms;

/// Unicode's `White_Space` property.
pub open spec fn white_space(c: char) -> bool {
    let u = c as u32;
    (0x09 <= u <= 0x0d) || u == 0x20 || u == 0x85 || u == 0xa0 || u == 0x1680 || (0x2000 <= u
        <= 0x200a) || u == 0x2028 || u == 0x2029 || u == 0x202f || u == 0x205f || u == 0x3000
}

/// Whether `c` has Unicode's `White_Space` property.
pub fn is_white_space(c: char) -> (r: bool)
    ensures
        r == white_space(c),
{
    let u = c as u32;
    (0x09 <= u && u <= 0x0d) || u == 0x20 || u == 0x85 || u == 0xa0 || u == 0x1680 || (0x2000 <= u
        && u <= 0x200a) || u == 0x2028 || u == 0x2029 || u == 0x202f || u == 0x205f || u == 0x3000
}

/// Length in bytes of the UTF-8 encoding of `s`, as a machine word.
pub open spec fn byte_len(s: Seq<char>) -> int {
    encode_utf8(s).len() as usize as int
}

/// Splits the first `n` characters of `s` at white space: the finished
/// pieces and the piece still open.
pub open spec fn split_white_upto(s: Seq<char>, n: int) -> (Seq<Seq<char>>, Seq<char>)
    decreases n,
{
    if n <= 0 {
        (Seq::empty(), Seq::empty())
    } else {
        let (done, open) = split_white_upto(s, n - 1);
        if white_space(s[n - 1]) {
            (done.push(open), Seq::empty())
        } else {
            (done, open.push(s[n - 1]))
        }
    }
}

/// The non-empty members of `s`, in order.
pub open spec fn nonempty_only(s: Seq<Seq<char>>) -> Seq<Seq<char>>
    decreases s.len(),
{
    if s.len() == 0 {
        Seq::empty()
    } else {
        let r = nonempty_only(s.drop_last());
        if s.last().len() > 0 {
            r.push(s.last())
        } else {
            r
        }
    }
}

/// The maximal runs of non-white-space characters of `s`, in order.
pub open spec fn words(s: Seq<char>) -> Seq<Seq<char>> {
    let (done, open) = split_white_upto(s, s.len() as int);
    nonempty_only(done.push(open))
}

/// Relies on `String::push`: appends one character.
#[verifier::external_body]
pub(crate) fn push_char(s: &mut String, c: char)
    ensures
        final(s)@ == old(s)@.push(c),
{
    s.push(c);
}

/// Keeps the non-empty pieces of `pieces` in order.
pub(crate) fn keep_nonempty(pieces: Vec<String>) -> (r: Vec<String>)
    ensures
        r@.map_values(|p: String| p@) == nonempty_only(pieces@.map_values(|p: String| p@)),
{
    let ghost pv = pieces@.map_values(|p: String| p@);
    let mut out: Vec<String> = Vec::new();
    let mut i: usize = 0;
    let n = pieces.len();
    while i < n
        invariant
            n == pieces@.len(),
            pv == pieces@.map_values(|p: String| p@),
            i <= n,
            out@.map_values(|p: String| p@) == nonempty_only(pv.subrange(0, i as int)),
        decreases n - i,
    {
        let piece = &pieces[i];
        let ghost o0 = out@;
        proof {
            assert(pv.subrange(0, i as int + 1).drop_last() =~= pv.subrange(0, i as int));
        }
        if piece.as_str().unicode_len() > 0 {
            out.push(piece.clone());
            assert(out@.map_values(|p: String| p@) =~= o0.map_values(|p: String| p@).push(piece@));
        }
        i = i + 1;
    }
    assert(pv.subrange(0, n as int) =~= pv);
    out
}

/// The words of `text`: its maximal runs of non-white-space characters.
pub fn words_of(text: &str) -> (r: Vec<String>)
    ensures
        r@.map_values(|w: String| w@) == words(text@),
{
    let chars = chars_of(text);
    let mut done: Vec<String> = Vec::new();
    let mut open = String::new();
    let mut i: usize = 0;
    while i < chars.len()
        invariant
            chars@ == text@,
            i <= chars@.len(),
            (done@.map_values(|w: String| w@), open@) == split_white_upto(text@, i as int),
        decreases chars@.len() - i,
    {
        let c = chars[i];
        if is_white_space(c) {
            let ghost d0 = done@;
            let finished = open;
            done.push(finished);
            open = String::new();
            assert(done@.map_values(|w: String| w@) =~= d0.map_values(|w: String| w@).push(
                finished@,
            ));
        } else {
            push_char(&mut open, c);
        }
        i = i + 1;
    }
    let ghost d0 = done@;
    let last = open;
    done.push(last);
    assert(done@.map_values(|w: String| w@) =~= d0.map_values(|w: String| w@).push(last@));
    keep_nonempty(done)
}

/// The characters of `s`, in order.
pub fn chars_of(s: &str) -> (r: Vec<char>)
    ensures
        r@ == s@,
{
    let mut out: Vec<char> = Vec::new();
    for c in it: s.chars()
        invariant
            it.seq() == s@,
            out@ == it.seq().take(it.index() as int),
    {
        out.push(c);
    }
    out
}

} // verus!
