use vstd::prelude::*;
use crate::ranking::str_eq;
use crate::text::{words, words_of, chars_of, push_char, white_space, is_white_space, byte_len};

verus! {

/// What `str::to_lowercase` makes of a text.
pub uninterp spec fn lower_of(s: Seq<char>) -> Seq<char>;

/// Relies on `str::to_lowercase`: the result depends on the characters alone.
#[verifier::external_body]
fn lowercase(s: &str) -> (r: String)
    ensures
        r@ == lower_of(s@),
{
    s.to_lowercase()
}

/// The lower-cased words of `text`.
pub open spec fn lower_words(text: Seq<char>) -> Seq<Seq<char>> {
    words(text).map_values(|w: Seq<char>| lower_of(w))
}

/// The lower-cased words of `text`, in order.
pub fn lower_words_of(text: &str) -> (r: Vec<String>)
    ensures
        r@.map_values(|w: String| w@) == lower_words(text@),
{
    let ws = words_of(text);
    let ghost wv = ws@.map_values(|w: String| w@);
    let mut out: Vec<String> = Vec::new();
    let mut i: usize = 0;
    while i < ws.len()
        invariant
            wv == ws@.map_values(|w: String| w@),
            wv == words(text@),
            i <= ws@.len(),
            out@.len() == i,
            forall|j: int| 0 <= j < i ==> (#[trigger] out@[j])@ == lower_of(wv[j]),
        decreases ws@.len() - i,
    {
        out.push(lowercase(ws[i].as_str()));
        i = i + 1;
    }
    assert(out@.map_values(|w: String| w@) =~= lower_words(text@));
    out
}

/// Number of times `w` occurs in the first `n` members of `ws`.
pub open spec fn count_upto(ws: Seq<Seq<char>>, w: Seq<char>, n: int) -> nat
    decreases n,
{
    if n <= 0 {
        0
    } else {
        count_upto(ws, w, n - 1) + if ws[n - 1] == w {
            1nat
        } else {
            0nat
        }
    }
}

/// Number of times `w` occurs in `ws`.
pub open spec fn count_of(ws: Seq<Seq<char>>, w: Seq<char>) -> nat {
    count_upto(ws, w, ws.len() as int)
}

proof fn lemma_count_upto_bounded(ws: Seq<Seq<char>>, w: Seq<char>, n: int)
    requires
        0 <= n,
    ensures
        count_upto(ws, w, n) <= n,
    decreases n,
{
    if n > 0 {
        lemma_count_upto_bounded(ws, w, n - 1);
    }
}

/// Number of times `w` occurs among `ws`.
fn occurrences(ws: &Vec<String>, w: &str) -> (r: u64)
    ensures
        r == count_of(ws@.map_values(|x: String| x@), w@),
{
    let ghost wv = ws@.map_values(|x: String| x@);
    let mut c: u64 = 0;
    let mut i: usize = 0;
    while i < ws.len()
        invariant
            wv == ws@.map_values(|x: String| x@),
            i <= ws@.len(),
            c == count_upto(wv, w@, i as int),
        decreases ws@.len() - i,
    {
        proof {
            lemma_count_upto_bounded(wv, w@, i as int);
        }
        if str_eq(ws[i].as_str(), w) {
            c = c + 1;
        }
        i = i + 1;
    }
    c
}

/// The bag-of-words vector: for each of the first `dim` vocabulary terms,
/// how often it occurs among `ws`; positions past the vocabulary are 0.
pub open spec fn bag_of_words_spec(ws: Seq<Seq<char>>, vocab: Seq<Seq<char>>, dim: nat) -> Seq<u64> {
    Seq::new(dim, |i: int| if i < vocab.len() { count_of(ws, vocab[i]) as u64 } else { 0u64 })
}

impl crate::embedding::Embedding {
    /// Counts of each vocabulary term among the lower-cased words of `text`,
    /// in vocabulary order, cut or padded with zeros to `dim`.
    pub fn bag_of_words(text: &str, vocabulary: &Vec<String>, dim: usize) -> (r: Vec<u64>)
        ensures
            r@ == bag_of_words_spec(
                lower_words(text@),
                vocabulary@.map_values(|v: String| v@),
                dim as nat,
            ),
    {
        let ws = lower_words_of(text);
        Self::bag_of_words_counts(&ws, vocabulary, dim)
    }

    /// Counts of each vocabulary term among `words`, in vocabulary order,
    /// cut or padded with zeros to `dim`.
    pub fn bag_of_words_counts(words: &Vec<String>, vocabulary: &Vec<String>, dim: usize) -> (r: Vec<u64>)
        ensures
            r@ == bag_of_words_spec(
                words@.map_values(|v: String| v@),
                vocabulary@.map_values(|v: String| v@),
                dim as nat,
            ),
    {
        let ghost wv = words@.map_values(|v: String| v@);
        let ghost vv = vocabulary@.map_values(|v: String| v@);
        let mut out: Vec<u64> = Vec::new();
        let mut i: usize = 0;
        while i < dim
            invariant
                wv == words@.map_values(|v: String| v@),
                vv == vocabulary@.map_values(|v: String| v@),
                i <= dim,
                out@ == bag_of_words_spec(wv, vv, dim as nat).subrange(0, i as int),
            decreases dim - i,
        {
            let c = if i < vocabulary.len() {
                occurrences(words, vocabulary[i].as_str())
            } else {
                0
            };
            out.push(c);
            i = i + 1;
            assert(out@ =~= bag_of_words_spec(wv, vv, dim as nat).subrange(0, i as int));
        }
        assert(out@ =~= bag_of_words_spec(wv, vv, dim as nat));
        out
    }
}

/// The one-hot vector: position `i < dim` is 1 when vocabulary term `i`
/// occurs among `ws` and no earlier term equals it.
pub open spec fn one_hot_spec(ws: Seq<Seq<char>>, vocab: Seq<Seq<char>>, dim: nat) -> Seq<u8> {
    Seq::new(
        dim,
        |i: int|
            if i < vocab.len() && count_of(ws, vocab[i]) > 0 && (forall|j: int|
                0 <= j < i ==> vocab[j] != vocab[i]) {
                1u8
            } else {
                0u8
            },
    )
}

/// Sum of the character codes at the positions `p < n` of `s` with
/// `p % dim == b`.
pub open spec fn bucket_sum_upto(s: Seq<char>, dim: int, b: int, n: int) -> nat
    decreases n,
{
    if n <= 0 {
        0
    } else {
        bucket_sum_upto(s, dim, b, n - 1) + if (n - 1) % dim == b {
            s[n - 1] as u32 as nat
        } else {
            0nat
        }
    }
}

/// The character-level vector before scaling: position `b` holds the sum of
/// the codes of the characters at positions congruent to `b` modulo `dim`.
pub open spec fn character_sums_spec(s: Seq<char>, dim: nat) -> Seq<u128> {
    Seq::new(dim, |b: int| bucket_sum_upto(s, dim as int, b, s.len() as int) as u128)
}

proof fn lemma_bucket_sum_bounded(s: Seq<char>, dim: int, b: int, n: int)
    requires
        0 <= n <= s.len(),
    ensures
        bucket_sum_upto(s, dim, b, n) <= n * 0x1_0000_0000,
    decreases n,
{
    if n > 0 {
        lemma_bucket_sum_bounded(s, dim, b, n - 1);
    }
}

impl crate::embedding::Embedding {
    /// Marks with 1 each of the first `dim` vocabulary positions whose term
    /// is among the lower-cased words of `text`.
    pub fn one_hot_encoding(text: &str, vocabulary: &Vec<String>, dim: usize) -> (r: Vec<u8>)
        ensures
            r@ == one_hot_spec(
                lower_words(text@),
                vocabulary@.map_values(|v: String| v@),
                dim as nat,
            ),
    {
        let ws = lower_words_of(text);
        Self::one_hot_of_words(&ws, vocabulary, dim)
    }

    /// Marks with 1 each of the first `dim` vocabulary positions whose term
    /// is among `words`, counting a repeated term at its first position only.
    pub fn one_hot_of_words(words: &Vec<String>, vocabulary: &Vec<String>, dim: usize) -> (r: Vec<u8>)
        ensures
            r@ == one_hot_spec(
                words@.map_values(|v: String| v@),
                vocabulary@.map_values(|v: String| v@),
                dim as nat,
            ),
    {
        let ghost wv = words@.map_values(|v: String| v@);
        let ghost vv = vocabulary@.map_values(|v: String| v@);
        let mut out: Vec<u8> = Vec::new();
        let mut i: usize = 0;
        while i < dim
            invariant
                wv == words@.map_values(|v: String| v@),
                vv == vocabulary@.map_values(|v: String| v@),
                i <= dim,
                out@ == one_hot_spec(wv, vv, dim as nat).subrange(0, i as int),
            decreases dim - i,
        {
            let mut mark: u8 = 0;
            if i < vocabulary.len() && occurrences(words, vocabulary[i].as_str()) > 0 {
                let mut first = true;
                let mut j: usize = 0;
                while j < i
                    invariant
                        i < vocabulary@.len(),
                        vv == vocabulary@.map_values(|v: String| v@),
                        j <= i,
                        first == (forall|l: int| 0 <= l < j ==> vv[l] != vv[i as int]),
                    decreases i - j,
                {
                    assert(vv[j as int] == vocabulary@[j as int]@ && vv[i as int] == vocabulary@[i as int]@);
                    if str_eq(vocabulary[j].as_str(), vocabulary[i].as_str()) {
                        first = false;
                    }
                    j = j + 1;
                }
                if first {
                    mark = 1;
                }
            }
            out.push(mark);
            i = i + 1;
            assert(out@ =~= one_hot_spec(wv, vv, dim as nat).subrange(0, i as int));
        }
        assert(out@ =~= one_hot_spec(wv, vv, dim as nat));
        out
    }

    /// For each of `dim` buckets, the sum of the codes of the characters of
    /// `text` whose position modulo `dim` is the bucket.
    pub fn character_code_sums(text: &str, dim: usize) -> (r: Vec<u128>)
        ensures
            r@ == character_sums_spec(text@, dim as nat),
    {
        let chars = chars_of(text);
        let n = chars.len();
        let mut out: Vec<u128> = Vec::new();
        let mut b: usize = 0;
        while b < dim
            invariant
                chars@ == text@,
                n == chars@.len(),
                b <= dim,
                out@ == character_sums_spec(text@, dim as nat).subrange(0, b as int),
            decreases dim - b,
        {
            let mut sum: u128 = 0;
            let mut p: usize = 0;
            while p < n
                invariant
                    chars@ == text@,
                    n == chars@.len(),
                    b < dim,
                    p <= n,
                    sum == bucket_sum_upto(text@, dim as int, b as int, p as int),
                decreases n - p,
            {
                proof {
                    lemma_bucket_sum_bounded(text@, dim as int, b as int, p as int + 1);
                    assert((p as int + 1) * 0x1_0000_0000 <= 0x1_0000_0000_0000_0000 * 0x1_0000_0000) by (nonlinear_arith)
                        requires
                            p < n,
                            n <= 0xffff_ffff_ffff_ffff,
                    ;
                }
                if p % dim == b {
                    sum = sum + chars[p] as u32 as u128;
                }
                p = p + 1;
            }
            out.push(sum);
            b = b + 1;
            assert(out@ =~= character_sums_spec(text@, dim as nat).subrange(0, b as int));
        }
        assert(out@ =~= character_sums_spec(text@, dim as nat));
        out
    }
}

/// What std's default hasher makes of a text.
pub uninterp spec fn str_hash(s: Seq<char>) -> u64;

/// What std's default hasher makes of a text written into it twice.
pub uninterp spec fn str_hash_twice(s: Seq<char>) -> u64;

/// Relies on `BuildHasher::hash_one` with `BuildHasherDefault<DefaultHasher>`:
/// hashers made by `DefaultHasher::new` all start alike, so the result
/// depends on the text alone.
#[verifier::external_body]
fn hash_str(s: &str) -> (r: u64)
    ensures
        r == str_hash(s@),
{
    std::hash::BuildHasher::hash_one(
        &std::hash::BuildHasherDefault::<std::collections::hash_map::DefaultHasher>::default(),
        s,
    )
}

/// Relies on `BuildHasher::hash_one` with `BuildHasherDefault<DefaultHasher>`
/// on the pair `(s, s)`, which writes `s` into one hasher twice.
#[verifier::external_body]
fn hash_str_twice(s: &str) -> (r: u64)
    ensures
        r == str_hash_twice(s@),
{
    std::hash::BuildHasher::hash_one(
        &std::hash::BuildHasherDefault::<std::collections::hash_map::DefaultHasher>::default(),
        (s, s),
    )
}

/// The character n-grams of `s`, in order of position.
pub open spec fn ngrams(s: Seq<char>, n: nat) -> Seq<Seq<char>> {
    if n <= s.len() {
        Seq::new((s.len() - n + 1) as nat, |i: int| s.subrange(i, i + n))
    } else {
        Seq::empty()
    }
}

/// Number of the first `k` texts of `gs` that hash into bucket `b` of `dim`.
pub open spec fn bucket_count_upto(gs: Seq<Seq<char>>, dim: nat, b: int, k: int) -> nat
    decreases k,
{
    if k <= 0 {
        0
    } else {
        bucket_count_upto(gs, dim, b, k - 1) + if (str_hash(gs[k - 1]) % (dim as u64)) as int == b {
            1nat
        } else {
            0nat
        }
    }
}

/// The n-gram vector before scaling: how many n-grams hash into each of
/// `dim` buckets.
pub open spec fn ngram_spec(s: Seq<char>, n: nat, dim: nat) -> Seq<u128> {
    Seq::new(dim, |b: int| bucket_count_upto(ngrams(s, n), dim, b, ngrams(s, n).len() as int) as u128)
}

/// Signed sum over the first `k` words of `ws` hashing into bucket `b`:
/// +1 for a word whose doubled hash is even, -1 otherwise.
pub open spec fn signed_count_upto(ws: Seq<Seq<char>>, dim: nat, b: int, k: int) -> int
    decreases k,
{
    if k <= 0 {
        0
    } else {
        signed_count_upto(ws, dim, b, k - 1) + if (str_hash(ws[k - 1]) % (dim as u64)) as int == b {
            if str_hash_twice(ws[k - 1]) % 2 == 0 {
                1int
            } else {
                -1int
            }
        } else {
            0int
        }
    }
}

/// The feature-hashing vector before scaling, over the lower-cased words.
pub open spec fn hashing_trick_spec(text: Seq<char>, dim: nat) -> Seq<i128> {
    Seq::new(
        dim,
        |b: int| signed_count_upto(lower_words(text), dim, b, lower_words(text).len() as int) as i128,
    )
}

proof fn lemma_bucket_count_bounded(gs: Seq<Seq<char>>, dim: nat, b: int, k: int)
    requires
        0 <= k,
    ensures
        bucket_count_upto(gs, dim, b, k) <= k,
    decreases k,
{
    if k > 0 {
        lemma_bucket_count_bounded(gs, dim, b, k - 1);
    }
}

proof fn lemma_signed_count_bounded(ws: Seq<Seq<char>>, dim: nat, b: int, k: int)
    requires
        0 <= k,
    ensures
        -k <= signed_count_upto(ws, dim, b, k) <= k,
    decreases k,
{
    if k > 0 {
        lemma_signed_count_bounded(ws, dim, b, k - 1);
    }
}

/// The n-gram of `chars` of length `n` starting at `i`, as text.
fn gram_at(chars: &Vec<char>, i: usize, n: usize) -> (r: String)
    requires
        i + n <= chars@.len(),
    ensures
        r@ == chars@.subrange(i as int, i + n),
{
    let mut g = String::new();
    assert(chars@.len() == chars.len());
    let end: usize = i + n;
    let mut j: usize = i;
    while j < end
        invariant
            end == i + n,
            i <= j <= i + n,
            i + n <= chars@.len(),
            g@ == chars@.subrange(i as int, j as int),
        decreases end - j,
    {
        push_char(&mut g, chars[j]);
        j = j + 1;
        assert(g@ =~= chars@.subrange(i as int, j as int));
    }
    g
}

impl crate::embedding::Embedding {
    /// For each of `dim` buckets, how many character n-grams of `text` hash
    /// into it; a text shorter than `n` has none.
    pub fn ngram_counts(text: &str, n: usize, dim: usize) -> (r: Vec<u128>)
        ensures
            r@ == ngram_spec(text@, n as nat, dim as nat),
    {
        let chars = chars_of(text);
        let mut counts: Vec<u128> = Vec::new();
        let mut b: usize = 0;
        while b < dim
            invariant
                b <= dim,
                counts@.len() == b,
                forall|j: int| 0 <= j < b ==> counts@[j] == 0,
            decreases dim - b,
        {
            counts.push(0);
            b = b + 1;
        }
        let ghost gs = ngrams(text@, n as nat);
        if dim == 0 || n > chars.len() {
            proof {
                assert forall|j: int| 0 <= j < dim implies counts@[j] == bucket_count_upto(gs, dim as nat, j, gs.len() as int) by {
                    assert(gs.len() == 0);
                }
            }
            assert(counts@ =~= ngram_spec(text@, n as nat, dim as nat));
            return counts;
        }
        let total: u128 = (chars.len() - n) as u128 + 1;
        assert(gs.len() == total);
        let mut i: u128 = 0;
        while i < total
            invariant
                chars@ == text@,
                n <= chars@.len(),
                total == chars@.len() - n + 1,
                gs == ngrams(text@, n as nat),
                gs.len() == total,
                dim > 0,
                i <= total,
                counts@.len() == dim,
                forall|j: int| 0 <= j < dim ==> #[trigger] counts@[j] == bucket_count_upto(gs, dim as nat, j, i as int),
            decreases total - i,
        {
            assert(i <= chars@.len() - n);
            let g = gram_at(&chars, i as usize, n);
            assert(g@ == gs[i as int]);
            let h = hash_str(g.as_str());
            let k = (h % (dim as u64)) as usize;
            proof {
                lemma_bucket_count_bounded(gs, dim as nat, k as int, i as int);
                assert(i < chars@.len() + 1);
            }
            let c = counts[k];
            counts.set(k, c + 1);
            i = i + 1;
        }
        assert(counts@ =~= ngram_spec(text@, n as nat, dim as nat));
        counts
    }

    /// For each of `dim` buckets, the signed count of the lower-cased words
    /// of `text` hashing into it.
    pub fn hashing_trick_counts(text: &str, dim: usize) -> (r: Vec<i128>)
        ensures
            r@ == hashing_trick_spec(text@, dim as nat),
    {
        let ws = lower_words_of(text);
        let ghost wv = ws@.map_values(|w: String| w@);
        let mut counts: Vec<i128> = Vec::new();
        let mut b: usize = 0;
        while b < dim
            invariant
                b <= dim,
                counts@.len() == b,
                forall|j: int| 0 <= j < b ==> counts@[j] == 0,
            decreases dim - b,
        {
            counts.push(0);
            b = b + 1;
        }
        if dim == 0 {
            assert(counts@ =~= hashing_trick_spec(text@, dim as nat));
            return counts;
        }
        let mut i: usize = 0;
        while i < ws.len()
            invariant
                wv == ws@.map_values(|w: String| w@),
                wv == lower_words(text@),
                dim > 0,
                i <= ws@.len(),
                counts@.len() == dim,
                forall|j: int| 0 <= j < dim ==> #[trigger] counts@[j] == signed_count_upto(wv, dim as nat, j, i as int),
            decreases ws@.len() - i,
        {
            let w = ws[i].as_str();
            assert(w@ == wv[i as int]);
            let h = hash_str(w);
            let k = (h % (dim as u64)) as usize;
            let sign: i128 = if hash_str_twice(w) % 2 == 0 {
                1
            } else {
                -1
            };
            proof {
                lemma_signed_count_bounded(wv, dim as nat, k as int, i as int);
            }
            let c = counts[k];
            counts.set(k, c + sign);
            i = i + 1;
        }
        assert(counts@ =~= hashing_trick_spec(text@, dim as nat));
        counts
    }
}

/// What `char::is_alphabetic` says of a character.
pub uninterp spec fn alphabetic(c: char) -> bool;

/// What `char::is_uppercase` says of a character.
pub uninterp spec fn uppercase(c: char) -> bool;

/// Relies on `char::is_alphabetic`: Unicode's `Alphabetic` property.
#[verifier::external_body]
fn is_alphabetic(c: char) -> (r: bool)
    ensures
        r == alphabetic(c),
{
    c.is_alphabetic()
}

/// Relies on `char::is_uppercase`: Unicode's `Uppercase` property.
#[verifier::external_body]
fn is_uppercase(c: char) -> (r: bool)
    ensures
        r == uppercase(c),
{
    c.is_uppercase()
}

/// An ASCII decimal digit.
pub open spec fn decimal_digit(c: char) -> bool {
    '0' <= c <= '9'
}

/// An ASCII punctuation character.
pub open spec fn ascii_punctuation(c: char) -> bool {
    ('!' <= c <= '/') || (':' <= c <= '@') || ('[' <= c <= '`') || ('{' <= c <= '~')
}

/// The class a word character is counted in: 1 alphabetic, 2 digit,
/// 3 punctuation, 0 none.
pub open spec fn char_class(c: char) -> int {
    if alphabetic(c) {
        1
    } else if decimal_digit(c) {
        2
    } else if ascii_punctuation(c) {
        3
    } else {
        0
    }
}

/// Number of non-white-space characters among the first `n` of `s` in
/// class `k`; class 4 counts the alphabetic ones that are upper case.
pub open spec fn class_count_upto(s: Seq<char>, k: int, n: int) -> nat
    decreases n,
{
    if n <= 0 {
        0
    } else {
        let c = s[n - 1];
        let hit = !white_space(c) && if k == 4 {
            alphabetic(c) && uppercase(c)
        } else {
            char_class(c) == k
        };
        class_count_upto(s, k, n - 1) + if hit {
            1nat
        } else {
            0nat
        }
    }
}

/// Number of the first `n` members of `ws` equal to no earlier one.
pub open spec fn distinct_upto(ws: Seq<Seq<char>>, n: int) -> nat
    decreases n,
{
    if n <= 0 {
        0
    } else {
        distinct_upto(ws, n - 1) + if (forall|j: int| 0 <= j < n - 1 ==> #[trigger] ws[j] != ws[n - 1]) {
            1nat
        } else {
            0nat
        }
    }
}

/// Sum of the byte lengths of the first `n` members of `ws`.
pub open spec fn bytes_upto(ws: Seq<Seq<char>>, n: int) -> int
    decreases n,
{
    if n <= 0 {
        0
    } else {
        bytes_upto(ws, n - 1) + byte_len(ws[n - 1])
    }
}

/// Whole-number statistics of a text, from which the word-count vector is
/// formed.
#[derive(Clone, Copy, Debug, PartialEq, Eq)]
pub struct WordStats {
    pub word_count: u64,
    pub unique_words: u64,
    pub word_bytes: u128,
    pub alphabetic: u64,
    pub uppercase: u64,
    pub digits: u64,
    pub punctuation: u64,
    pub text_bytes: u64,
}

proof fn lemma_class_count_bounded(s: Seq<char>, k: int, n: int)
    requires
        0 <= n,
    ensures
        class_count_upto(s, k, n) <= n,
    decreases n,
{
    if n > 0 {
        lemma_class_count_bounded(s, k, n - 1);
    }
}

proof fn lemma_distinct_bounded(ws: Seq<Seq<char>>, n: int)
    requires
        0 <= n,
    ensures
        distinct_upto(ws, n) <= n,
    decreases n,
{
    if n > 0 {
        lemma_distinct_bounded(ws, n - 1);
    }
}

proof fn lemma_bytes_bounded(ws: Seq<Seq<char>>, n: int)
    requires
        0 <= n,
    ensures
        0 <= bytes_upto(ws, n) <= n * 0x1_0000_0000_0000_0000,
    decreases n,
{
    if n > 0 {
        lemma_bytes_bounded(ws, n - 1);
    }
}

/// Number of characters of `s` in class `k` (see `class_count_upto`).
fn class_count(s: &Vec<char>, k: u8) -> (r: u64)
    ensures
        r == class_count_upto(s@, k as int, s@.len() as int),
{
    let mut c: u64 = 0;
    let mut i: usize = 0;
    while i < s.len()
        invariant
            i <= s@.len(),
            c == class_count_upto(s@, k as int, i as int),
        decreases s@.len() - i,
    {
        proof {
            lemma_class_count_bounded(s@, k as int, i as int);
        }
        let ch = s[i];
        let hit = if is_white_space(ch) {
            false
        } else if k == 4 {
            is_alphabetic(ch) && is_uppercase(ch)
        } else {
            let class: u8 = if is_alphabetic(ch) {
                1
            } else if '0' <= ch && ch <= '9' {
                2
            } else if ('!' <= ch && ch <= '/') || (':' <= ch && ch <= '@') || ('[' <= ch && ch <= '`')
                || ('{' <= ch && ch <= '~') {
                3
            } else {
                0
            };
            class == k
        };
        if hit {
            c = c + 1;
        }
        i = i + 1;
    }
    c
}

impl crate::embedding::Embedding {
    /// Counts from which the word-count vector of `text` is formed: words,
    /// distinct words, bytes in words, alphabetic, upper-case alphabetic,
    /// digit and punctuation characters outside white space, and bytes.
    pub fn word_count_stats(text: &str) -> (r: WordStats)
        ensures
            r.word_count == words(text@).len(),
            r.unique_words == distinct_upto(words(text@), words(text@).len() as int),
            r.word_bytes == bytes_upto(words(text@), words(text@).len() as int),
            r.alphabetic == class_count_upto(text@, 1, text@.len() as int),
            r.digits == class_count_upto(text@, 2, text@.len() as int),
            r.punctuation == class_count_upto(text@, 3, text@.len() as int),
            r.uppercase == class_count_upto(text@, 4, text@.len() as int),
            r.text_bytes == byte_len(text@),
    {
        let ws = words_of(text);
        let ghost wv = ws@.map_values(|w: String| w@);
        let n = ws.len();
        let mut unique: u64 = 0;
        let mut bytes: u128 = 0;
        let mut i: usize = 0;
        while i < n
            invariant
                n == ws@.len(),
                wv == ws@.map_values(|w: String| w@),
                i <= n,
                unique == distinct_upto(wv, i as int),
                bytes == bytes_upto(wv, i as int),
            decreases n - i,
        {
            proof {
                lemma_distinct_bounded(wv, i as int);
                lemma_bytes_bounded(wv, i as int);
                assert(i * 0x1_0000_0000_0000_0000 + 0x1_0000_0000_0000_0000 <= 0x1_0000_0000_0000_0000
                    * 0x1_0000_0000_0000_0000) by (nonlinear_arith)
                    requires
                        i < 0x1_0000_0000_0000_0000,
                ;
            }
            let mut fresh = true;
            let mut j: usize = 0;
            while j < i
                invariant
                    n == ws@.len(),
                    wv == ws@.map_values(|w: String| w@),
                    j <= i < n,
                    fresh == (forall|l: int| 0 <= l < j ==> wv[l] != wv[i as int]),
                decreases i - j,
            {
                assert(wv[j as int] == ws@[j as int]@ && wv[i as int] == ws@[i as int]@);
                if str_eq(ws[j].as_str(), ws[i].as_str()) {
                    fresh = false;
                }
                j = j + 1;
            }
            if fresh {
                unique = unique + 1;
            }
            assert(wv[i as int] == ws@[i as int]@);
            bytes = bytes + ws[i].as_str().len() as u128;
            i = i + 1;
        }
        let chars = chars_of(text);
        WordStats {
            word_count: n as u64,
            unique_words: unique,
            word_bytes: bytes,
            alphabetic: class_count(&chars, 1),
            uppercase: class_count(&chars, 4),
            digits: class_count(&chars, 2),
            punctuation: class_count(&chars, 3),
            text_bytes: text.len() as u64,
        }
    }

    /// Number of documents of `corpus` among whose lower-cased words `term`
    /// occurs.
    pub fn document_frequency(corpus: &Vec<String>, term: &str) -> (r: u64)
        ensures
            r == doc_count_upto(corpus@.map_values(|d: String| d@), term@, corpus@.len() as int),
    {
        let ghost cv = corpus@.map_values(|d: String| d@);
        let mut c: u64 = 0;
        let mut i: usize = 0;
        while i < corpus.len()
            invariant
                cv == corpus@.map_values(|d: String| d@),
                i <= corpus@.len(),
                c == doc_count_upto(cv, term@, i as int),
                c <= i,
            decreases corpus@.len() - i,
        {
            let ws = lower_words_of(corpus[i].as_str());
            assert(cv[i as int] == corpus@[i as int]@);
            if occurrences(&ws, term) > 0 {
                c = c + 1;
            }
            i = i + 1;
        }
        c
    }
}

/// Number of the first `n` documents of `docs` among whose lower-cased
/// words `term` occurs.
pub open spec fn doc_count_upto(docs: Seq<Seq<char>>, term: Seq<char>, n: int) -> nat
    decreases n,
{
    if n <= 0 {
        0
    } else {
        doc_count_upto(docs, term, n - 1) + if count_of(lower_words(docs[n - 1]), term) > 0 {
            1nat
        } else {
            0nat
        }
    }
}

} // verus!
