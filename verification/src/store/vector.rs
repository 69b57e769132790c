//! The word-bag embedding of a text: how many of its words fall in each of
//! 64 buckets, a word's bucket being read from its SHA-256 digest.
//!
//! Normalising the counts into a unit vector, and comparing vectors, is
//! floating-point work left to the caller.
use vstd::prelude::*;

use sha2::{Digest, Sha256};

use crate::scanner::test_detect::{is_alphanumeric, spec_is_alphanumeric};
use crate::text::{is_whitespace, is_ws, string_of};

verus! {

/// The number of buckets of an embedding.
pub const DIM: usize = 64;

/// What `sha2::Sha256` gives as the digest of the UTF-8 bytes of `s`.
pub uninterp spec fn spec_sha256_utf8(s: Seq<char>) -> Seq<u8>;

/// Hashes the bytes of `s` with `sha2::Sha256` (`new`, `update`,
/// `finalize`); the contract names the digest and states its length, 32
/// bytes.
#[verifier::external_body]
fn sha256_utf8(s: &str) -> (r: Vec<u8>)
    ensures
        r@ == spec_sha256_utf8(s@),
        r@.len() == 32,
{
    let mut hasher = Sha256::new();
    hasher.update(s.as_bytes());
    hasher.finalize().to_vec()
}

/// What `str::to_lowercase` gives for `s`.
pub uninterp spec fn spec_to_lowercase(s: Seq<char>) -> Seq<char>;

/// Calls `str::to_lowercase`; the contract names the result.
#[verifier::external_body]
fn to_lowercase(s: &str) -> (r: String)
    ensures
        r@ == spec_to_lowercase(s@),
{
    s.to_lowercase()
}

/// The words of `s` as `str::split_whitespace` yields them: the maximal
/// runs of characters that are not white space. The first component holds
/// the finished words, the second the word being read.
pub open spec fn words_fold(s: Seq<char>) -> (Seq<Seq<char>>, Seq<char>)
    decreases s.len(),
{
    if s.len() == 0 {
        (seq![], seq![])
    } else {
        let (done, cur) = words_fold(s.drop_last());
        if is_ws(s.last()) {
            if cur.len() > 0 {
                (done.push(cur), seq![])
            } else {
                (done, cur)
            }
        } else {
            (done, cur.push(s.last()))
        }
    }
}

/// The words of `s`, in order.
pub open spec fn words(s: Seq<char>) -> Seq<Seq<char>> {
    let (done, cur) = words_fold(s);
    if cur.len() > 0 {
        done.push(cur)
    } else {
        done
    }
}

/// `s` without its leading characters that are not alphanumeric.
pub open spec fn trim_start_non_alnum(s: Seq<char>) -> Seq<char>
    decreases s.len(),
{
    if s.len() > 0 && !spec_is_alphanumeric(s[0]) {
        trim_start_non_alnum(s.drop_first())
    } else {
        s
    }
}

/// `s` without its trailing characters that are not alphanumeric.
pub open spec fn trim_end_non_alnum(s: Seq<char>) -> Seq<char>
    decreases s.len(),
{
    if s.len() > 0 && !spec_is_alphanumeric(s.last()) {
        trim_end_non_alnum(s.drop_last())
    } else {
        s
    }
}

/// What is left of a word once lowercased and stripped of the characters
/// that are not alphanumeric at both ends.
pub open spec fn clean_word(w: Seq<char>) -> Seq<char> {
    trim_end_non_alnum(trim_start_non_alnum(spec_to_lowercase(w)))
}

/// The bucket of a cleaned word: its digest's first two bytes, read as a
/// little-endian number, modulo the number of buckets.
pub open spec fn bucket_of(w: Seq<char>) -> int {
    let h = spec_sha256_utf8(w);
    (h[0] as int + h[1] as int * 256) % (DIM as int)
}

/// `n + 1`, saturating at the largest `u32`.
pub open spec fn sat_inc(n: u32) -> u32 {
    if n == u32::MAX {
        n
    } else {
        (n + 1) as u32
    }
}

/// The bucket counts of `ws`: each word that keeps a character once cleaned
/// adds one to its bucket.
pub open spec fn counts_of(ws: Seq<Seq<char>>) -> Seq<u32>
    decreases ws.len(),
{
    if ws.len() == 0 {
        Seq::new(DIM as nat, |i: int| 0u32)
    } else {
        let c = counts_of(ws.drop_last());
        let w = clean_word(ws.last());
        if w.len() == 0 {
            c
        } else {
            c.update(bucket_of(w), sat_inc(c[bucket_of(w)]))
        }
    }
}

/// The bucket counts of a text's words.
pub open spec fn spec_embedding_counts(text: Seq<char>) -> Seq<u32> {
    counts_of(words(text))
}

/// The words of a text, as `str::split_whitespace` yields them.
fn split_words(text: &str) -> (r: Vec<String>)
    ensures
        crate::config::strings_view(r@) == words(text@),
{
    let v = crate::text::chars_of(text);
    let mut done: Vec<String> = Vec::new();
    let mut cur: Vec<char> = Vec::new();
    let mut i: usize = 0;
    while i < v.len()
        invariant
            i <= v@.len(),
            v@ == text@,
            crate::config::strings_view(done@) == words_fold(v@.take(i as int)).0,
            cur@ == words_fold(v@.take(i as int)).1,
        decreases v@.len() - i,
    {
        assert(v@.take(i + 1).drop_last() =~= v@.take(i as int));
        let c = v[i];
        if is_whitespace(c) {
            if cur.len() > 0 {
                let ghost before = crate::config::strings_view(done@);
                let ghost cv = cur@;
                done.push(string_of(&cur));
                assert(crate::config::strings_view(done@) =~= before.push(cv));
                cur = Vec::new();
                assert(cur@ =~= Seq::<char>::empty());
            }
        } else {
            cur.push(c);
        }
        i = i + 1;
    }
    assert(v@.take(i as int) =~= v@);
    if cur.len() > 0 {
        let ghost before = crate::config::strings_view(done@);
        let ghost cv = cur@;
        done.push(string_of(&cur));
        assert(crate::config::strings_view(done@) =~= before.push(cv));
    }
    done
}

/// Strips the characters that are not alphanumeric from both ends of `s`.
fn trim_non_alnum(s: &[char]) -> (r: Vec<char>)
    ensures
        r@ == trim_end_non_alnum(trim_start_non_alnum(s@)),
{
    let mut i: usize = 0;
    assert(s@.skip(0) =~= s@);
    while i < s.len() && !is_alphanumeric(s[i])
        invariant
            i <= s@.len(),
            trim_start_non_alnum(s@) == trim_start_non_alnum(s@.skip(i as int)),
        decreases s@.len() - i,
    {
        assert(s@.skip(i as int).drop_first() =~= s@.skip(i + 1));
        i = i + 1;
    }
    let mut j: usize = s.len();
    assert(s@.skip(i as int).take(j - i) =~= s@.skip(i as int));
    while j > i && !is_alphanumeric(s[j - 1])
        invariant
            i <= j <= s@.len(),
            trim_end_non_alnum(trim_start_non_alnum(s@)) == trim_end_non_alnum(s@.subrange(i as int, j as int)),
            trim_start_non_alnum(s@) == s@.skip(i as int),
        decreases j - i,
    {
        assert(s@.subrange(i as int, j as int).drop_last() =~= s@.subrange(i as int, j - 1));
        j = j - 1;
    }
    crate::text::slice_to_vec(s, i, j)
}

/// The embedding counts of `text`: for each of its whitespace-separated
/// words, lowercased and stripped of non-alphanumeric characters at both
/// ends, one more in the bucket its SHA-256 digest points to.
pub fn embedding_counts(text: &str) -> (r: Vec<u32>)
    ensures
        r@ == spec_embedding_counts(text@),
        r@.len() == DIM,
{
    let ws = split_words(text);
    let ghost wv = crate::config::strings_view(ws@);
    let mut counts: Vec<u32> = Vec::new();
    let mut k: usize = 0;
    while k < DIM
        invariant
            k <= DIM,
            counts@ == Seq::new(k as nat, |i: int| 0u32),
        decreases DIM - k,
    {
        counts.push(0);
        k = k + 1;
        assert(counts@ =~= Seq::new(k as nat, |i: int| 0u32));
    }
    let mut i: usize = 0;
    while i < ws.len()
        invariant
            i <= ws@.len(),
            wv == crate::config::strings_view(ws@),
            wv == words(text@),
            counts@ == counts_of(wv.take(i as int)),
            counts@.len() == DIM,
        decreases ws@.len() - i,
    {
        assert(wv.take(i + 1).drop_last() =~= wv.take(i as int));
        assert(wv[i as int] == ws@[i as int]@);
        let lower = to_lowercase(ws[i].as_str());
        let cleaned = trim_non_alnum(&crate::text::chars_of(lower.as_str()));
        if cleaned.len() > 0 {
            let word = string_of(&cleaned);
            let h = sha256_utf8(word.as_str());
            let idx: usize = (h[0] as usize + h[1] as usize * 256) % DIM;
            assert(idx == bucket_of(cleaned@));
            let cur = counts[idx];
            let next = if cur == u32::MAX { cur } else { cur + 1 };
            counts.set(idx, next);
        }
        i = i + 1;
    }
    assert(wv.take(i as int) =~= wv);
    counts
}

} // verus!
