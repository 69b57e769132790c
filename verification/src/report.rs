//! Text shaping for the reports printed by the command line.
use vstd::prelude::*;

use crate::ops::byte_boundary;
use crate::scanner::test_detect::{utf8_len, utf8_len_exec, utf8_width};
use crate::text::{chars_of, string_of};

verus! {

/// `s` without the characters of its first `n` bytes.
pub open spec fn skip_bytes(s: Seq<char>, n: int) -> Seq<char>
    decreases s.len(),
{
    if n <= 0 || s.len() == 0 {
        s
    } else {
        skip_bytes(s.drop_first(), n - utf8_width(s[0]))
    }
}

/// A path shortened to its last `max_len - 1` bytes behind an ellipsis when
/// it is longer than `max_len` bytes.
pub open spec fn spec_truncate_path(path: Seq<char>, max_len: int) -> Seq<char> {
    if utf8_len(path) <= max_len {
        path
    } else {
        seq!['\u{2026}'] + skip_bytes(path, utf8_len(path) - (max_len - 1))
    }
}

/// Whether `truncate_path` can cut `path` for `max_len`: no cut is needed,
/// or the cut falls on a character boundary and leaves room for the ellipsis.
pub open spec fn can_truncate(path: Seq<char>, max_len: int) -> bool {
    utf8_len(path) <= max_len || (max_len >= 1 && byte_boundary(path, utf8_len(path) - (max_len - 1)))
}

/// Shortens `path` to at most `max_len` bytes' worth of its end, marking a
/// cut with a leading `…`.
pub fn truncate_path(path: &str, max_len: usize) -> (r: String)
    requires
        can_truncate(path@, max_len as int),
    ensures
        r@ == spec_truncate_path(path@, max_len as int),
{
    let v = chars_of(path);
    let total = utf8_len_exec(&v);
    if total <= max_len as u128 {
        return string_of(&v);
    }
    let cut: u128 = total - (max_len as u128 - 1);
    let mut rem: u128 = cut;
    let mut i: usize = 0;
    assert(v@.skip(0) =~= v@);
    while rem > 0
        invariant
            i <= v@.len(),
            v@ == path@,
            byte_boundary(v@.skip(i as int), rem as int),
            skip_bytes(v@.skip(i as int), rem as int) == skip_bytes(path@, cut as int),
        decreases rem,
    {
        let ghost rest = v@.skip(i as int);
        assert(rest.len() > 0);
        assert(i < v.len());
        assert(rest.drop_first() =~= v@.skip(i + 1));
        let c = v[i];
        assert(rest[0] == c);
        let u = c as u32;
        let w: u128 = if u < 0x80 {
            1
        } else if u < 0x800 {
            2
        } else if u < 0x10000 {
            3
        } else {
            4
        };
        assert(w == utf8_width(c));
        rem = rem - w;
        i = i + 1;
    }
    let mut out: Vec<char> = Vec::new();
    out.push('\u{2026}');
    let mut k: usize = i;
    while k < v.len()
        invariant
            i <= k <= v@.len(),
            out@ == seq!['\u{2026}'] + v@.subrange(i as int, k as int),
        decreases v@.len() - k,
    {
        out.push(v[k]);
        k = k + 1;
        assert(out@ =~= seq!['\u{2026}'] + v@.subrange(i as int, k as int));
    }
    assert(v@.subrange(i as int, k as int) =~= v@.skip(i as int));
    assert(skip_bytes(v@.skip(i as int), 0) == v@.skip(i as int));
    string_of(&out)
}

proof fn lemma_len_le_utf8_len(s: Seq<char>)
    ensures
        s.len() <= utf8_len(s),
    decreases s.len(),
{
    if s.len() > 0 {
        lemma_len_le_utf8_len(s.drop_first());
    }
}

proof fn lemma_skip_bytes_len(s: Seq<char>, n: int)
    requires
        byte_boundary(s, n),
    ensures
        utf8_len(skip_bytes(s, n)) == utf8_len(s) - n,
    decreases s.len(),
{
    if n > 0 && s.len() > 0 {
        lemma_skip_bytes_len(s.drop_first(), n - utf8_width(s[0]));
    }
}

/// A truncated path never has more characters than `max_len`.
pub proof fn lemma_truncate_path_fits(path: Seq<char>, max_len: int)
    requires
        can_truncate(path, max_len),
    ensures
        spec_truncate_path(path, max_len).len() <= max_len,
{
    lemma_len_le_utf8_len(path);
    if utf8_len(path) > max_len {
        let cut = utf8_len(path) - (max_len - 1);
        lemma_skip_bytes_len(path, cut);
        lemma_len_le_utf8_len(skip_bytes(path, cut));
    }
}

} // verus!
