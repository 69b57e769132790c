use vstd::prelude::*;

use crate::text::{chars_of, contains, ends_with, has_sub, starts_with};

verus! {

/// `str::trim_end_matches` with a string pattern: repeatedly removes `p`
/// from the end of `s`.
pub open spec fn trim_end_matches(s: Seq<char>, p: Seq<char>) -> Seq<char>
    decreases s.len(),
{
    if p.len() > 0 && p.is_suffix_of(s) {
        trim_end_matches(s.take(s.len() - p.len()), p)
    } else {
        s
    }
}

/// The part of an exclusion pattern that is looked for in a path: the
/// pattern without trailing `**` and then without trailing `/`.
pub open spec fn pattern_stem(pattern: Seq<char>) -> Seq<char> {
    trim_end_matches(trim_end_matches(pattern, "**"@), "/"@)
}

/// Whether `path` is excluded by `pattern`.
pub open spec fn excluded_by(path: Seq<char>, pattern: Seq<char>) -> bool {
    let stem = pattern_stem(pattern);
    has_sub(path, stem) || stem.is_prefix_of(path)
}

/// Removes `p` from the end of `s` as long as `s` ends with it.
pub fn trim_end_matches_exec(s: &[char], p: &[char]) -> (r: Vec<char>)
    ensures
        r@ == trim_end_matches(s@, p@),
{
    let mut end: usize = s.len();
    assert(s@.take(end as int) =~= s@);
    if p.len() == 0 {
        return crate::text::slice_to_vec(s, 0, end);
    }
    loop
        invariant
            end <= s.len(),
            p.len() > 0,
            trim_end_matches(s@, p@) == trim_end_matches(s@.take(end as int), p@),
        decreases end,
    {
        let head = crate::text::slice_to_vec(s, 0, end);
        assert(head@ =~= s@.take(end as int));
        if ends_with(&head, p) {
            assert(s@.take(end as int).take(end - p.len()) =~= s@.take(end - p.len()));
            end = end - p.len();
        } else {
            return head;
        }
    }
}

/// Check whether a path should be excluded based on glob-like patterns.
/// Patterns like `src/generated/**` or `tests/**` match if the path contains the stem.
pub fn is_excluded(path: &str, patterns: &[String]) -> (r: bool)
    ensures
        r == exists|i: int| 0 <= i < patterns@.len() && excluded_by(path@, #[trigger] patterns@[i]@),
{
    let pv = chars_of(path);
    let stars = chars_of("**");
    let slash = chars_of("/");
    let mut i: usize = 0;
    while i < patterns.len()
        invariant
            i <= patterns.len(),
            pv@ == path@,
            stars@ == "**"@,
            slash@ == "/"@,
            forall|k: int| 0 <= k < i ==> !excluded_by(path@, #[trigger] patterns@[k]@),
        decreases patterns.len() - i,
    {
        let pat = chars_of(patterns[i].as_str());
        let a = trim_end_matches_exec(&pat, &stars);
        let stem = trim_end_matches_exec(&a, &slash);
        if contains(&pv, &stem) || starts_with(&pv, &stem) {
            assert(excluded_by(path@, patterns@[i as int]@));
            return true;
        }
        i = i + 1;
    }
    false
}

} // verus!
