//! Detect whether functions are tests based on language-specific conventions.
use vstd::prelude::*;

use crate::text::{
    chars_of, contains_str, ends_with_str, eq_str, has_sub, is_ws, leading_ws, lemma_total_len_take,
    lemma_total_len_take_le, lines, source_lines, starts_with_str, total_len, trim, trim_start,
    trimmed, trimmed_start,
};

verus! {

// ---------------------------------------------------------------------------
// Rust: `#[cfg(test)]` modules
// ---------------------------------------------------------------------------
/// Reads the braces of `line` from index `k` on, starting at nesting
/// `depth`: whether a `}` brings the nesting back to 0, and the nesting
/// after the line otherwise.
pub open spec fn brace_close_scan(line: Seq<char>, k: int, depth: int) -> (bool, int)
    decreases line.len() - k,
{
    if k < 0 || k >= line.len() {
        (false, depth)
    } else if line[k] == '{' {
        brace_close_scan(line, k + 1, depth + 1)
    } else if line[k] == '}' {
        if depth - 1 == 0 {
            (true, 0)
        } else {
            brace_close_scan(line, k + 1, depth - 1)
        }
    } else {
        brace_close_scan(line, k + 1, depth)
    }
}

/// From line `i` on, at nesting `depth`: the 1-based number of the line on
/// which a `}` closes the block, or the number of lines if none does.
pub open spec fn block_end_scan(ls: Seq<Seq<char>>, i: int, depth: int) -> int
    decreases ls.len() - i,
{
    if i < 0 || i >= ls.len() {
        ls.len() as int
    } else {
        let (closed, d) = brace_close_scan(ls[i], 0, depth);
        if closed {
            i + 1
        } else {
            block_end_scan(ls, i + 1, d)
        }
    }
}

/// A block that starts on line `i` ends on a later line, or at the end.
pub proof fn lemma_block_end_scan_bounds(ls: Seq<Seq<char>>, i: int, depth: int)
    requires
        0 <= i < ls.len(),
    ensures
        i < block_end_scan(ls, i, depth) <= ls.len(),
    decreases ls.len() - i,
{
    let (closed, d) = brace_close_scan(ls[i], 0, depth);
    assert(block_end_scan(ls, i, depth) == if closed {
        i + 1
    } else {
        block_end_scan(ls, i + 1, d)
    });
    if !closed && i + 1 < ls.len() {
        lemma_block_end_scan_bounds(ls, i + 1, d);
    }
}

/// The first line from `j` on that is not blank.
pub open spec fn skip_blank(ls: Seq<Seq<char>>, j: int) -> int
    decreases ls.len() - j,
{
    if 0 <= j < ls.len() && trim(ls[j]).len() == 0 {
        skip_blank(ls, j + 1)
    } else {
        j
    }
}

pub proof fn lemma_skip_blank(ls: Seq<Seq<char>>, j: int)
    ensures
        skip_blank(ls, j) >= j,
    decreases ls.len() - j,
{
    if 0 <= j < ls.len() && trim(ls[j]).len() == 0 {
        lemma_skip_blank(ls, j + 1);
    }
}

/// The `#[cfg(test)]` module ranges from line `i` on: a line that reads
/// `#[cfg(test)]`, followed after blank lines by a `mod ` line, starts a
/// range that ends where the module's braces close; scanning resumes after
/// that line.
pub open spec fn cfg_scan(ls: Seq<Seq<char>>, i: int) -> Seq<(usize, usize)>
    decreases ls.len() - i,
{
    if i < 0 || i >= ls.len() {
        seq![]
    } else if trim(ls[i]) == "#[cfg(test)]"@ {
        let j = skip_blank(ls, i + 1);
        if j < ls.len() && "mod "@.is_prefix_of(trim(ls[j])) {
            let end = block_end_scan(ls, j, 0);
            proof {
                lemma_skip_blank(ls, i + 1);
                lemma_block_end_scan_bounds(ls, j, 0);
            }
            seq![((i + 1) as usize, end as usize)] + cfg_scan(ls, end)
        } else {
            cfg_scan(ls, i + 1)
        }
    } else {
        cfg_scan(ls, i + 1)
    }
}

/// The 1-based, inclusive line ranges of the `#[cfg(test)]` modules of a
/// Rust source.
pub open spec fn spec_cfg_test_ranges(source: Seq<char>) -> Seq<(usize, usize)> {
    cfg_scan(lines(source), 0)
}

/// Reads the braces of `line` as `brace_close_scan` does.
fn brace_close_exec(line: &Vec<char>, depth: i128, Ghost(bound): Ghost<int>) -> (r: (bool, i128))
    requires
        -bound <= depth <= bound,
        bound + line@.len() <= usize::MAX,
    ensures
        (r.0, r.1 as int) == brace_close_scan(line@, 0, depth as int),
        -(bound + line@.len()) <= r.1 <= bound + line@.len(),
{
    let mut d = depth;
    let mut k: usize = 0;
    while k < line.len()
        invariant
            k <= line@.len(),
            -(bound + k) <= d <= bound + k,
            bound + line@.len() <= usize::MAX,
            brace_close_scan(line@, 0, depth as int) == brace_close_scan(line@, k as int, d as int),
        decreases line.len() - k,
    {
        let c = line[k];
        if c == '{' {
            d = d + 1;
        } else if c == '}' {
            if d - 1 == 0 {
                return (true, 0);
            }
            d = d - 1;
        }
        k = k + 1;
    }
    (false, d)
}

/// The 1-based number of the line on which the block opened on line
/// `start` closes, or the number of lines if it never does.
fn find_block_end(ls: &Vec<Vec<char>>, start: usize) -> (r: usize)
    requires
        total_len(ls.deep_view()) <= usize::MAX,
    ensures
        r == block_end_scan(ls.deep_view(), start as int, 0),
{
    let ghost lv = ls.deep_view();
    let mut depth: i128 = 0;
    let mut i: usize = start;
    if i >= ls.len() {
        return ls.len();
    }
    while i < ls.len()
        invariant
            start <= i <= ls.len(),
            lv == ls.deep_view(),
            total_len(lv) <= usize::MAX,
            -total_len(lv.take(i as int)) <= depth <= total_len(lv.take(i as int)),
            block_end_scan(lv, start as int, 0) == block_end_scan(lv, i as int, depth as int),
        decreases ls.len() - i,
    {
        proof {
            lemma_total_len_take(lv, i as int);
            lemma_total_len_take_le(lv, i + 1);
            assert(lv[i as int] == ls@[i as int]@);
        }
        let (closed, d) = brace_close_exec(&ls[i], depth, Ghost(total_len(lv.take(i as int)) as int));
        if closed {
            return i + 1;
        }
        depth = d;
        i = i + 1;
    }
    ls.len()
}

/// The first line from `j` on that is not blank.
fn skip_blank_exec(ls: &Vec<Vec<char>>, j: usize) -> (r: usize)
    ensures
        r == skip_blank(ls.deep_view(), j as int),
{
    let ghost lv = ls.deep_view();
    let mut k = j;
    while k < ls.len() && trimmed(&ls[k]).len() == 0
        invariant
            j <= k,
            lv == ls.deep_view(),
            skip_blank(lv, j as int) == skip_blank(lv, k as int),
        decreases ls.len() - k,
    {
        assert(lv[k as int] == ls@[k as int]@);
        k = k + 1;
    }
    proof {
        if k < ls.len() {
            assert(lv[k as int] == ls@[k as int]@);
        }
    }
    k
}

/// The `#[cfg(test)]` module ranges of a source split into lines.
fn cfg_test_ranges_of(ls: &Vec<Vec<char>>) -> (r: Vec<(usize, usize)>)
    requires
        total_len(ls.deep_view()) <= usize::MAX,
    ensures
        r@ == cfg_scan(ls.deep_view(), 0),
{
    let ghost lv = ls.deep_view();
    let mut ranges: Vec<(usize, usize)> = Vec::new();
    let mut i: usize = 0;
    while i < ls.len()
        invariant
            i <= ls.len(),
            lv == ls.deep_view(),
            total_len(lv) <= usize::MAX,
            ranges@ + cfg_scan(lv, i as int) == cfg_scan(lv, 0),
        decreases ls.len() - i,
    {
        assert(lv[i as int] == ls@[i as int]@);
        let t = trimmed(&ls[i]);
        if eq_str(&t, "#[cfg(test)]") {
            let j = skip_blank_exec(ls, i + 1);
            proof {
                lemma_skip_blank(lv, i + 1);
            }
            if j < ls.len() {
                assert(lv[j as int] == ls@[j as int]@);
                let tj = trimmed(&ls[j]);
                if starts_with_str(&tj, "mod ") {
                    let end = find_block_end(ls, j);
                    proof {
                        lemma_block_end_scan_bounds(lv, j as int, 0);
                    }
                    let ghost before = ranges@;
                    ranges.push((i + 1, end));
                    assert(ranges@ + cfg_scan(lv, end as int) =~= before + cfg_scan(lv, i as int));
                    i = end;
                    continue ;
                }
            }
        }
        i = i + 1;
    }
    assert(ranges@ =~= ranges@ + cfg_scan(lv, i as int));
    ranges
}

/// Find line ranges (1-indexed, inclusive) of `#[cfg(test)]` modules in Rust source.
pub fn find_cfg_test_ranges(source: &str) -> (r: Vec<(usize, usize)>)
    ensures
        r@ == spec_cfg_test_ranges(source@),
{
    let ls = source_lines(source);
    cfg_test_ranges_of(&ls)
}

// ---------------------------------------------------------------------------
// Rust: test attributes
// ---------------------------------------------------------------------------
/// A line holding a test attribute: `#[test]`, `#[tokio::test...` or
/// `#[rstest...`.
pub open spec fn is_test_attr(line: Seq<char>) -> bool {
    let t = trim(line);
    t == "#[test]"@ || "#[tokio::test"@.is_prefix_of(t) || "#[rstest"@.is_prefix_of(t)
}

/// Whether a test attribute is found walking up from line `i` (0-based) to
/// line `lo`, stopping at a blank line or a lone `}`.
pub open spec fn attr_scan(ls: Seq<Seq<char>>, i: int, lo: int) -> bool
    decreases i - lo + 1,
{
    if i < lo || i < 0 {
        false
    } else if i >= ls.len() {
        attr_scan(ls, i - 1, lo)
    } else if is_test_attr(ls[i]) {
        true
    } else if trim(ls[i]).len() == 0 || trim(ls[i]) == "}"@ {
        false
    } else {
        attr_scan(ls, i - 1, lo)
    }
}

/// `a - b`, or 0 when `b` is larger.
pub open spec fn sat_sub(a: int, b: int) -> int {
    if a >= b {
        a - b
    } else {
        0
    }
}

/// Whether one of the five lines above line `fn_line` (1-based) holds a
/// test attribute, with no blank line or lone `}` in between.
pub open spec fn spec_has_test_attribute_above(source: Seq<char>, fn_line: int) -> bool {
    let fn_idx = sat_sub(fn_line, 1);
    attr_scan(lines(source), fn_idx - 1, sat_sub(fn_idx, 5))
}

proof fn lemma_attr_scan_reaches(ls: Seq<Seq<char>>, i: int, lo: int, j: int)
    requires
        lo <= j <= i,
        0 <= j < ls.len(),
        is_test_attr(ls[j]),
        forall|k: int| j < k <= i && k < ls.len() ==> trim(#[trigger] ls[k]).len() > 0 && trim(ls[k]) != "}"@,
    ensures
        attr_scan(ls, i, lo),
    decreases i - j,
{
    if i > j {
        if i < ls.len() && !is_test_attr(ls[i]) {
            assert(trim(ls[i]).len() > 0 && trim(ls[i]) != "}"@);
        }
        lemma_attr_scan_reaches(ls, i - 1, lo, j);
    }
}

/// A Rust function is detected as a test when one of the five lines above
/// it holds a test attribute (`#[test]`, `#[tokio::test..]`, `#[rstest..]`)
/// and no line between that attribute and the function is blank or a lone
/// `}`: other attributes and lines in between are walked past.
pub proof fn lemma_test_attribute_found(source: Seq<char>, fn_line: int, j: int)
    requires
        fn_line >= 1,
        0 <= j < fn_line - 1,
        fn_line - 1 - 5 <= j,
        j < lines(source).len(),
        is_test_attr(lines(source)[j]),
        forall|k: int|
            j < k < fn_line - 1 && k < lines(source).len() ==> trim(#[trigger] lines(source)[k]).len() > 0
                && trim(lines(source)[k]) != "}"@,
    ensures
        spec_has_test_attribute_above(source, fn_line),
{
    let ls = lines(source);
    let fn_idx = sat_sub(fn_line, 1);
    lemma_attr_scan_reaches(ls, fn_idx - 1, sat_sub(fn_idx, 5), j);
}

fn is_test_attribute(line: &[char]) -> (r: bool)
    ensures
        r == is_test_attr(line@),
{
    let t = trimmed(line);
    eq_str(&t, "#[test]") || starts_with_str(&t, "#[tokio::test") || starts_with_str(&t, "#[rstest")
}

fn in_cfg_test_range(fn_line: usize, ranges: &[(usize, usize)]) -> (r: bool)
    ensures
        r == exists|k: int| 0 <= k < ranges@.len() && (#[trigger] ranges@[k]).0 <= fn_line <= ranges@[k].1,
{
    let mut i: usize = 0;
    while i < ranges.len()
        invariant
            i <= ranges.len(),
            forall|k: int| 0 <= k < i ==> !((#[trigger] ranges@[k]).0 <= fn_line <= ranges@[k].1),
        decreases ranges.len() - i,
    {
        let (s, e) = ranges[i];
        if fn_line >= s && fn_line <= e {
            return true;
        }
        i = i + 1;
    }
    false
}

/// Check if a Rust function at `fn_line` (1-indexed) is a test.
pub fn is_test_rust(source: &str, fn_line: usize, cfg_test_ranges: &[(usize, usize)]) -> (r: bool)
    ensures
        r == ((exists|k: int|
            0 <= k < cfg_test_ranges@.len() && (#[trigger] cfg_test_ranges@[k]).0 <= fn_line
                <= cfg_test_ranges@[k].1) || spec_has_test_attribute_above(source@, fn_line as int)),
{
    if in_cfg_test_range(fn_line, cfg_test_ranges) {
        return true;
    }
    has_test_attribute_above(source, fn_line)
}

fn has_test_attribute_above(source: &str, fn_line: usize) -> (r: bool)
    ensures
        r == spec_has_test_attribute_above(source@, fn_line as int),
{
    let ls = source_lines(source);
    let ghost lv = ls.deep_view();
    let fn_idx: usize = if fn_line >= 1 {
        fn_line - 1
    } else {
        0
    };
    let scan_start: usize = if fn_idx >= 5 {
        fn_idx - 5
    } else {
        0
    };
    let mut i: usize = fn_idx;
    while i > scan_start
        invariant
            scan_start <= i <= fn_idx,
            lv == ls.deep_view(),
            lv == lines(source@),
            fn_idx == sat_sub(fn_line as int, 1),
            scan_start == sat_sub(fn_idx as int, 5),
            spec_has_test_attribute_above(source@, fn_line as int) == attr_scan(
                lv,
                i - 1,
                scan_start as int,
            ),
        decreases i,
    {
        let k = i - 1;
        if k < ls.len() {
            assert(lv[k as int] == ls@[k as int]@);
            if is_test_attribute(&ls[k]) {
                return true;
            }
            let t = trimmed(&ls[k]);
            if t.len() == 0 || eq_str(&t, "}") {
                return false;
            }
        }
        i = k;
    }
    false
}

// ---------------------------------------------------------------------------
// Python
// ---------------------------------------------------------------------------
/// Whether a pytest decorator stands on one of the three lines above line
/// `fn_line` (1-based).
pub open spec fn spec_has_pytest_decorator(source: Seq<char>, fn_line: int) -> bool {
    let ls = lines(source);
    let end = sat_sub(fn_line, 1);
    let start = sat_sub(end, 3);
    exists|i: int|
        start <= i < end && i < ls.len() && ("@pytest.mark"@.is_prefix_of(trim(#[trigger] ls[i]))
            || "@pytest.fixture"@.is_prefix_of(trim(ls[i])))
}

fn has_pytest_decorator(source: &str, fn_line: usize) -> (r: bool)
    ensures
        r == spec_has_pytest_decorator(source@, fn_line as int),
{
    let ls = source_lines(source);
    let ghost lv = ls.deep_view();
    let end: usize = if fn_line >= 1 {
        fn_line - 1
    } else {
        0
    };
    let start: usize = if end >= 3 {
        end - 3
    } else {
        0
    };
    let mut i = start;
    while i < end
        invariant
            start <= i <= end,
            lv == ls.deep_view(),
            lv == lines(source@),
            end == sat_sub(fn_line as int, 1),
            start == sat_sub(end as int, 3),
            forall|k: int|
                start <= k < i && k < lv.len() ==> !("@pytest.mark"@.is_prefix_of(trim(#[trigger] lv[k]))
                    || "@pytest.fixture"@.is_prefix_of(trim(lv[k]))),
        decreases end - i,
    {
        if i >= ls.len() {
            return false;
        }
        assert(lv[i as int] == ls@[i as int]@);
        let t = trimmed(&ls[i]);
        if starts_with_str(&t, "@pytest.mark") || starts_with_str(&t, "@pytest.fixture") {
            return true;
        }
        i = i + 1;
    }
    false
}

/// What `char::is_alphanumeric` returns for `c`: whether it is alphabetic
/// or numeric in the sense of Unicode.
pub uninterp spec fn spec_is_alphanumeric(c: char) -> bool;

/// Calls `char::is_alphanumeric`; the contract names the result.
#[verifier::external_body]
pub(crate) fn is_alphanumeric(c: char) -> (r: bool)
    ensures
        r == spec_is_alphanumeric(c),
{
    c.is_alphanumeric()
}

/// The number of bytes of `c` in UTF-8, as `char::len_utf8` gives it.
pub open spec fn utf8_width(c: char) -> nat {
    let u = c as u32;
    if u < 0x80 {
        1
    } else if u < 0x800 {
        2
    } else if u < 0x10000 {
        3
    } else {
        4
    }
}

/// The number of bytes of `s` in UTF-8.
pub open spec fn utf8_len(s: Seq<char>) -> nat
    decreases s.len(),
{
    if s.len() == 0 {
        0
    } else {
        utf8_width(s[0]) + utf8_len(s.drop_first())
    }
}

/// Removing leading white space never adds bytes.
pub proof fn lemma_utf8_len_trim_start(s: Seq<char>)
    ensures
        utf8_len(trim_start(s)) <= utf8_len(s),
    decreases s.len(),
{
    if s.len() > 0 && is_ws(s[0]) {
        lemma_utf8_len_trim_start(s.drop_first());
    }
}

/// The byte length of the leading white space of a line.
pub open spec fn indent_bytes(line: Seq<char>) -> nat {
    (utf8_len(line) - utf8_len(trim_start(line))) as nat
}

/// Whether `line` opens a test class: `class Test` followed by `(`, `:`,
/// `_` or an alphanumeric character.
pub open spec fn opens_test_class(line: Seq<char>) -> bool {
    let t = trim_start(line);
    "class Test"@.is_prefix_of(t) && {
        let after = t.skip("class Test"@.len() as int);
        after.len() > 0 && {
            let c = after[0];
            c == '(' || c == ':' || spec_is_alphanumeric(c) || c == '_'
        }
    }
}

/// From line `i` on: the 0-based index of the first line that is not blank,
/// not a comment, and indented no deeper than `base` bytes; the number of
/// lines if there is none.
pub open spec fn pyblock_scan(ls: Seq<Seq<char>>, i: int, base: nat) -> int
    decreases ls.len() - i,
{
    if i < 0 || i >= ls.len() {
        ls.len() as int
    } else if trim(ls[i]).len() == 0 || "#"@.is_prefix_of(trim(ls[i])) {
        pyblock_scan(ls, i + 1, base)
    } else if indent_bytes(ls[i]) <= base {
        i
    } else {
        pyblock_scan(ls, i + 1, base)
    }
}

/// The test-class ranges among the first `n` lines.
pub open spec fn class_ranges_fold(ls: Seq<Seq<char>>, n: int) -> Seq<(usize, usize)>
    decreases n,
{
    if n <= 0 {
        seq![]
    } else {
        let prev = class_ranges_fold(ls, n - 1);
        let idx = n - 1;
        if opens_test_class(ls[idx]) {
            prev.push(((idx + 1) as usize, pyblock_scan(ls, idx + 1, indent_bytes(ls[idx])) as usize))
        } else {
            prev
        }
    }
}

/// The 1-based, inclusive line ranges of the `class Test*` blocks of a
/// Python source.
pub open spec fn spec_python_test_class_ranges(source: Seq<char>) -> Seq<(usize, usize)> {
    let ls = lines(source);
    class_ranges_fold(ls, ls.len() as int)
}

/// The UTF-8 byte length of `s`.
pub(crate) fn utf8_len_exec(s: &[char]) -> (r: u128)
    ensures
        r == utf8_len(s@),
{
    let mut acc: u128 = 0;
    let mut i: usize = 0;
    assert(s@.skip(0) =~= s@);
    while i < s.len()
        invariant
            i <= s.len(),
            acc <= 4 * i,
            utf8_len(s@) == acc + utf8_len(s@.skip(i as int)),
        decreases s.len() - i,
    {
        assert(s@.skip(i as int).drop_first() =~= s@.skip(i + 1));
        let u = s[i] as u32;
        let w: u128 = if u < 0x80 {
            1
        } else if u < 0x800 {
            2
        } else if u < 0x10000 {
            3
        } else {
            4
        };
        acc = acc + w;
        i = i + 1;
    }
    assert(s@.skip(i as int) =~= Seq::<char>::empty());
    acc
}

/// The byte length of the leading white space of `line`.
fn indent_bytes_exec(line: &[char]) -> (r: u128)
    ensures
        r == indent_bytes(line@),
{
    let rest = trimmed_start(line);
    let a = utf8_len_exec(line);
    let b = utf8_len_exec(&rest);
    proof {
        lemma_utf8_len_trim_start(line@);
    }
    a - b
}

fn opens_test_class_exec(line: &[char]) -> (r: bool)
    ensures
        r == opens_test_class(line@),
{
    let t = trimmed_start(line);
    let prefix = chars_of("class Test");
    if !crate::text::starts_with(&t, &prefix) {
        return false;
    }
    if t.len() <= prefix.len() {
        assert(t@.skip(prefix@.len() as int).len() == 0);
        return false;
    }
    let c = t[prefix.len()];
    assert(t@.skip(prefix@.len() as int)[0] == c);
    c == '(' || c == ':' || is_alphanumeric(c) || c == '_'
}

fn python_block_end(ls: &Vec<Vec<char>>, start_idx: usize, base_indent: u128) -> (r: usize)
    ensures
        r == pyblock_scan(ls.deep_view(), start_idx as int, base_indent as nat),
{
    let ghost lv = ls.deep_view();
    let mut i = start_idx;
    while i < ls.len()
        invariant
            start_idx <= i,
            lv == ls.deep_view(),
            pyblock_scan(lv, start_idx as int, base_indent as nat) == pyblock_scan(
                lv,
                i as int,
                base_indent as nat,
            ),
        decreases ls.len() - i,
    {
        assert(lv[i as int] == ls@[i as int]@);
        let t = trimmed(&ls[i]);
        if !(t.len() == 0 || starts_with_str(&t, "#")) {
            if indent_bytes_exec(&ls[i]) <= base_indent {
                return i;
            }
        }
        i = i + 1;
    }
    ls.len()
}

/// Find line ranges (1-indexed, inclusive) of `class Test*` blocks in Python source.
pub fn find_python_test_class_ranges(source: &str) -> (r: Vec<(usize, usize)>)
    ensures
        r@ == spec_python_test_class_ranges(source@),
{
    let ls = source_lines(source);
    let ghost lv = ls.deep_view();
    let mut ranges: Vec<(usize, usize)> = Vec::new();
    let mut idx: usize = 0;
    while idx < ls.len()
        invariant
            idx <= ls.len(),
            lv == ls.deep_view(),
            lv == lines(source@),
            ranges@ == class_ranges_fold(lv, idx as int),
        decreases ls.len() - idx,
    {
        assert(lv[idx as int] == ls@[idx as int]@);
        if opens_test_class_exec(&ls[idx]) {
            let base = indent_bytes_exec(&ls[idx]);
            let end = python_block_end(&ls, idx + 1, base);
            ranges.push((idx + 1, end));
        }
        idx = idx + 1;
    }
    ranges
}

fn in_python_test_class(source: &str, fn_line: usize) -> (r: bool)
    ensures
        r == exists|k: int|
            0 <= k < spec_python_test_class_ranges(source@).len() && (
            #[trigger] spec_python_test_class_ranges(source@)[k]).0 <= fn_line
                <= spec_python_test_class_ranges(source@)[k].1,
{
    let ranges = find_python_test_class_ranges(source);
    in_cfg_test_range(fn_line, &ranges)
}

/// The Python test conventions: a `test_` name, a pytest decorator just
/// above, or a place inside a `class Test*` block.
pub open spec fn spec_is_test_python(name: Seq<char>, source: Seq<char>, fn_line: int) -> bool {
    ||| "test_"@.is_prefix_of(name)
    ||| spec_has_pytest_decorator(source, fn_line)
    ||| exists|k: int|
        0 <= k < spec_python_test_class_ranges(source).len() && (
        #[trigger] spec_python_test_class_ranges(source)[k]).0 <= fn_line
            <= spec_python_test_class_ranges(source)[k].1
}

/// Check if a Python function is a test.
pub fn is_test_python(name: &str, source: &str, fn_line: usize) -> (r: bool)
    ensures
        r == spec_is_test_python(name@, source@, fn_line as int),
{
    let nv = chars_of(name);
    if starts_with_str(&nv, "test_") {
        return true;
    }
    if has_pytest_decorator(source, fn_line) {
        return true;
    }
    in_python_test_class(source, fn_line)
}

// ---------------------------------------------------------------------------
// TypeScript / JavaScript
// ---------------------------------------------------------------------------
/// The file-name endings of test files.
pub open spec fn ts_test_suffixes() -> Seq<Seq<char>> {
    seq![
        ".test.ts"@,
        ".test.tsx"@,
        ".test.js"@,
        ".test.jsx"@,
        ".spec.ts"@,
        ".spec.tsx"@,
        ".spec.js"@,
        ".spec.jsx"@,
    ]
}

/// The TypeScript / JavaScript test conventions: a `test_` name, a file
/// under `__tests__`, or a test-file ending.
pub open spec fn spec_is_test_typescript(name: Seq<char>, file: Seq<char>) -> bool {
    ||| "test_"@.is_prefix_of(name)
    ||| has_sub(file, "__tests__"@)
    ||| exists|i: int| 0 <= i < ts_test_suffixes().len() && (#[trigger] ts_test_suffixes()[i]).is_suffix_of(file)
}

/// Check if a TypeScript / JavaScript function is a test.
pub fn is_test_typescript(name: &str, file: &str) -> (r: bool)
    ensures
        r == spec_is_test_typescript(name@, file@),
{
    let nv = chars_of(name);
    if starts_with_str(&nv, "test_") {
        return true;
    }
    let fv = chars_of(file);
    if contains_str(&fv, "__tests__") {
        return true;
    }
    let suffixes = [
        ".test.ts",
        ".test.tsx",
        ".test.js",
        ".test.jsx",
        ".spec.ts",
        ".spec.tsx",
        ".spec.js",
        ".spec.jsx",
    ];
    let ghost views = suffixes@.map_values(|s: &str| s@);
    assert(views =~= ts_test_suffixes());
    let mut i: usize = 0;
    while i < 8
        invariant
            i <= 8,
            suffixes@.len() == 8,
            views == suffixes@.map_values(|s: &str| s@),
            views == ts_test_suffixes(),
            fv@ == file@,
            forall|k: int| 0 <= k < i ==> !(#[trigger] ts_test_suffixes()[k]).is_suffix_of(file@),
        decreases 8 - i,
    {
        if ends_with_str(&fv, suffixes[i]) {
            assert(views[i as int] == suffixes@[i as int]@);
            return true;
        }
        assert(views[i as int] == suffixes@[i as int]@);
        i = i + 1;
    }
    false
}

} // verus!
