//! Block measurement: line counting and complexity for function bodies.
use vstd::prelude::*;

use crate::scanner::patterns::{regex_match_starts, spec_regex_match_starts};
use crate::text::{chars_of, starts_with_str, string_of, trim, trimmed};

verus! {

/// The pattern whose matches count the decision points of a function body.
pub open spec fn complexity_pattern() -> Seq<char> {
    r"\b(if|else if|while|for|loop|match)\b|&&|\|\|"@
}

/// Reads the braces of `line` from index `k` on, at nesting `depth`, with
/// `found` telling whether a `{` has been seen: whether a `}` closes the
/// block, and otherwise the nesting and `found` after the line.
pub open spec fn brace_step(line: Seq<char>, k: int, depth: int, found: bool) -> (bool, int, bool)
    decreases line.len() - k,
{
    if k < 0 || k >= line.len() {
        (false, depth, found)
    } else if line[k] == '{' {
        brace_step(line, k + 1, depth + 1, true)
    } else if line[k] == '}' {
        if found && depth - 1 == 0 {
            (true, depth - 1, found)
        } else {
            brace_step(line, k + 1, depth - 1, found)
        }
    } else {
        brace_step(line, k + 1, depth, found)
    }
}

/// The brace-counted length of a block, from line `i` on, after `count`
/// lines: the lines up to the one whose `}` closes the block, at most 201;
/// when no `{` is ever seen, none.
pub open spec fn brace_count_scan(
    ls: Seq<Seq<char>>,
    i: int,
    depth: int,
    found: bool,
    count: nat,
) -> Option<nat>
    decreases ls.len() - i,
{
    if i < 0 || i >= ls.len() {
        if found {
            Some(count)
        } else {
            None
        }
    } else {
        let c = count + 1;
        let (closed, d, f) = brace_step(ls[i], 0, depth, found);
        if closed {
            Some(c)
        } else if c > 200 {
            Some(c)
        } else {
            brace_count_scan(ls, i + 1, d, f, c)
        }
    }
}

/// The number of leading spaces of a line.
pub open spec fn lead_spaces(s: Seq<char>) -> nat
    decreases s.len(),
{
    if s.len() > 0 && s[0] == ' ' {
        1 + lead_spaces(s.drop_first())
    } else {
        0
    }
}

/// The indentation-counted length of a block, from line `i` on, after
/// `count` lines, for a block whose first line has `base` leading spaces.
pub open spec fn indent_count_scan(ls: Seq<Seq<char>>, i: int, base: nat, count: nat) -> nat
    decreases ls.len() - i,
{
    if i < 0 || i >= ls.len() {
        count
    } else {
        let c = count + 1;
        if c > 1 && trim(ls[i]).len() == 0 {
            indent_count_scan(ls, i + 1, base, c)
        } else if c > 1 && lead_spaces(ls[i]) <= base && !"#"@.is_prefix_of(trim(ls[i])) {
            (c - 1) as nat
        } else if c > 200 {
            c
        } else {
            indent_count_scan(ls, i + 1, base, c)
        }
    }
}

/// The number of lines of the block starting at line `start` (0-based),
/// counted by braces, or by indentation when no brace is found.
pub open spec fn spec_count_block_lines(ls: Seq<Seq<char>>, start: int) -> nat {
    match brace_count_scan(ls, start, 0, false, 0) {
        Some(n) => n,
        None => {
            let base = if 0 <= start < ls.len() {
                lead_spaces(ls[start])
            } else {
                0
            };
            indent_count_scan(ls, start, base, 0)
        },
    }
}

/// The lines joined with `\n` between them.
pub open spec fn join_lines(ls: Seq<Seq<char>>) -> Seq<char>
    decreases ls.len(),
{
    if ls.len() == 0 {
        seq![]
    } else if ls.len() == 1 {
        ls[0]
    } else {
        join_lines(ls.drop_last()) + seq!['\n'] + ls.last()
    }
}

/// The smaller of two numbers.
pub open spec fn min_nat(a: nat, b: nat) -> nat {
    if a <= b {
        a
    } else {
        b
    }
}

/// The number of lines and the complexity of the function starting on line
/// `start_line` (1-based): the block's lines, and one more than the number
/// of decision points in them, counting at most 50.
pub open spec fn spec_measure_block(ls: Seq<Seq<char>>, start_line: int) -> (nat, nat) {
    let idx = if start_line >= 1 {
        start_line - 1
    } else {
        0
    };
    let line_count = spec_count_block_lines(ls, idx);
    let lo = if idx <= ls.len() {
        idx
    } else {
        ls.len() as int
    };
    let hi = if idx + line_count <= ls.len() {
        idx + line_count
    } else {
        ls.len() as int
    };
    let snippet = join_lines(ls.subrange(lo, hi));
    (line_count, min_nat(spec_regex_match_starts(complexity_pattern(), snippet).len(), 50) + 1)
}

proof fn lemma_brace_count_scan_bound(ls: Seq<Seq<char>>, i: int, depth: int, found: bool, count: nat)
    requires
        0 <= i,
        count <= 200,
    ensures
        match brace_count_scan(ls, i, depth, found, count) {
            Some(n) => n <= 201,
            None => i >= ls.len() || count + ls.len() - i <= 200,
        },
    decreases ls.len() - i,
{
    if i < ls.len() {
        let c = count + 1;
        let (closed, d, f) = brace_step(ls[i], 0, depth, found);
        if !closed && c <= 200 {
            lemma_brace_count_scan_bound(ls, i + 1, d, f, c);
        }
    }
}

proof fn lemma_indent_count_scan_bound(ls: Seq<Seq<char>>, i: int, base: nat, count: nat)
    requires
        0 <= i,
    ensures
        indent_count_scan(ls, i, base, count) <= count + if i < ls.len() {
            ls.len() - i
        } else {
            0
        },
    decreases ls.len() - i,
{
    if i < ls.len() {
        lemma_indent_count_scan_bound(ls, i + 1, base, count + 1);
    }
}

/// A measured block never has more than 201 lines, and its complexity is
/// between 1 and 51.
pub proof fn lemma_measure_block_bounds(ls: Seq<Seq<char>>, start_line: int)
    ensures
        spec_measure_block(ls, start_line).0 <= 201,
        1 <= spec_measure_block(ls, start_line).1 <= 51,
{
    let idx = if start_line >= 1 {
        start_line - 1
    } else {
        0
    };
    lemma_brace_count_scan_bound(ls, idx, 0, false, 0);
    let base = if 0 <= idx < ls.len() {
        lead_spaces(ls[idx])
    } else {
        0
    };
    lemma_indent_count_scan_bound(ls, idx, base, 0);
}

proof fn lemma_brace_step_no_open(line: Seq<char>, k: int, depth: int)
    requires
        0 <= k,
        forall|j: int| 0 <= j < line.len() ==> line[j] != '{',
    ensures
        !brace_step(line, k, depth, false).0,
        !brace_step(line, k, depth, false).2,
    decreases line.len() - k,
{
    if k < line.len() {
        if line[k] == '}' {
            lemma_brace_step_no_open(line, k + 1, depth - 1);
        } else {
            lemma_brace_step_no_open(line, k + 1, depth);
        }
    }
}

proof fn lemma_brace_scan_none(ls: Seq<Seq<char>>, i: int, depth: int, count: nat)
    requires
        0 <= i <= ls.len(),
        count + ls.len() - i <= 200,
        forall|k: int, j: int| i <= k < ls.len() && 0 <= j < ls[k].len() ==> ls[k][j] != '{',
    ensures
        brace_count_scan(ls, i, depth, false, count) is None,
    decreases ls.len() - i,
{
    if i < ls.len() {
        lemma_brace_step_no_open(ls[i], 0, depth);
        let (closed, d, f) = brace_step(ls[i], 0, depth, false);
        lemma_brace_scan_none(ls, i + 1, d, count + 1);
    }
}

/// Whether `l` ends an indentation block whose first line has `base`
/// leading spaces: it is not blank, not a `#` comment, and indented no
/// deeper than the first line.
pub open spec fn ends_indent_block(l: Seq<char>, base: nat) -> bool {
    trim(l).len() > 0 && lead_spaces(l) <= base && !"#"@.is_prefix_of(trim(l))
}

proof fn lemma_indent_scan_to_end(ls: Seq<Seq<char>>, i: int, base: nat, count: nat, e: int)
    requires
        0 <= i <= e <= ls.len(),
        count >= 1,
        count + ls.len() - i <= 200,
        forall|k: int| i <= k < e ==> !ends_indent_block(#[trigger] ls[k], base),
        e == ls.len() || ends_indent_block(ls[e], base),
    ensures
        indent_count_scan(ls, i, base, count) == count + (e - i),
    decreases ls.len() - i,
{
    if i < ls.len() && i < e {
        assert(!ends_indent_block(ls[i], base));
        lemma_indent_scan_to_end(ls, i + 1, base, count + 1, e);
    }
}

/// A block without braces, of fewer than 201 lines to the end of the
/// source, runs from its first line up to (not including) the first later
/// line that is neither blank, nor a `#` comment, nor indented deeper than
/// the first line; to the end of the source when there is none. Blank
/// lines and comments inside the body never end it.
pub proof fn lemma_indent_block_extent(ls: Seq<Seq<char>>, start_line: int, e: int)
    requires
        1 <= start_line,
        start_line - 1 < e <= ls.len(),
        ls.len() - (start_line - 1) <= 200,
        forall|k: int, j: int| start_line - 1 <= k < ls.len() && 0 <= j < ls[k].len() ==> ls[k][j] != '{',
        forall|k: int|
            start_line - 1 < k < e ==> !(trim(#[trigger] ls[k]).len() > 0 && lead_spaces(ls[k]) <= lead_spaces(
                ls[start_line - 1],
            ) && !"#"@.is_prefix_of(trim(ls[k]))),
        e == ls.len() || (trim(ls[e]).len() > 0 && lead_spaces(ls[e]) <= lead_spaces(ls[start_line - 1])
            && !"#"@.is_prefix_of(trim(ls[e]))),
    ensures
        spec_measure_block(ls, start_line).0 == e - (start_line - 1),
{
    let idx = start_line - 1;
    let base = lead_spaces(ls[idx]);
    lemma_brace_scan_none(ls, idx, 0, 0);
    assert forall|k: int| idx + 1 <= k < e implies !ends_indent_block(#[trigger] ls[k], base) by {}
    lemma_indent_scan_to_end(ls, idx + 1, base, 1, e);
}

/// Reads the braces of one line as `brace_step` does.
fn brace_step_exec(line: &Vec<char>, depth: i128, found: bool, Ghost(bound): Ghost<int>) -> (r: (
    bool,
    i128,
    bool,
))
    requires
        -bound <= depth <= bound,
        bound + line@.len() <= 300 * 0x1_0000_0000_0000_0000,
    ensures
        (r.0, r.1 as int, r.2) == brace_step(line@, 0, depth as int, found),
        -(bound + line@.len()) <= r.1 <= bound + line@.len(),
{
    let mut d = depth;
    let mut f = found;
    let mut k: usize = 0;
    while k < line.len()
        invariant
            k <= line@.len(),
            -(bound + k) <= d <= bound + k,
            bound + line@.len() <= 300 * 0x1_0000_0000_0000_0000,
            brace_step(line@, 0, depth as int, found) == brace_step(line@, k as int, d as int, f),
        decreases line.len() - k,
    {
        let c = line[k];
        if c == '{' {
            d = d + 1;
            f = true;
        } else if c == '}' {
            if f && d - 1 == 0 {
                return (true, d - 1, f);
            }
            d = d - 1;
        }
        k = k + 1;
    }
    (false, d, f)
}

/// The brace-counted length of the block starting at line `start`.
fn count_brace_block(ls: &Vec<Vec<char>>, start: usize) -> (r: Option<usize>)
    ensures
        match r {
            Some(n) => brace_count_scan(ls.deep_view(), start as int, 0, false, 0) == Some(n as nat),
            None => brace_count_scan(ls.deep_view(), start as int, 0, false, 0) is None,
        },
{
    let ghost lv = ls.deep_view();
    if start >= ls.len() {
        return None;
    }
    let mut depth: i128 = 0;
    let mut found = false;
    let mut count: usize = 0;
    let mut i = start;
    while i < ls.len()
        invariant
            start <= i <= ls.len(),
            lv == ls.deep_view(),
            count <= 200,
            count == i - start,
            -(count * 0x1_0000_0000_0000_0000) <= depth <= count * 0x1_0000_0000_0000_0000,
            brace_count_scan(lv, start as int, 0, false, 0) == brace_count_scan(
                lv,
                i as int,
                depth as int,
                found,
                count as nat,
            ),
        decreases ls.len() - i,
    {
        assert(lv[i as int] == ls@[i as int]@);
        count = count + 1;
        let line_len = ls[i].len();
        assert(ls@[i as int]@.len() == line_len);
        assert(line_len <= 0xffff_ffff_ffff_ffff);
        let (closed, d, f) = brace_step_exec(&ls[i], depth, found, Ghost(((count - 1) * 0x1_0000_0000_0000_0000) as int));
        if closed {
            return Some(count);
        }
        if count > 200 {
            return Some(count);
        }
        depth = d;
        found = f;
        i = i + 1;
    }
    if found {
        Some(count)
    } else {
        None
    }
}

/// The number of leading spaces of a line.
fn lead_spaces_exec(s: &[char]) -> (r: usize)
    ensures
        r == lead_spaces(s@),
{
    let mut i: usize = 0;
    assert(s@.skip(0) =~= s@);
    while i < s.len() && s[i] == ' '
        invariant
            i <= s.len(),
            lead_spaces(s@) == i + lead_spaces(s@.skip(i as int)),
        decreases s.len() - i,
    {
        assert(s@.skip(i as int).drop_first() =~= s@.skip(i + 1));
        i = i + 1;
    }
    i
}

/// The indentation-counted length of the block starting at line `start`.
fn count_indent_block(ls: &Vec<Vec<char>>, start: usize) -> (r: usize)
    ensures
        r == indent_count_scan(
            ls.deep_view(),
            start as int,
            if start < ls.deep_view().len() {
                lead_spaces(ls.deep_view()[start as int])
            } else {
                0
            },
            0,
        ),
{
    let ghost lv = ls.deep_view();
    let base: usize = if start < ls.len() {
        assert(lv[start as int] == ls@[start as int]@);
        lead_spaces_exec(&ls[start])
    } else {
        0
    };
    if start >= ls.len() {
        return 0;
    }
    let mut count: usize = 0;
    let mut i = start;
    while i < ls.len()
        invariant
            start <= i <= ls.len(),
            lv == ls.deep_view(),
            count == i - start,
            indent_count_scan(
                lv,
                start as int,
                if start < lv.len() {
                    lead_spaces(lv[start as int])
                } else {
                    0
                },
                0,
            ) == indent_count_scan(lv, i as int, base as nat, count as nat),
        decreases ls.len() - i,
    {
        assert(lv[i as int] == ls@[i as int]@);
        count = count + 1;
        if count > 1 {
            let t = trimmed(&ls[i]);
            if t.len() == 0 {
                i = i + 1;
                continue ;
            }
            let depth = lead_spaces_exec(&ls[i]);
            if depth <= base && !starts_with_str(&t, "#") {
                return count - 1;
            }
        }
        if count > 200 {
            return count;
        }
        i = i + 1;
    }
    count
}

/// The number of lines of the block starting at line `start` (0-based).
fn count_block_lines(ls: &Vec<Vec<char>>, start: usize) -> (r: usize)
    ensures
        r == spec_count_block_lines(ls.deep_view(), start as int),
{
    match count_brace_block(ls, start) {
        Some(n) => n,
        None => count_indent_block(ls, start),
    }
}

/// The lines `lo..hi` joined with `\n` between them.
fn join_range(ls: &Vec<Vec<char>>, lo: usize, hi: usize) -> (r: Vec<char>)
    requires
        lo <= hi <= ls.len(),
    ensures
        r@ == join_lines(ls.deep_view().subrange(lo as int, hi as int)),
{
    let ghost lv = ls.deep_view();
    let mut out: Vec<char> = Vec::new();
    let mut k = lo;
    assert(lv.subrange(lo as int, lo as int) =~= Seq::<Seq<char>>::empty());
    while k < hi
        invariant
            lo <= k <= hi <= ls.len(),
            lv == ls.deep_view(),
            out@ == join_lines(lv.subrange(lo as int, k as int)),
        decreases hi - k,
    {
        assert(lv[k as int] == ls@[k as int]@);
        assert(lv.subrange(lo as int, k + 1).drop_last() =~= lv.subrange(lo as int, k as int));
        if k > lo {
            out.push('\n');
        }
        let ghost before = out@;
        crate::text::push_chars(&mut out, &ls[k]);
        proof {
            if k == lo {
                assert(lv.subrange(lo as int, k + 1) =~= seq![lv[k as int]]);
                assert(out@ =~= lv[k as int]);
            } else {
                assert(out@ =~= join_lines(lv.subrange(lo as int, k as int)) + seq!['\n'] + lv[k as int]);
            }
        }
        k = k + 1;
    }
    out
}

/// The number of lines and the complexity of the function starting on line
/// `start_line` (1-based), for a source split into lines.
pub fn measure_block_lines(ls: &Vec<Vec<char>>, start_line: usize) -> (r: (usize, usize))
    ensures
        (r.0 as nat, r.1 as nat) == spec_measure_block(ls.deep_view(), start_line as int),
{
    let idx: usize = if start_line >= 1 {
        start_line - 1
    } else {
        0
    };
    let line_count = count_block_lines(ls, idx);
    let lo = if idx <= ls.len() {
        idx
    } else {
        ls.len()
    };
    let hi = if line_count <= ls.len() && idx <= ls.len() - line_count {
        idx + line_count
    } else {
        ls.len()
    };
    let snippet = join_range(ls, lo, hi);
    let text = string_of(&snippet);
    let matches = regex_match_starts(r"\b(if|else if|while|for|loop|match)\b|&&|\|\|", text.as_str());
    let n = if matches.len() <= 50 {
        matches.len()
    } else {
        50
    };
    (line_count, n + 1)
}

/// The number of lines and the complexity of the function starting on line
/// `start_line` (1-based).
pub fn measure_block(lines: &[String], start_line: usize) -> (r: (usize, usize))
    ensures
        (r.0 as nat, r.1 as nat) == spec_measure_block(
            lines@.map_values(|l: String| l@),
            start_line as int,
        ),
{
    let mut ls: Vec<Vec<char>> = Vec::new();
    let mut i: usize = 0;
    while i < lines.len()
        invariant
            i <= lines.len(),
            ls.deep_view() == lines@.map_values(|l: String| l@).take(i as int),
        decreases lines.len() - i,
    {
        let ghost before = ls.deep_view();
        let v = chars_of(lines[i].as_str());
        assert(v.deep_view() =~= v@);
        ls.push(v);
        assert(ls.deep_view() =~= before.push(lines@[i as int]@));
        assert(lines@.map_values(|l: String| l@).take(i + 1) =~= lines@.map_values(|l: String| l@).take(
            i as int,
        ).push(lines@[i as int]@));
        i = i + 1;
    }
    assert(lines@.map_values(|l: String| l@).take(i as int) =~= lines@.map_values(|l: String| l@));
    measure_block_lines(&ls, start_line)
}

} // verus!
