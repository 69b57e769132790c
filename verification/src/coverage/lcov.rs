//! Parsing of LCOV tracefiles.
use vstd::prelude::*;

use crate::error::SpecStoreError;
use crate::path_map::PathMap;
use crate::text::{
    chars_of, eq_str, find_char, lines, parse_u64, parse_unsigned, parse_usize, slice_to_vec,
    split_lines, string_of, strip_prefix, strip_prefix_str, trim, trimmed,
};

verus! {

/// Line totals of one source file, from its `LF:` and `LH:` records.
#[derive(Debug, Clone)]
pub struct FileCoverage {
    pub path: String,
    pub lines_found: u64,
    pub lines_hit: u64,
}

impl FileCoverage {
    /// A copy of this record.
    pub fn clone_coverage(&self) -> (r: FileCoverage)
        ensures
            r@ == self@,
    {
        FileCoverage { path: self.path.clone(), lines_found: self.lines_found, lines_hit: self.lines_hit }
    }
}

impl View for FileCoverage {
    type V = (Seq<char>, u64, u64);

    open spec fn view(&self) -> (Seq<char>, u64, u64) {
        (self.path@, self.lines_found, self.lines_hit)
    }
}

/// The hit count of one source line, from a `DA:` record.
#[derive(Debug, Clone, Copy)]
pub struct LineCoverage {
    pub line: usize,
    pub hits: u64,
}

/// A number in an `LF:` or `LH:` record; what does not parse counts as 0.
pub open spec fn count_or_zero(s: Seq<char>) -> u64 {
    match parse_unsigned(s, u64::MAX as nat) {
        Some(v) => v as u64,
        None => 0,
    }
}

/// What has been read of a tracefile: the finished records, the file of the
/// record being read, and its `LF:` and `LH:` values so far.
pub struct SummaryState {
    pub results: Map<Seq<char>, (Seq<char>, u64, u64)>,
    pub cur: Option<Seq<char>>,
    pub lf: u64,
    pub lh: u64,
}

/// Reads one line of a tracefile (before trimming) for the line totals.
pub open spec fn summary_step(st: SummaryState, raw: Seq<char>) -> SummaryState {
    let line = trim(raw);
    if let Some(path) = strip_prefix(line, "SF:"@) {
        SummaryState { results: st.results, cur: Some(path), lf: 0, lh: 0 }
    } else if let Some(v) = strip_prefix(line, "LF:"@) {
        SummaryState { lf: count_or_zero(v), ..st }
    } else if let Some(v) = strip_prefix(line, "LH:"@) {
        SummaryState { lh: count_or_zero(v), ..st }
    } else if line == "end_of_record"@ {
        match st.cur {
            Some(path) => SummaryState {
                results: st.results.insert(path, (path, st.lf, st.lh)),
                cur: None,
                ..st
            },
            None => st,
        }
    } else {
        st
    }
}

/// The state after reading the lines `ls` for the line totals.
pub open spec fn summary_fold(ls: Seq<Seq<char>>) -> SummaryState
    decreases ls.len(),
{
    if ls.len() == 0 {
        SummaryState { results: Map::empty(), cur: None, lf: 0, lh: 0 }
    } else {
        summary_step(summary_fold(ls.drop_last()), ls.last())
    }
}

/// The line totals of every complete record of a tracefile, by file.
pub open spec fn spec_parse_content(content: Seq<char>) -> Map<Seq<char>, (Seq<char>, u64, u64)> {
    summary_fold(lines(content)).results
}

/// A tracefile with no `end_of_record` line yields no line totals: an
/// unfinished record is never counted.
pub proof fn lemma_unfinished_records_ignored(ls: Seq<Seq<char>>)
    requires
        forall|i: int| 0 <= i < ls.len() ==> trim(#[trigger] ls[i]) != "end_of_record"@,
    ensures
        summary_fold(ls).results == Map::<Seq<char>, (Seq<char>, u64, u64)>::empty(),
    decreases ls.len(),
{
    if ls.len() > 0 {
        assert(trim(ls[ls.len() - 1]) != "end_of_record"@);
        lemma_unfinished_records_ignored(ls.drop_last());
    }
}

/// Each record's path is the key it is stored under.
pub proof fn lemma_summary_paths_are_keys(ls: Seq<Seq<char>>)
    ensures
        forall|k: Seq<char>| #[trigger] summary_fold(ls).results.contains_key(k) ==> summary_fold(
            ls,
        ).results[k].0 == k,
    decreases ls.len(),
{
    if ls.len() > 0 {
        lemma_summary_paths_are_keys(ls.drop_last());
    }
}

/// The view of an optional character vector.
pub open spec fn opt_chars(o: Option<Vec<char>>) -> Option<Seq<char>> {
    match o {
        Some(v) => Some(v@),
        None => None,
    }
}

/// Reads the line totals (`SF:`, `LF:`, `LH:`, `end_of_record`) of an LCOV
/// tracefile. A record counts only once its `end_of_record` is read; a
/// number that does not parse counts as 0; a later record for the same file
/// replaces an earlier one.
pub fn parse_content(content: &str) -> (r: Result<PathMap<FileCoverage>, SpecStoreError>)
    ensures
        r matches Ok(m) && m@ == spec_parse_content(content@),
        r matches Ok(m) && forall|k: Seq<char>| #[trigger] m@.contains_key(k) ==> m@[k].0 == k,
{
    proof {
        lemma_summary_paths_are_keys(lines(content@));
    }
    let cv = chars_of(content);
    let ls = split_lines(&cv);
    let mut results: PathMap<FileCoverage> = PathMap::new();
    let mut cur: Option<Vec<char>> = None;
    let mut lf: u64 = 0;
    let mut lh: u64 = 0;
    let mut i: usize = 0;
    while i < ls.len()
        invariant
            i <= ls.len(),
            ls.deep_view() == lines(content@),
            ({
                let st = summary_fold(ls.deep_view().take(i as int));
                &&& results@ == st.results
                &&& opt_chars(cur) == st.cur
                &&& lf == st.lf
                &&& lh == st.lh
            }),
        decreases ls.len() - i,
    {
        assert(ls.deep_view().take(i + 1).drop_last() =~= ls.deep_view().take(i as int));
        assert(ls.deep_view()[i as int] == ls[i as int]@);
        let line = trimmed(&ls[i]);
        if let Some(path) = strip_prefix_str(&line, "SF:") {
            cur = Some(path);
            lf = 0;
            lh = 0;
        } else if let Some(v) = strip_prefix_str(&line, "LF:") {
            lf = match parse_u64(&v) {
                Some(n) => n,
                None => 0,
            };
        } else if let Some(v) = strip_prefix_str(&line, "LH:") {
            lh = match parse_u64(&v) {
                Some(n) => n,
                None => 0,
            };
        } else if eq_str(&line, "end_of_record") {
            if let Some(path) = cur {
                let p = string_of(&path);
                let fc = FileCoverage { path: string_of(&path), lines_found: lf, lines_hit: lh };
                results.insert(p, fc);
                cur = None;
            }
        }
        i = i + 1;
    }
    assert(ls.deep_view().take(i as int) =~= ls.deep_view());
    Ok(results)
}

/// What has been read of a tracefile for its line hits: the finished
/// records, the file of the record being read, and its `DA:` lines so far.
pub struct DetailState {
    pub results: Map<Seq<char>, Seq<LineCoverage>>,
    pub cur: Option<Seq<char>>,
    pub lines: Seq<LineCoverage>,
}

/// The `DA:<line>,<hits>` data after the prefix, when both numbers parse.
pub open spec fn parse_da(da: Seq<char>) -> Option<LineCoverage> {
    match crate::text::first_index_of(da, ',') {
        Some(k) => {
            match (
                parse_unsigned(da.take(k), usize::MAX as nat),
                parse_unsigned(da.skip(k + 1), u64::MAX as nat),
            ) {
                (Some(ln), Some(hits)) => Some(LineCoverage { line: ln as usize, hits: hits as u64 }),
                _ => None,
            }
        },
        None => None,
    }
}

/// Reads one line of a tracefile (before trimming) for the line hits.
pub open spec fn detail_step(st: DetailState, raw: Seq<char>) -> DetailState {
    let line = trim(raw);
    if let Some(path) = strip_prefix(line, "SF:"@) {
        DetailState { results: st.results, cur: Some(path), lines: Seq::empty() }
    } else if let Some(da) = strip_prefix(line, "DA:"@) {
        match parse_da(da) {
            Some(lc) => DetailState { lines: st.lines.push(lc), ..st },
            None => st,
        }
    } else if line == "end_of_record"@ {
        match st.cur {
            Some(path) => DetailState {
                results: st.results.insert(path, st.lines),
                cur: None,
                lines: Seq::empty(),
            },
            None => st,
        }
    } else {
        st
    }
}

/// The state after reading the lines `ls` for the line hits.
pub open spec fn detail_fold(ls: Seq<Seq<char>>) -> DetailState
    decreases ls.len(),
{
    if ls.len() == 0 {
        DetailState { results: Map::empty(), cur: None, lines: Seq::empty() }
    } else {
        detail_step(detail_fold(ls.drop_last()), ls.last())
    }
}

/// The `DA:` lines of every complete record of a tracefile, by file.
pub open spec fn spec_parse_detail_content(content: Seq<char>) -> Map<Seq<char>, Seq<LineCoverage>> {
    detail_fold(lines(content)).results
}

/// Reads the `DA:<line>,<hits>` data of an LCOV tracefile.
pub fn parse_da_exec(da: &[char]) -> (r: Option<LineCoverage>)
    ensures
        r == parse_da(da@),
{
    match find_char(da, ',') {
        Some(k) => {
            let a = slice_to_vec(da, 0, k);
            let b = slice_to_vec(da, k + 1, da.len());
            assert(a@ =~= da@.take(k as int));
            assert(b@ =~= da@.skip(k + 1));
            match (parse_usize(&a), parse_u64(&b)) {
                (Some(ln), Some(hits)) => Some(LineCoverage { line: ln, hits }),
                _ => None,
            }
        },
        None => None,
    }
}

/// Parse LCOV content and extract per-line coverage data (DA lines).
///
/// A record counts only once its `end_of_record` is read; a `DA:` line whose
/// numbers do not parse is skipped; a later record for the same file
/// replaces an earlier one.
pub fn parse_detail_content(content: &str) -> (r: Result<PathMap<Vec<LineCoverage>>, SpecStoreError>)
    ensures
        r matches Ok(m) && m@ == spec_parse_detail_content(content@),
{
    let cv = chars_of(content);
    let ls = split_lines(&cv);
    let mut results: PathMap<Vec<LineCoverage>> = PathMap::new();
    let mut cur: Option<Vec<char>> = None;
    let mut acc: Vec<LineCoverage> = Vec::new();
    let mut i: usize = 0;
    while i < ls.len()
        invariant
            i <= ls.len(),
            ls.deep_view() == lines(content@),
            ({
                let st = detail_fold(ls.deep_view().take(i as int));
                &&& results@ == st.results
                &&& opt_chars(cur) == st.cur
                &&& acc@ == st.lines
            }),
        decreases ls.len() - i,
    {
        assert(ls.deep_view().take(i + 1).drop_last() =~= ls.deep_view().take(i as int));
        assert(ls.deep_view()[i as int] == ls[i as int]@);
        let line = trimmed(&ls[i]);
        if let Some(path) = strip_prefix_str(&line, "SF:") {
            cur = Some(path);
            acc = Vec::new();
        } else if let Some(da) = strip_prefix_str(&line, "DA:") {
            if let Some(lc) = parse_da_exec(&da) {
                acc.push(lc);
            }
        } else if eq_str(&line, "end_of_record") {
            if let Some(path) = cur {
                let mut taken: Vec<LineCoverage> = Vec::new();
                std::mem::swap(&mut taken, &mut acc);
                results.insert(string_of(&path), taken);
                cur = None;
            }
        }
        i = i + 1;
    }
    assert(ls.deep_view().take(i as int) =~= ls.deep_view());
    Ok(results)
}

// ---------------------------------------------------------------------------
// Paths relative to the project root
// ---------------------------------------------------------------------------
/// A path with the project-root prefix `root` removed when it has it.
pub open spec fn rel_path(path: Seq<char>, root: Seq<char>) -> Seq<char> {
    match strip_prefix(path, root) {
        Some(rest) => rest,
        None => path,
    }
}

/// The line totals re-keyed by relative path, entry by entry in the order
/// of `keys`; a later entry replaces an earlier one with the same relative
/// path.
pub open spec fn relativised(
    keys: Seq<Seq<char>>,
    m: Map<Seq<char>, (Seq<char>, u64, u64)>,
    root: Seq<char>,
) -> Map<Seq<char>, (Seq<char>, u64, u64)>
    decreases keys.len(),
{
    if keys.len() == 0 {
        Map::empty()
    } else {
        let k = keys.last();
        let r = rel_path(k, root);
        relativised(keys.drop_last(), m, root).insert(r, (r, m[k].1, m[k].2))
    }
}

/// The path of `path` relative to `root`.
fn rel_path_exec(path: &str, root: &str) -> (r: String)
    ensures
        r@ == rel_path(path@, root@),
{
    let pv = chars_of(path);
    match strip_prefix_str(&pv, root) {
        Some(rest) => string_of(&rest),
        None => string_of(&pv),
    }
}

/// Makes the paths of parsed line totals relative to the project root,
/// given as `root` with its trailing `/`; the record's path changes with
/// its key.
pub fn relativise_paths(results: &PathMap<FileCoverage>, root: &str) -> (r: PathMap<FileCoverage>)
    ensures
        r@ == relativised(results.keys(), results@, root@),
{
    let es = results.entries();
    let ghost keys = results.keys();
    let mut out: PathMap<FileCoverage> = PathMap::new();
    let mut i: usize = 0;
    while i < es.len()
        invariant
            i <= es@.len(),
            es@.map_values(|e: (String, FileCoverage)| e.0@) == keys,
            forall|k: int| 0 <= k < es@.len() ==> results@.contains_key(#[trigger] es@[k].0@)
                && results@[es@[k].0@] == es@[k].1@,
            out@ == relativised(keys.take(i as int), results@, root@),
        decreases es@.len() - i,
    {
        assert(keys.take(i + 1).drop_last() =~= keys.take(i as int));
        assert(keys[i as int] == es@[i as int].0@);
        let rel = rel_path_exec(es[i].0.as_str(), root);
        let fc = &es[i].1;
        let moved = FileCoverage { path: rel_path_exec(es[i].0.as_str(), root), lines_found: fc.lines_found, lines_hit: fc.lines_hit };
        out.insert(rel, moved);
        i = i + 1;
    }
    assert(keys.take(i as int) =~= keys);
    out
}

/// The DA records re-keyed by relative path, entry by entry in the order of
/// `keys`.
pub open spec fn relativised_detail(
    keys: Seq<Seq<char>>,
    m: Map<Seq<char>, Seq<LineCoverage>>,
    root: Seq<char>,
) -> Map<Seq<char>, Seq<LineCoverage>>
    decreases keys.len(),
{
    if keys.len() == 0 {
        Map::empty()
    } else {
        let k = keys.last();
        relativised_detail(keys.drop_last(), m, root).insert(rel_path(k, root), m[k])
    }
}

/// A copy of a list of DA records.
fn copy_lines(v: &Vec<LineCoverage>) -> (r: Vec<LineCoverage>)
    ensures
        r@ == v@,
{
    let mut out: Vec<LineCoverage> = Vec::new();
    let mut i: usize = 0;
    while i < v.len()
        invariant
            i <= v@.len(),
            out@ == v@.take(i as int),
        decreases v@.len() - i,
    {
        out.push(v[i]);
        i = i + 1;
        assert(out@ =~= v@.take(i as int));
    }
    assert(v@.take(i as int) =~= v@);
    out
}

/// Makes the keys of parsed DA records relative to the project root, given
/// as `root` with its trailing `/`.
pub fn relativise_detail(results: &PathMap<Vec<LineCoverage>>, root: &str) -> (r: PathMap<Vec<LineCoverage>>)
    ensures
        r@ == relativised_detail(results.keys(), results@, root@),
{
    let es = results.entries();
    let ghost keys = results.keys();
    let mut out: PathMap<Vec<LineCoverage>> = PathMap::new();
    let mut i: usize = 0;
    while i < es.len()
        invariant
            i <= es@.len(),
            es@.map_values(|e: (String, Vec<LineCoverage>)| e.0@) == keys,
            forall|k: int| 0 <= k < es@.len() ==> results@.contains_key(#[trigger] es@[k].0@)
                && results@[es@[k].0@] == es@[k].1@,
            out@ == relativised_detail(keys.take(i as int), results@, root@),
        decreases es@.len() - i,
    {
        assert(keys.take(i + 1).drop_last() =~= keys.take(i as int));
        assert(keys[i as int] == es@[i as int].0@);
        let rel = rel_path_exec(es[i].0.as_str(), root);
        out.insert(rel, copy_lines(&es[i].1));
        i = i + 1;
    }
    assert(keys.take(i as int) =~= keys);
    out
}

} // verus!
