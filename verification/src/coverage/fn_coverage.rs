//! Per-function coverage computation by cross-referencing scanned functions with LCOV DA lines.
use vstd::prelude::*;

use crate::coverage::lcov::LineCoverage;
use crate::path_map::PathMap;
use crate::scanner::regex_scanner::{fn_views, FunctionInfo, FunctionModel};

verus! {

#[derive(Debug, Clone)]
pub struct FnCoverageResult {
    pub file: String,
    pub name: String,
    pub is_test: bool,
    pub line_start: usize,
    pub line_count: usize,
    pub lines_found: usize,
    pub lines_hit: usize,
}

/// The mathematical content of a [`FnCoverageResult`].
pub struct FnCoverageModel {
    pub file: Seq<char>,
    pub name: Seq<char>,
    pub is_test: bool,
    pub line_start: usize,
    pub line_count: usize,
    pub lines_found: usize,
    pub lines_hit: usize,
}

impl FnCoverageResult {
    /// A copy of this result.
    pub fn clone_result(&self) -> (r: FnCoverageResult)
        ensures
            r@ == self@,
    {
        FnCoverageResult {
            file: self.file.clone(),
            name: self.name.clone(),
            is_test: self.is_test,
            line_start: self.line_start,
            line_count: self.line_count,
            lines_found: self.lines_found,
            lines_hit: self.lines_hit,
        }
    }
}

impl View for FnCoverageResult {
    type V = FnCoverageModel;

    open spec fn view(&self) -> FnCoverageModel {
        FnCoverageModel {
            file: self.file@,
            name: self.name@,
            is_test: self.is_test,
            line_start: self.line_start,
            line_count: self.line_count,
            lines_found: self.lines_found,
            lines_hit: self.lines_hit,
        }
    }
}

/// The views of a sequence of results.
pub open spec fn cov_views(v: Seq<FnCoverageResult>) -> Seq<FnCoverageModel> {
    v.map_values(|r: FnCoverageResult| r@)
}

/// Whether a DA record falls inside the lines `start .. start + count`.
pub open spec fn in_function(lc: LineCoverage, start: int, count: int) -> bool {
    start <= lc.line < start + count
}

/// The number of DA records of `lcs` inside the function's lines.
pub open spec fn lines_found_in(lcs: Seq<LineCoverage>, start: int, count: int) -> nat
    decreases lcs.len(),
{
    if lcs.len() == 0 {
        0
    } else {
        lines_found_in(lcs.drop_last(), start, count) + if in_function(lcs.last(), start, count) {
            1nat
        } else {
            0nat
        }
    }
}

/// The number of DA records of `lcs` inside the function's lines with a
/// hit count above zero.
pub open spec fn lines_hit_in(lcs: Seq<LineCoverage>, start: int, count: int) -> nat
    decreases lcs.len(),
{
    if lcs.len() == 0 {
        0
    } else {
        lines_hit_in(lcs.drop_last(), start, count) + if in_function(lcs.last(), start, count)
            && lcs.last().hits > 0 {
            1nat
        } else {
            0nat
        }
    }
}

/// The coverage of function `f` by the DA records `lcs` of its file.
pub open spec fn coverage_of(f: FunctionModel, lcs: Seq<LineCoverage>) -> FnCoverageModel {
    FnCoverageModel {
        file: f.file,
        name: f.name,
        is_test: f.is_test,
        line_start: f.line,
        line_count: f.line_count,
        lines_found: lines_found_in(lcs, f.line as int, f.line_count as int) as usize,
        lines_hit: lines_hit_in(lcs, f.line as int, f.line_count as int) as usize,
    }
}

/// One result per function, in order, for each function with at least one
/// line whose file has DA records.
pub open spec fn spec_compute_fn_coverage(
    fs: Seq<FunctionModel>,
    cov: Map<Seq<char>, Seq<LineCoverage>>,
) -> Seq<FnCoverageModel>
    decreases fs.len(),
{
    if fs.len() == 0 {
        seq![]
    } else {
        let rest = spec_compute_fn_coverage(fs.drop_last(), cov);
        let f = fs.last();
        if f.line_count > 0 && cov.contains_key(f.file) {
            rest.push(coverage_of(f, cov[f.file]))
        } else {
            rest
        }
    }
}

/// A function never has more hit lines than lines found.
pub proof fn lemma_hit_le_found(lcs: Seq<LineCoverage>, start: int, count: int)
    ensures
        lines_hit_in(lcs, start, count) <= lines_found_in(lcs, start, count),
        lines_found_in(lcs, start, count) <= lcs.len(),
    decreases lcs.len(),
{
    if lcs.len() > 0 {
        lemma_hit_le_found(lcs.drop_last(), start, count);
    }
}

/// Counts the DA records of one function.
fn count_lines(lcs: &Vec<LineCoverage>, start: usize, count: usize) -> (r: (usize, usize))
    ensures
        r.0 == lines_found_in(lcs@, start as int, count as int),
        r.1 == lines_hit_in(lcs@, start as int, count as int),
{
    let mut found: usize = 0;
    let mut hit: usize = 0;
    let mut i: usize = 0;
    while i < lcs.len()
        invariant
            i <= lcs@.len(),
            found == lines_found_in(lcs@.take(i as int), start as int, count as int),
            hit == lines_hit_in(lcs@.take(i as int), start as int, count as int),
        decreases lcs@.len() - i,
    {
        assert(lcs@.take(i + 1).drop_last() =~= lcs@.take(i as int));
        proof {
            lemma_hit_le_found(lcs@.take(i as int), start as int, count as int);
        }
        let lc = lcs[i];
        if lc.line >= start && lc.line - start < count {
            found = found + 1;
            if lc.hits > 0 {
                hit = hit + 1;
            }
        }
        i = i + 1;
    }
    assert(lcs@.take(i as int) =~= lcs@);
    (found, hit)
}

/// Cross-reference scanned functions with LCOV DA lines to compute per-function coverage.
///
/// A function with no lines, or whose file has no DA records, gets no result.
pub fn compute_fn_coverage(
    functions: &[FunctionInfo],
    line_coverage: &PathMap<Vec<LineCoverage>>,
) -> (r: Vec<FnCoverageResult>)
    ensures
        cov_views(r@) == spec_compute_fn_coverage(fn_views(functions@), line_coverage@),
{
    let ghost fv = fn_views(functions@);
    let mut out: Vec<FnCoverageResult> = Vec::new();
    let mut i: usize = 0;
    while i < functions.len()
        invariant
            i <= functions@.len(),
            fv == fn_views(functions@),
            cov_views(out@) == spec_compute_fn_coverage(fv.take(i as int), line_coverage@),
        decreases functions@.len() - i,
    {
        assert(fv.take(i + 1).drop_last() =~= fv.take(i as int));
        assert(fv[i as int] == functions@[i as int]@);
        let f = &functions[i];
        if f.line_count > 0 {
            match line_coverage.get(f.file.as_str()) {
                Some(lcs) => {
                    let (found, hit) = count_lines(lcs, f.line, f.line_count);
                    let ghost before = cov_views(out@);
                    out.push(
                        FnCoverageResult {
                            file: f.file.clone(),
                            name: f.name.clone(),
                            is_test: f.is_test,
                            line_start: f.line,
                            line_count: f.line_count,
                            lines_found: found,
                            lines_hit: hit,
                        },
                    );
                    assert(cov_views(out@) =~= before.push(coverage_of(fv[i as int], lcs@)));
                },
                None => {},
            }
        }
        i = i + 1;
    }
    assert(fv.take(i as int) =~= fv);
    out
}

// ---------------------------------------------------------------------------
// Ordering by percentage
// ---------------------------------------------------------------------------
/// The numerator of a result's covered fraction: a function with no lines
/// found counts as fully covered.
pub open spec fn pct_num(r: FnCoverageModel) -> int {
    if r.lines_found == 0 {
        1
    } else {
        r.lines_hit as int
    }
}

/// The denominator of a result's covered fraction.
pub open spec fn pct_den(r: FnCoverageModel) -> int {
    if r.lines_found == 0 {
        1
    } else {
        r.lines_found as int
    }
}

/// Whether `a` is covered by a strictly smaller fraction than `b`.
pub open spec fn pct_lt(a: FnCoverageModel, b: FnCoverageModel) -> bool {
    pct_num(a) * pct_den(b) < pct_num(b) * pct_den(a)
}

/// `s` with `x` inserted after every result whose fraction is not greater.
pub open spec fn insert_by_pct(s: Seq<FnCoverageModel>, x: FnCoverageModel) -> Seq<FnCoverageModel>
    decreases s.len(),
{
    if s.len() > 0 && pct_lt(x, s.last()) {
        insert_by_pct(s.drop_last(), x).push(s.last())
    } else {
        s.push(x)
    }
}

/// `s` ordered by covered fraction, lowest first, results with equal
/// fractions keeping their order: what a stable sort by percentage gives.
pub open spec fn sort_by_pct(s: Seq<FnCoverageModel>) -> Seq<FnCoverageModel>
    decreases s.len(),
{
    if s.len() == 0 {
        s
    } else {
        insert_by_pct(sort_by_pct(s.drop_last()), s.last())
    }
}

/// Whether `a` is covered by a fraction no greater than `b`.
pub open spec fn pct_le(a: FnCoverageModel, b: FnCoverageModel) -> bool {
    !pct_lt(b, a)
}

proof fn lemma_pct_le_trans(a: FnCoverageModel, b: FnCoverageModel, c: FnCoverageModel)
    requires
        pct_le(a, b),
        pct_le(b, c),
    ensures
        pct_le(a, c),
{
    let (an, ad, bn, bd, cn, cd) = (pct_num(a), pct_den(a), pct_num(b), pct_den(b), pct_num(c), pct_den(c));
    assert(an * cd <= cn * ad) by (nonlinear_arith)
        requires
            an * bd <= bn * ad,
            bn * cd <= cn * bd,
            ad > 0,
            bd > 0,
            cd > 0,
            an >= 0,
            bn >= 0,
            cn >= 0,
    {
        assert(an * bd * cd <= bn * ad * cd);
        assert(bn * cd * ad <= cn * bd * ad);
    }
}

proof fn lemma_pct_total(a: FnCoverageModel, b: FnCoverageModel)
    ensures
        pct_le(a, b) || pct_le(b, a),
{
}

proof fn lemma_insert_by_pct_len(s: Seq<FnCoverageModel>, x: FnCoverageModel)
    ensures
        insert_by_pct(s, x).len() == s.len() + 1,
    decreases s.len(),
{
    if s.len() > 0 && pct_lt(x, s.last()) {
        lemma_insert_by_pct_len(s.drop_last(), x);
    }
}

proof fn lemma_insert_by_pct_member(s: Seq<FnCoverageModel>, x: FnCoverageModel, i: int)
    requires
        0 <= i < s.len() + 1,
    ensures
        insert_by_pct(s, x).len() == s.len() + 1,
        insert_by_pct(s, x)[i] == x || exists|k: int| 0 <= k < s.len() && insert_by_pct(s, x)[i] == s[k],
    decreases s.len(),
{
    lemma_insert_by_pct_len(s, x);
    if s.len() > 0 && pct_lt(x, s.last()) {
        let t = insert_by_pct(s.drop_last(), x);
        lemma_insert_by_pct_len(s.drop_last(), x);
        if i == t.len() {
            assert(insert_by_pct(s, x)[i] == s[s.len() - 1]);
        } else {
            lemma_insert_by_pct_member(s.drop_last(), x, i);
            if insert_by_pct(s, x)[i] != x {
                let k = choose|k: int| 0 <= k < s.drop_last().len() && t[i] == s.drop_last()[k];
                assert(insert_by_pct(s, x)[i] == s[k]);
            }
        }
    } else {
        if i < s.len() {
            assert(insert_by_pct(s, x)[i] == s[i]);
        }
    }
}

proof fn lemma_insert_by_pct_sorted(s: Seq<FnCoverageModel>, x: FnCoverageModel)
    requires
        forall|i: int, j: int| 0 <= i < j < s.len() ==> pct_le(#[trigger] s[i], #[trigger] s[j]),
    ensures
        forall|i: int, j: int|
            0 <= i < j < insert_by_pct(s, x).len() ==> pct_le(
                #[trigger] insert_by_pct(s, x)[i],
                #[trigger] insert_by_pct(s, x)[j],
            ),
    decreases s.len(),
{
    lemma_insert_by_pct_len(s, x);
    let r = insert_by_pct(s, x);
    if s.len() > 0 && pct_lt(x, s.last()) {
        let t = insert_by_pct(s.drop_last(), x);
        lemma_insert_by_pct_sorted(s.drop_last(), x);
        lemma_insert_by_pct_len(s.drop_last(), x);
        assert forall|i: int, j: int| 0 <= i < j < r.len() implies pct_le(#[trigger] r[i], #[trigger] r[j]) by {
            if j == t.len() {
                lemma_insert_by_pct_member(s.drop_last(), x, i);
                assert(r[i] == t[i]);
                if t[i] != x {
                    let k = choose|k: int| 0 <= k < s.drop_last().len() && t[i] == s.drop_last()[k];
                    assert(s[k] == t[i]);
                    assert(pct_le(s[k], s[s.len() - 1]));
                } else {
                    lemma_pct_total(x, s.last());
                }
            } else {
                assert(r[i] == t[i] && r[j] == t[j]);
            }
        }
    } else {
        assert forall|i: int, j: int| 0 <= i < j < r.len() implies pct_le(#[trigger] r[i], #[trigger] r[j]) by {
            if j == s.len() {
                assert(r[j] == x);
                assert(r[i] == s[i]);
                if s.len() > 0 && i < s.len() - 1 {
                    assert(pct_le(s[i], s[s.len() - 1]));
                    lemma_pct_total(s.last(), x);
                    lemma_pct_le_trans(s[i], s.last(), x);
                } else {
                    lemma_pct_total(s.last(), x);
                }
            } else {
                assert(r[i] == s[i] && r[j] == s[j]);
            }
        }
    }
}

/// A stable sort by percentage leaves its results ordered from the lowest
/// covered fraction to the highest.
pub proof fn lemma_sort_by_pct_sorted(s: Seq<FnCoverageModel>)
    ensures
        sort_by_pct(s).len() == s.len(),
        forall|i: int, j: int|
            0 <= i < j < sort_by_pct(s).len() ==> pct_le(#[trigger] sort_by_pct(s)[i], #[trigger] sort_by_pct(s)[j]),
    decreases s.len(),
{
    if s.len() > 0 {
        lemma_sort_by_pct_sorted(s.drop_last());
        lemma_insert_by_pct_len(sort_by_pct(s.drop_last()), s.last());
        lemma_insert_by_pct_sorted(sort_by_pct(s.drop_last()), s.last());
    }
}

/// Sorting by percentage keeps only results it was given.
pub proof fn lemma_sort_by_pct_members(s: Seq<FnCoverageModel>)
    ensures
        sort_by_pct(s).len() == s.len(),
        forall|k: int| 0 <= k < sort_by_pct(s).len() ==> exists|j: int|
            0 <= j < s.len() && s[j] == #[trigger] sort_by_pct(s)[k],
    decreases s.len(),
{
    if s.len() > 0 {
        let prev = s.drop_last();
        lemma_sort_by_pct_members(prev);
        lemma_insert_by_pct_len(sort_by_pct(prev), s.last());
        assert forall|k: int| 0 <= k < sort_by_pct(s).len() implies exists|j: int|
            0 <= j < s.len() && s[j] == #[trigger] sort_by_pct(s)[k] by {
            lemma_insert_by_pct_member(sort_by_pct(prev), s.last(), k);
            if sort_by_pct(s)[k] == s.last() {
                assert(s[s.len() - 1] == sort_by_pct(s)[k]);
            } else {
                let q = choose|q: int| 0 <= q < sort_by_pct(prev).len() && sort_by_pct(s)[k] == sort_by_pct(prev)[q];
                let j = choose|j: int| 0 <= j < prev.len() && prev[j] == sort_by_pct(prev)[q];
                assert(s[j] == prev[j]);
            }
        }
    }
}

/// Whether `a`'s covered fraction is strictly below `b`'s.
fn pct_lt_exec(a: &FnCoverageResult, b: &FnCoverageResult) -> (r: bool)
    ensures
        r == pct_lt(a@, b@),
{
    let an: u128 = if a.lines_found == 0 { 1 } else { a.lines_hit as u128 };
    let ad: u128 = if a.lines_found == 0 { 1 } else { a.lines_found as u128 };
    let bn: u128 = if b.lines_found == 0 { 1 } else { b.lines_hit as u128 };
    let bd: u128 = if b.lines_found == 0 { 1 } else { b.lines_found as u128 };
    assert(an * bd <= 0xffff_ffff_ffff_ffff * 0xffff_ffff_ffff_ffff) by (nonlinear_arith)
        requires
            an <= 0xffff_ffff_ffff_ffff,
            bd <= 0xffff_ffff_ffff_ffff,
    ;
    assert(bn * ad <= 0xffff_ffff_ffff_ffff * 0xffff_ffff_ffff_ffff) by (nonlinear_arith)
        requires
            bn <= 0xffff_ffff_ffff_ffff,
            ad <= 0xffff_ffff_ffff_ffff,
    ;
    an * bd < bn * ad
}

proof fn lemma_insert_by_pct(s: Seq<FnCoverageModel>, x: FnCoverageModel, pos: int)
    requires
        0 <= pos <= s.len(),
        forall|k: int| pos <= k < s.len() ==> pct_lt(x, #[trigger] s[k]),
        pos == 0 || !pct_lt(x, s[pos - 1]),
    ensures
        insert_by_pct(s, x) == s.insert(pos, x),
    decreases s.len(),
{
    if pos == s.len() {
        assert(s.push(x) =~= s.insert(pos, x));
    } else {
        lemma_insert_by_pct(s.drop_last(), x, pos);
        assert(s.drop_last().insert(pos, x).push(s.last()) =~= s.insert(pos, x));
    }
}

/// Inserts `x` after every result whose fraction is not greater.
fn insert_sorted_by_pct(out: &mut Vec<FnCoverageResult>, x: FnCoverageResult)
    ensures
        cov_views(final(out)@) == insert_by_pct(cov_views(old(out)@), x@),
{
    let mut pos = out.len();
    while pos > 0 && pct_lt_exec(&x, &out[pos - 1])
        invariant
            pos <= out@.len(),
            forall|k: int| pos <= k < out@.len() ==> pct_lt(x@, (#[trigger] out@[k])@),
        decreases pos,
    {
        pos = pos - 1;
    }
    proof {
        let s = cov_views(out@);
        assert forall|k: int| pos <= k < s.len() implies pct_lt(x@, #[trigger] s[k]) by {
            assert(s[k] == out@[k]@);
        }
        if pos > 0 {
            assert(s[pos - 1] == out@[pos - 1]@);
        }
        lemma_insert_by_pct(s, x@, pos as int);
    }
    let ghost before = cov_views(out@);
    let ghost xv = x@;
    out.insert(pos, x);
    assert(cov_views(out@) =~= before.insert(pos as int, xv));
}

/// Sorts results by covered percentage, lowest first, keeping the order of
/// results with equal percentages.
pub fn sort_by_percentage(results: &[FnCoverageResult]) -> (r: Vec<FnCoverageResult>)
    ensures
        cov_views(r@) == sort_by_pct(cov_views(results@)),
{
    let ghost v = cov_views(results@);
    let mut out: Vec<FnCoverageResult> = Vec::new();
    let mut i: usize = 0;
    while i < results.len()
        invariant
            i <= results@.len(),
            v == cov_views(results@),
            cov_views(out@) == sort_by_pct(v.take(i as int)),
        decreases results@.len() - i,
    {
        assert(v.take(i + 1).drop_last() =~= v.take(i as int));
        assert(v[i as int] == results@[i as int]@);
        insert_sorted_by_pct(&mut out, results[i].clone_result());
        i = i + 1;
    }
    assert(v.take(i as int) =~= v);
    out
}

} // verus!
