//! Operations for test tracking: listing tests, mappings, and per-function coverage.
use vstd::prelude::*;

use crate::coverage::fn_coverage::{
    compute_fn_coverage, cov_views, lemma_sort_by_pct_members, sort_by_pct, sort_by_percentage, spec_compute_fn_coverage,
    FnCoverageModel, FnCoverageResult,
};
use crate::coverage::lcov::LineCoverage;
use crate::path_map::PathMap;
use crate::scanner::regex_scanner::{fn_views, FunctionInfo};
use crate::scanner::test_mapper::{
    compute_mappings, mapping_views, select_functions, spec_compute_mappings, test_functions,
    MappingModel, TestMapping,
};
use crate::text::{chars_of, contains, has_sub};

verus! {

/// List all test functions among the scanned functions, in order.
pub fn list_tests(functions: &[FunctionInfo]) -> (r: Vec<FunctionInfo>)
    ensures
        fn_views(r@) == test_functions(fn_views(functions@)),
{
    select_functions(functions, true)
}

/// The results whose function name contains `filter`, in order.
pub open spec fn results_named(rs: Seq<FnCoverageModel>, filter: Seq<char>) -> Seq<FnCoverageModel>
    decreases rs.len(),
{
    if rs.len() == 0 {
        seq![]
    } else {
        let rest = results_named(rs.drop_last(), filter);
        if has_sub(rs.last().name, filter) {
            rest.push(rs.last())
        } else {
            rest
        }
    }
}

/// The view of an optional filter.
pub open spec fn opt_filter(o: Option<&str>) -> Option<Seq<char>> {
    match o {
        Some(s) => Some(s@),
        None => None,
    }
}

/// The per-function coverage, narrowed by the name filter when there is
/// one, before it is ordered.
pub open spec fn filtered_coverage(rs: Seq<FnCoverageModel>, filter: Option<Seq<char>>) -> Seq<FnCoverageModel> {
    match filter {
        Some(f) => results_named(rs, f),
        None => rs,
    }
}

fn retain_named(results: Vec<FnCoverageResult>, filter: &str) -> (r: Vec<FnCoverageResult>)
    ensures
        cov_views(r@) == results_named(cov_views(results@), filter@),
{
    let fv = chars_of(filter);
    let ghost v = cov_views(results@);
    let mut out: Vec<FnCoverageResult> = Vec::new();
    let mut i: usize = 0;
    while i < results.len()
        invariant
            i <= results@.len(),
            v == cov_views(results@),
            fv@ == filter@,
            cov_views(out@) == results_named(v.take(i as int), filter@),
        decreases results@.len() - i,
    {
        assert(v.take(i + 1).drop_last() =~= v.take(i as int));
        assert(v[i as int] == results@[i as int]@);
        let nv = chars_of(results[i].name.as_str());
        if contains(&nv, &fv) {
            let ghost before = cov_views(out@);
            out.push(results[i].clone_result());
            assert(cov_views(out@) =~= before.push(v[i as int]));
        }
        i = i + 1;
    }
    assert(v.take(i as int) =~= v);
    out
}

/// Compute per-function coverage from LCOV DA lines, keeping the functions
/// whose name contains `fn_filter`, ordered from the least covered.
pub fn function_coverage(
    functions: &[FunctionInfo],
    line_coverage: &PathMap<Vec<LineCoverage>>,
    fn_filter: Option<&str>,
) -> (r: Vec<FnCoverageResult>)
    ensures
        cov_views(r@) == sort_by_pct(
            filtered_coverage(
                spec_compute_fn_coverage(fn_views(functions@), line_coverage@),
                opt_filter(fn_filter),
            ),
        ),
        match opt_filter(fn_filter) {
            Some(f) => forall|i: int| 0 <= i < r@.len() ==> has_sub((#[trigger] r@[i]).name@, f),
            None => true,
        },
{
    let results = compute_fn_coverage(functions, line_coverage);
    let kept = match fn_filter {
        Some(f) => retain_named(results, f),
        None => results,
    };
    let r = sort_by_percentage(&kept);
    proof {
        let v = cov_views(kept@);
        lemma_sort_by_pct_members(v);
        if let Some(f) = opt_filter(fn_filter) {
            lemma_results_named(spec_compute_fn_coverage(fn_views(functions@), line_coverage@), f);
            assert forall|i: int| 0 <= i < r@.len() implies has_sub((#[trigger] r@[i]).name@, f) by {
                assert(cov_views(r@)[i] == r@[i]@);
                let j = choose|j: int| 0 <= j < v.len() && v[j] == #[trigger] sort_by_pct(v)[i];
                assert(has_sub(v[j].name, f));
            }
        }
    }
    r
}

/// Compute per-function coverage for every scanned function, ordered from
/// the least covered.
pub fn function_coverage_for_path(
    functions: &[FunctionInfo],
    line_coverage: &PathMap<Vec<LineCoverage>>,
) -> (r: Vec<FnCoverageResult>)
    ensures
        cov_views(r@) == sort_by_pct(spec_compute_fn_coverage(fn_views(functions@), line_coverage@)),
{
    let results = compute_fn_coverage(functions, line_coverage);
    sort_by_percentage(&results)
}

/// The mappings whose production function's name contains `filter`, in order.
pub open spec fn mappings_named(ms: Seq<MappingModel>, filter: Seq<char>) -> Seq<MappingModel>
    decreases ms.len(),
{
    if ms.len() == 0 {
        seq![]
    } else {
        let rest = mappings_named(ms.drop_last(), filter);
        if has_sub(ms.last().function_name, filter) {
            rest.push(ms.last())
        } else {
            rest
        }
    }
}

/// Compute test-to-function mappings using name and file heuristics,
/// keeping those whose production function's name contains `fn_filter`.
pub fn test_mappings(functions: &[FunctionInfo], fn_filter: Option<&str>) -> (r: Vec<TestMapping>)
    ensures
        mapping_views(r@) == match opt_filter(fn_filter) {
            Some(f) => mappings_named(spec_compute_mappings(fn_views(functions@)), f),
            None => spec_compute_mappings(fn_views(functions@)),
        },
{
    let mappings = compute_mappings(functions);
    match fn_filter {
        None => mappings,
        Some(filter) => {
            let fv = chars_of(filter);
            let ghost v = mapping_views(mappings@);
            let mut out: Vec<TestMapping> = Vec::new();
            let rest = mappings;
            let mut i: usize = 0;
            while i < rest.len()
                invariant
                    i <= rest@.len(),
                    v == mapping_views(rest@),
                    fv@ == filter@,
                    mapping_views(out@) == mappings_named(v.take(i as int), filter@),
                decreases rest@.len() - i,
            {
                assert(v.take(i + 1).drop_last() =~= v.take(i as int));
                assert(v[i as int] == rest@[i as int]@);
                let nv = chars_of(rest[i].function_name.as_str());
                if contains(&nv, &fv) {
                    let ghost before = mapping_views(out@);
                    out.push(rest[i].clone_mapping());
                    assert(mapping_views(out@) =~= before.push(v[i as int]));
                }
                i = i + 1;
            }
            assert(v.take(i as int) =~= v);
            out
        },
    }
}

/// Filtering keeps only results whose name contains the filter, and never
/// adds one.
pub proof fn lemma_results_named(rs: Seq<FnCoverageModel>, filter: Seq<char>)
    ensures
        results_named(rs, filter).len() <= rs.len(),
        forall|i: int| 0 <= i < results_named(rs, filter).len() ==> has_sub(
            (#[trigger] results_named(rs, filter)[i]).name,
            filter,
        ),
    decreases rs.len(),
{
    if rs.len() > 0 {
        lemma_results_named(rs.drop_last(), filter);
    }
}

} // verus!
