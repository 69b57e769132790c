use spec_store_core::coverage::checker::{checked_files, coverage_verdict, Verdict};
use spec_store_core::coverage::fn_coverage::{compute_fn_coverage, sort_by_percentage, FnCoverageResult};
use spec_store_core::coverage::lcov::{parse_content, parse_detail_content, FileCoverage, LineCoverage};
use spec_store_core::path_map::PathMap;
use spec_store_core::scanner::regex_scanner::FunctionInfo;

const SAMPLE: &str = "
SF:src/risk/validator.rs
LF:142
LH:128
end_of_record
SF:src/spend/accumulator.rs
LF:198
LH:173
end_of_record
SF:src/config/loader.rs
LF:201
LH:157
end_of_record
";

fn percentage(r: &FnCoverageResult) -> f64 {
    if r.lines_found == 0 {
        return 100.0;
    }
    (r.lines_hit as f64 / r.lines_found as f64) * 100.0
}

// ── lcov ──────────────────────────────────────────────────────────────

#[test]
fn parse_returns_correct_file_count() {
    assert_eq!(parse_content(SAMPLE).unwrap().len(), 3);
}

#[test]
fn parse_reads_line_totals() {
    let r = parse_content(SAMPLE).unwrap();
    let fc = r.get("src/risk/validator.rs").unwrap();
    assert_eq!(fc.path, "src/risk/validator.rs");
    assert_eq!(fc.lines_found, 142);
    assert_eq!(fc.lines_hit, 128);
    let keys: Vec<&str> = r.entries().iter().map(|e| e.0.as_str()).collect();
    assert_eq!(keys, vec!["src/risk/validator.rs", "src/spend/accumulator.rs", "src/config/loader.rs"]);
}

#[test]
fn parse_handles_empty_input() {
    assert!(parse_content("").unwrap().is_empty());
}

#[test]
fn parse_ignores_incomplete_record() {
    let incomplete = "SF:src/foo.rs\nLF:10\n";
    assert!(parse_content(incomplete).unwrap().is_empty());
}

#[test]
fn parse_handles_invalid_numbers_gracefully() {
    let bad = "SF:src/foo.rs\nLF:oops\nLH:5\nend_of_record\n";
    let r = parse_content(bad).unwrap();
    assert_eq!(r.get("src/foo.rs").unwrap().lines_found, 0);
    assert_eq!(r.get("src/foo.rs").unwrap().lines_hit, 5);
}

#[test]
fn parse_later_record_replaces_earlier_one() {
    let twice = "SF:a.rs\nLF:4\nLH:1\nend_of_record\nSF:a.rs\nLF:8\nLH:8\nend_of_record\n";
    let r = parse_content(twice).unwrap();
    assert_eq!(r.len(), 1);
    assert_eq!(r.get("a.rs").unwrap().lines_found, 8);
}

#[test]
fn parse_detail_content_extracts_da_lines() {
    let content = "SF:src/a.rs\nDA:1,5\nDA:2,0\nDA:3,1\nLF:3\nLH:2\nend_of_record\n";
    let result = parse_detail_content(content).unwrap();
    let lines = result.get("src/a.rs").unwrap();
    assert_eq!(lines.len(), 3);
    assert_eq!(lines[0].hits, 5);
    assert_eq!(lines[1].hits, 0);
}

#[test]
fn parse_detail_content_handles_empty() {
    assert!(parse_detail_content("").unwrap().is_empty());
}

#[test]
fn parse_detail_content_handles_invalid_da() {
    let content = "SF:a.rs\nDA:bad,data\nDA:1,5\nend_of_record\n";
    let result = parse_detail_content(content).unwrap();
    assert_eq!(result.get("a.rs").unwrap().len(), 1);
}

#[test]
fn parse_detail_extracts_da_lines() {
    let content = "\
SF:src/a.rs
DA:10,1
DA:11,0
DA:12,3
LF:3
LH:2
end_of_record
";
    let result = parse_detail_content(content).unwrap();
    let lines = result.get("src/a.rs").unwrap();
    assert_eq!(lines.len(), 3);
    assert_eq!(lines[0].line, 10);
    assert_eq!(lines[0].hits, 1);
    assert_eq!(lines[1].hits, 0);
}

// ── per-function coverage ─────────────────────────────────────────────

fn make_fn(name: &str, file: &str, line: usize, count: usize, is_test: bool) -> FunctionInfo {
    FunctionInfo {
        name: name.into(),
        file: file.into(),
        line,
        line_count: count,
        param_count: 0,
        complexity: 1,
        is_test,
    }
}

fn make_da(entries: &[(usize, u64)]) -> Vec<LineCoverage> {
    entries.iter().map(|&(line, hits)| LineCoverage { line, hits }).collect()
}

#[test]
fn computes_full_coverage() {
    let fns = vec![make_fn("foo", "src/a.rs", 10, 5, false)];
    let mut lcov = PathMap::new();
    lcov.insert("src/a.rs".into(), make_da(&[(10, 1), (11, 1), (12, 1), (13, 1), (14, 1)]));
    let results = compute_fn_coverage(&fns, &lcov);
    assert_eq!(results.len(), 1);
    assert_eq!(results[0].lines_found, 5);
    assert_eq!(results[0].lines_hit, 5);
    assert!((percentage(&results[0]) - 100.0).abs() < 0.01);
}

#[test]
fn computes_partial_coverage() {
    let fns = vec![make_fn("bar", "src/b.rs", 20, 4, false)];
    let mut lcov = PathMap::new();
    lcov.insert("src/b.rs".into(), make_da(&[(20, 1), (21, 0), (22, 1), (23, 0)]));
    let results = compute_fn_coverage(&fns, &lcov);
    assert_eq!(results[0].lines_hit, 2);
    assert!((percentage(&results[0]) - 50.0).abs() < 0.01);
}

#[test]
fn skips_functions_not_in_lcov() {
    let fns = vec![make_fn("missing", "src/c.rs", 1, 10, false)];
    let lcov: PathMap<Vec<LineCoverage>> = PathMap::new();
    let results = compute_fn_coverage(&fns, &lcov);
    assert!(results.is_empty());
}

#[test]
fn includes_test_functions() {
    let fns = vec![make_fn("test_foo", "src/a.rs", 50, 3, true)];
    let mut lcov = PathMap::new();
    lcov.insert("src/a.rs".into(), make_da(&[(50, 1), (51, 1), (52, 1)]));
    let results = compute_fn_coverage(&fns, &lcov);
    assert_eq!(results.len(), 1);
    assert!(results[0].is_test);
}

#[test]
fn skips_zero_line_count() {
    let fns = vec![make_fn("synthetic", "src/a.rs", 1, 0, false)];
    let mut lcov = PathMap::new();
    lcov.insert("src/a.rs".into(), make_da(&[(1, 1)]));
    let results = compute_fn_coverage(&fns, &lcov);
    assert!(results.is_empty());
}

#[test]
fn multiple_functions_same_file() {
    let fns = vec![make_fn("foo", "src/a.rs", 10, 5, false), make_fn("bar", "src/a.rs", 20, 3, false)];
    let mut lcov = PathMap::new();
    lcov.insert(
        "src/a.rs".into(),
        make_da(&[(10, 1), (11, 1), (12, 0), (13, 1), (14, 1), (20, 1), (21, 0), (22, 0)]),
    );
    let results = compute_fn_coverage(&fns, &lcov);
    assert_eq!(results.len(), 2);
    assert_eq!(results[0].lines_hit, 4);
    assert_eq!(results[1].lines_hit, 1);
}

#[test]
fn lines_outside_the_function_are_not_counted() {
    let fns = vec![make_fn("mid", "src/a.rs", 5, 2, false)];
    let mut lcov = PathMap::new();
    lcov.insert("src/a.rs".into(), make_da(&[(4, 1), (5, 1), (6, 0), (7, 1)]));
    let results = compute_fn_coverage(&fns, &lcov);
    assert_eq!(results[0].lines_found, 2);
    assert_eq!(results[0].lines_hit, 1);
    assert!(results[0].lines_hit <= results[0].lines_found);
}

#[test]
fn sort_by_percentage_is_stable_and_ascending() {
    let fns = vec![
        make_fn("full", "src/a.rs", 1, 2, false),
        make_fn("half", "src/a.rs", 3, 2, false),
        make_fn("none", "src/a.rs", 5, 2, false),
        make_fn("empty", "src/a.rs", 7, 2, false),
        make_fn("half2", "src/a.rs", 9, 4, false),
    ];
    let mut lcov = PathMap::new();
    lcov.insert(
        "src/a.rs".into(),
        make_da(&[(1, 1), (2, 1), (3, 1), (4, 0), (5, 0), (6, 0), (9, 1), (10, 1), (11, 0), (12, 0)]),
    );
    let results = compute_fn_coverage(&fns, &lcov);
    let sorted = sort_by_percentage(&results);
    let names: Vec<&str> = sorted.iter().map(|r| r.name.as_str()).collect();
    assert_eq!(names, vec!["none", "half", "half2", "full", "empty"]);
}

// ── coverage verdicts ─────────────────────────────────────────────────

fn fc(path: &str, found: u64, hit: u64) -> FileCoverage {
    FileCoverage { path: path.into(), lines_found: found, lines_hit: hit }
}

fn pct(f: &FileCoverage) -> f64 {
    if f.lines_found == 0 {
        100.0
    } else {
        f.lines_hit as f64 / f.lines_found as f64 * 100.0
    }
}

fn verdict(f: &FileCoverage, baseline: Option<f64>) -> Verdict {
    let p = pct(f);
    let regressed = baseline.map(|b| p < b - f64::EPSILON).unwrap_or(false);
    coverage_verdict(baseline.is_some(), regressed, p >= 85.0, true, true)
}

#[test]
fn new_file_above_threshold_passes() {
    let v = verdict(&fc("src/a.rs", 100, 90), None);
    assert_eq!(v, Verdict::Pass);
    assert!(!v.is_failure());
}

#[test]
fn new_file_below_threshold_fails() {
    let v = verdict(&fc("src/a.rs", 100, 80), None);
    assert_eq!(v, Verdict::BelowThreshold);
    assert!(v.is_failure());
}

#[test]
fn regression_below_baseline_fails() {
    let v = verdict(&fc("src/a.rs", 100, 82), Some(88.0));
    assert_eq!(v, Verdict::Regressed);
    assert!(v.is_failure());
}

#[test]
fn legacy_file_below_threshold_but_not_regressed_does_not_fail() {
    let v = verdict(&fc("src/a.rs", 100, 72), Some(70.0));
    assert_eq!(v, Verdict::Legacy);
    assert!(!v.is_failure());
}

#[test]
fn regression_ignored_without_ratchet() {
    assert_eq!(coverage_verdict(true, true, false, false, true), Verdict::Legacy);
    assert_eq!(coverage_verdict(true, true, true, true, false), Verdict::Pass);
}

#[test]
fn excluded_files_not_checked() {
    let mut m = PathMap::new();
    m.insert("src/generated/schema.rs".into(), fc("src/generated/schema.rs", 100, 0));
    let files = checked_files(&m, &["src/generated/**".to_string()]);
    assert!(files.is_empty());
}

#[test]
fn checked_files_keep_the_others_in_order() {
    let mut m = PathMap::new();
    m.insert("src/b.rs".into(), fc("src/b.rs", 10, 5));
    m.insert("src/generated/x.rs".into(), fc("src/generated/x.rs", 1, 0));
    m.insert("src/a.rs".into(), fc("src/a.rs", 4, 4));
    let files = checked_files(&m, &["src/generated/**".to_string()]);
    let paths: Vec<&str> = files.iter().map(|f| f.path.as_str()).collect();
    assert_eq!(paths, vec!["src/b.rs", "src/a.rs"]);
    assert_eq!(files[0].lines_hit, 5);
}
