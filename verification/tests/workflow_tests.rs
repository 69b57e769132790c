use spec_store_core::config::QualityConfig;
use spec_store_core::coverage::lcov::LineCoverage;
use spec_store_core::error::SpecStoreError;
use spec_store_core::git::{
    current_branch_from_output, list_worktrees, parse_worktree_list, staged_files_conflict_with_worktrees,
    staged_files_from_output,
};
use spec_store_core::hooks::installer::{hook_files, verify_hooks_installed, HookSet};
use spec_store_core::ops::test_tracking::{function_coverage, function_coverage_for_path, list_tests, test_mappings};
use spec_store_core::ops::{catchup, project_rules, status};
use spec_store_core::path_map::PathMap;
use spec_store_core::report::truncate_path;
use spec_store_core::reuse::enforcer::{similarity_verdict, SimilarityCandidate, SimilarityVerdict};
use spec_store_core::scanner::regex_scanner::{scan_source, FunctionInfo};
use spec_store_core::scanner::language::Language;
use spec_store_core::store::structured::{claim_worktree, Decision, RegisteredFn, Worktree};
use spec_store_core::util::is_excluded;
use spec_store_core::store::vector::embedding_counts;
use sha2::{Digest, Sha256};

// ── util ──────────────────────────────────────────────────────────────

#[test]
fn excludes_matching_path() {
    let patterns = vec!["src/generated/**".into()];
    assert!(is_excluded("src/generated/schema.rs", &patterns));
}

#[test]
fn does_not_exclude_unrelated_path() {
    let patterns = vec!["src/generated/**".into()];
    assert!(!is_excluded("src/core/main.rs", &patterns));
}

#[test]
fn excludes_tests_directory() {
    let patterns = vec!["tests/**".into()];
    assert!(is_excluded("tests/integration/test_api.rs", &patterns));
}

#[test]
fn empty_patterns_excludes_nothing() {
    assert!(!is_excluded("src/anything.rs", &[]));
}

#[test]
fn stem_anywhere_in_path_excludes() {
    let patterns = vec!["generated/".into()];
    assert!(is_excluded("crates/x/generated/a.rs", &patterns));
}

// ── git ───────────────────────────────────────────────────────────────

fn wt(branch: &str, contract: Option<&str>, owner: Option<&str>) -> Worktree {
    Worktree {
        branch: branch.into(),
        contract: contract.map(|c| c.into()),
        owner: owner.map(|o| o.into()),
        claimed_at: String::new(),
    }
}

#[test]
fn no_conflicts_when_no_worktrees() {
    let staged = vec!["src/foo.rs".into()];
    let conflicts = staged_files_conflict_with_worktrees(&staged, &[], None);
    assert!(conflicts.is_empty());
}

#[test]
fn detects_conflict_with_contract() {
    let staged = vec!["src/auth/login.rs".into()];
    let worktrees = vec![wt("feat/auth", Some("src/auth"), Some("agent-1"))];
    let conflicts = staged_files_conflict_with_worktrees(&staged, &worktrees, None);
    assert_eq!(conflicts.len(), 1);
    assert!(conflicts[0].contains("feat/auth"));
    assert_eq!(conflicts[0], "src/auth/login.rs conflicts with worktree 'feat/auth' (agent-1)");
}

#[test]
fn skips_own_worktree() {
    let staged = vec!["src/auth/login.rs".into()];
    let worktrees = vec![wt("feat/auth", Some("src/auth"), Some("agent-1"))];
    let conflicts = staged_files_conflict_with_worktrees(&staged, &worktrees, Some("feat/auth"));
    assert!(conflicts.is_empty());
}

#[test]
fn no_conflict_when_worktree_has_no_contract() {
    let staged = vec!["src/foo.rs".into()];
    let worktrees = vec![wt("feat/x", None, None)];
    let conflicts = staged_files_conflict_with_worktrees(&staged, &worktrees, None);
    assert!(conflicts.is_empty());
}

#[test]
fn conflict_without_owner_says_unassigned() {
    let staged = vec!["src".into(), "docs/x.md".into()];
    let worktrees = vec![wt("feat/db", Some("src/db"), None)];
    let conflicts = staged_files_conflict_with_worktrees(&staged, &worktrees, Some("main"));
    assert_eq!(conflicts, vec!["src conflicts with worktree 'feat/db' (unassigned)".to_string()]);
}

#[test]
fn staged_files_are_the_lines_of_the_output() {
    assert_eq!(staged_files_from_output("a.rs\nsrc/b.rs\r\n"), vec!["a.rs".to_string(), "src/b.rs".to_string()]);
    assert!(staged_files_from_output("").is_empty());
}

#[test]
fn current_branch_is_trimmed_output() {
    assert_eq!(current_branch_from_output("main\n"), Some("main".to_string()));
    assert_eq!(current_branch_from_output("  \n"), None);
}

#[test]
fn worktree_list_reads_branches() {
    let out = "worktree /repo\nHEAD abc\nbranch refs/heads/main\n\nworktree /repo2\nHEAD def\ndetached\n\nworktree /repo3\nHEAD 123\nbranch refs/heads/feat/x\n";
    let wts = parse_worktree_list(out);
    assert_eq!(wts.len(), 2);
    assert_eq!(wts[0].branch, "main");
    assert_eq!(wts[1].branch, "feat/x");
    assert_eq!(wts[1].owner.as_deref(), Some("git-worktree"));
    assert!(wts[1].contract.is_none());
    assert_eq!(wts[1].claimed_at, "");
}

#[test]
fn listing_adds_only_untracked_git_worktrees() {
    let claimed = vec![wt("feat/auth", Some("src/auth"), Some("agent-1"))];
    let git = vec![wt("main", None, Some("git-worktree")), wt("feat/auth", None, Some("git-worktree"))];
    let all = list_worktrees(claimed, git);
    let branches: Vec<&str> = all.iter().map(|w| w.branch.as_str()).collect();
    assert_eq!(branches, vec!["feat/auth", "main"]);
    assert_eq!(all[0].owner.as_deref(), Some("agent-1"));
}

// ── hooks ─────────────────────────────────────────────────────────────

#[test]
fn pre_push_hook_checks_coverage() {
    let hooks = HookSet::default();
    assert!(hooks.pre_push.contains("coverage check"));
    assert!(hooks.pre_push.contains("worktree verify"));
}

#[test]
fn post_checkout_hook_regenerates_agents_md() {
    assert!(HookSet::default().post_checkout.contains("AGENTS.md"));
}

#[test]
fn hook_files_contain_spec_store_calls() {
    let hooks = HookSet::default();
    let files = hook_files(&hooks);
    assert_eq!(files[0].0, "pre-commit");
    assert!(files[0].1.contains("spec-store"));
    assert_eq!(files.len(), 4);
}

#[test]
fn verify_returns_false_when_not_installed() {
    assert!(!verify_hooks_installed(&[]));
    let some: Vec<String> = vec!["pre-commit".into(), "pre-push".into(), "post-merge".into()];
    assert!(!verify_hooks_installed(&some));
}

#[test]
fn verify_returns_true_after_install() {
    let names: Vec<String> = hook_files(&HookSet::default()).iter().map(|f| f.0.to_string()).collect();
    assert!(verify_hooks_installed(&names));
}

// ── store records ─────────────────────────────────────────────────────

#[test]
fn double_claim_returns_error() {
    let first = claim_worktree("feat/auth", None, None, &None, "2024-05-01T10:00:00+00:00".into()).unwrap();
    let result = claim_worktree("feat/auth", None, None, &Some(first), "2024-05-01T11:00:00+00:00".into());
    match result {
        Err(SpecStoreError::WorktreeConflict(msg)) => assert_eq!(msg, "Worktree 'feat/auth' is already claimed"),
        _ => panic!("expected a worktree conflict"),
    }
}

#[test]
fn claim_records_branch_contract_and_owner() {
    let w = claim_worktree("feat/auth", Some("contracts/auth.yaml"), Some("agent-1"), &None, "t".into()).unwrap();
    assert_eq!(w.branch, "feat/auth");
    assert_eq!(w.contract, Some("contracts/auth.yaml".into()));
    assert_eq!(w.owner, Some("agent-1".into()));
    assert_eq!(w.claimed_at, "t");
}

// ── operations ────────────────────────────────────────────────────────

fn registered(name: &str, file: &str) -> RegisteredFn {
    RegisteredFn {
        id: "id".into(),
        name: name.into(),
        file: file.into(),
        line: 1,
        description: String::new(),
        is_test: false,
        created_at: "2024-01-01T00:00:00+00:00".into(),
    }
}

fn info(name: &str, file: &str, is_test: bool) -> FunctionInfo {
    FunctionInfo { name: name.into(), file: file.into(), line: 1, line_count: 3, param_count: 0, complexity: 1, is_test }
}

#[test]
fn catchup_finds_missing_functions() {
    let result = catchup(&[], vec![]);
    assert!(result.missing.is_empty());
    assert_eq!(result.total_scanned, 0);
}

#[test]
fn catchup_reports_only_unregistered() {
    let existing = vec![registered("foo", "src/a.rs")];
    let found = vec![info("foo", "src/a.rs", false), info("bar", "src/a.rs", false), info("foo", "src/b.rs", false)];
    let result = catchup(&existing, found);
    assert_eq!(result.total_scanned, 3);
    let names: Vec<(&str, &str)> = result.missing.iter().map(|f| (f.file.as_str(), f.name.as_str())).collect();
    assert_eq!(names, vec![("src/a.rs", "bar"), ("src/b.rs", "foo")]);
}

#[test]
fn status_report_counts() {
    let decisions = vec![Decision {
        id: "d".into(),
        text: "Use JWT".into(),
        tags: vec![],
        created_at: "2024-01-01T00:00:00+00:00".into(),
    }];
    let report = status(&[registered("bar", "src/bar.rs")], &decisions, &[], 2, true);
    assert_eq!(report.decision_count, 1);
    assert_eq!(report.function_count, 1);
    assert_eq!(report.worktree_count, 0);
    assert_eq!(report.baseline_count, 2);
    assert!(report.hooks_installed);
}

fn default_quality() -> QualityConfig {
    QualityConfig {
        max_file_lines: 300,
        max_fn_lines: 50,
        max_fn_complexity: 10,
        max_fns_per_file: 15,
        max_fn_params: 5,
        warn_only: false,
        exclude: vec!["src/generated/**".into()],
    }
}

fn decision(text: &str) -> Decision {
    Decision { id: "d".into(), text: text.into(), tags: vec![], created_at: "2024-03-05T12:00:00+00:00".into() }
}

#[test]
fn project_rules_includes_config_values() {
    let rules = project_rules(&default_quality(), "85", "0.95", "0.85", &[], &[]);
    assert!(rules.contains("300"));
    assert!(rules.contains("50"));
    assert!(rules.contains("85"));
    assert!(rules.contains("0.95"));
    assert!(rules.contains("| Lines per file (code) | 300 |\n"));
    assert!(rules.contains("| Test coverage per file | 85% |\n"));
    assert!(rules.contains("| Similarity to existing fn | < 0.95 (blocked), < 0.85 (warn) |\n\n"));
    assert!(!rules.contains("Architectural Decisions"));
    assert!(!rules.contains("Active Worktrees"));
}

#[test]
fn project_rules_includes_decisions() {
    let rules = project_rules(&default_quality(), "85", "0.95", "0.85", &[decision("Use JWT for auth")], &[]);
    assert!(rules.contains("JWT"));
    assert!(rules.contains("Architectural Decisions"));
    assert!(rules.contains("- [2024-03-05] Use JWT for auth\n"));
}

#[test]
fn project_rules_lists_at_most_fifteen_decisions() {
    let ds: Vec<Decision> = (0..17).map(|i| decision(&format!("d{i}"))).collect();
    let rules = project_rules(&default_quality(), "85", "0.95", "0.85", &ds, &[]);
    assert!(rules.contains("] d14\n"));
    assert!(!rules.contains("] d15\n"));
    assert!(rules.contains("\n*2 more \u{2014} use `list_decisions` to see all.*\n"));
}

#[test]
fn project_rules_includes_worktrees() {
    let w = wt("feat/auth", None, Some("agent-1"));
    let rules = project_rules(&default_quality(), "85", "0.95", "0.85", &[], &[w]);
    assert!(rules.contains("feat/auth"));
    assert!(rules.contains("agent-1"));
    assert!(rules.contains("- `feat/auth` (agent-1)\n"));
    let w2 = wt("feat/db", Some("db.yaml"), None);
    let rules2 = project_rules(&default_quality(), "85", "0.95", "0.85", &[], &[w2]);
    assert!(rules2.contains("- `feat/db` (unassigned) \u{2192} `db.yaml`\n"));
}

#[test]
fn project_rules_starts_with_header_and_ends_with_tests() {
    let rules = project_rules(&default_quality(), "85", "0.95", "0.85", &[], &[]);
    assert!(rules.starts_with("# spec-store \u{2014} Project Rules\n\n"));
    assert!(rules.ends_with("# generate coverage\n```\n"));
}

#[test]
fn list_tests_filters_correctly() {
    let fns = scan_source("#[test]\nfn test_thing() {\n}\n\nfn prod_fn() {\n}\n", "example.rs", Language::Rust);
    assert_eq!(fns.len(), 2);
    let tests = list_tests(&fns);
    assert_eq!(tests.len(), 1);
    assert_eq!(tests[0].name, "test_thing");
    assert!(tests.iter().all(|f| f.is_test));
}

#[test]
fn test_mappings_with_filter() {
    let fns = scan_source(
        "fn validate() {}\n#[test]\nfn test_validate() {}\n#[test]\nfn test_other() {}\n",
        "example.rs",
        Language::Rust,
    );
    let all = test_mappings(&fns, None);
    assert!(!all.is_empty());
    let filtered = test_mappings(&fns, Some("validate"));
    assert!(filtered.iter().all(|m| m.function_name.contains("validate")));
    let none = test_mappings(&fns, Some("nothing"));
    assert!(none.is_empty());
}

#[test]
fn function_coverage_with_filter() {
    let fns = scan_source("fn foo() {\n}\nfn bar() {\n}\n", "src/lib.rs", Language::Rust);
    let detail = spec_store_core::coverage::lcov::parse_detail_content(
        "SF:src/lib.rs\nDA:1,1\nDA:2,1\nDA:3,1\nDA:4,0\nLF:4\nLH:3\nend_of_record\n",
    )
    .unwrap();
    let filtered = function_coverage(&fns, &detail, Some("foo"));
    assert_eq!(filtered.len(), 1);
    assert!(filtered.iter().all(|r| r.name.contains("foo")));
    let all = function_coverage_for_path(&fns, &detail);
    let names: Vec<&str> = all.iter().map(|r| r.name.as_str()).collect();
    assert_eq!(names, vec!["bar", "foo"]);
}

#[test]
fn function_coverage_without_matching_file_is_empty() {
    let fns = vec![info("foo", "src/x.rs", false)];
    let lcov: PathMap<Vec<LineCoverage>> = PathMap::new();
    assert!(function_coverage(&fns, &lcov, None).is_empty());
}

// ── reuse ─────────────────────────────────────────────────────────────

fn cand(name: &str, file: &str, at_block: bool, at_warn: bool) -> SimilarityCandidate {
    SimilarityCandidate { name: name.into(), file: file.into(), at_block, at_warn }
}

#[test]
fn empty_store_always_clears() {
    let func = info("anything", "src/x.rs", false);
    assert_eq!(similarity_verdict(&func, &[]), SimilarityVerdict::Clear);
}

#[test]
fn self_match_is_skipped() {
    let func = info("validate", "src/risk.rs", false);
    let cands = vec![cand("validate", "src/risk.rs", true, true), cand("validate", "src/risk2.rs", false, true)];
    assert_eq!(similarity_verdict(&func, &cands), SimilarityVerdict::Warning(1));
}

#[test]
fn first_candidate_over_a_limit_decides() {
    let func = info("f", "a.rs", false);
    let cands = vec![cand("g", "b.rs", false, false), cand("h", "c.rs", true, true)];
    assert_eq!(similarity_verdict(&func, &cands), SimilarityVerdict::Blocked(1));
}

// ── report ────────────────────────────────────────────────────────────

#[test]
fn truncate_path_short_path_unchanged() {
    assert_eq!(truncate_path("src/foo.rs", 40), "src/foo.rs");
}

#[test]
fn truncate_path_long_path_truncated() {
    let long = "src/very/deeply/nested/module/submodule/file.rs";
    let result = truncate_path(long, 20);
    assert!(result.starts_with('\u{2026}'));
    assert!(result.chars().count() <= 20);
}

#[test]
fn truncate_path_keeps_the_tail() {
    assert_eq!(truncate_path("abcdefghij", 5), "\u{2026}ghij");
    assert_eq!(truncate_path("abcde", 5), "abcde");
}

// ── embeddings ────────────────────────────────────────────────────────

fn bucket(word: &str) -> usize {
    let h = Sha256::digest(word.as_bytes());
    (h[0] as usize + h[1] as usize * 256) % 64
}

#[test]
fn embed_text_returns_correct_dimension() {
    let v = embedding_counts("validate stake limit betting");
    assert_eq!(v.len(), 64);
    assert_eq!(v.iter().sum::<u32>(), 4);
}

#[test]
fn embedding_counts_each_word_in_its_digest_bucket() {
    let v = embedding_counts("validate");
    assert_eq!(v[bucket("validate")], 1);
    assert_eq!(v.iter().sum::<u32>(), 1);
}

#[test]
fn embedding_ignores_case_and_surrounding_punctuation() {
    assert_eq!(embedding_counts("Validate, STAKE! (Limit)"), embedding_counts("validate stake limit"));
    let v = embedding_counts("--- ...");
    assert!(v.iter().all(|&c| c == 0));
    let twice = embedding_counts("stake stake");
    assert_eq!(twice[bucket("stake")], 2);
}
