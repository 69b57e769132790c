use spec_store_core::config::QualityConfig;
use spec_store_core::scanner::language::{detect_language, is_source_path, profile_for, Language};
use spec_store_core::scanner::quality::{
    check_file_length, check_function, check_function_count, check_source, count_code_lines,
    has_errors, FileViolation, Violation,
};
use spec_store_core::scanner::regex_scanner::{
    count_params, count_params_named_self, is_test_function, scan_source, FunctionInfo,
};
use spec_store_core::scanner::test_detect::{
    find_cfg_test_ranges, find_python_test_class_ranges, is_test_python, is_test_rust,
    is_test_typescript,
};
use spec_store_core::scanner::test_mapper::{compute_mappings, normalize_file, strip_test_prefix};
use spec_store_core::scanner::measure_block;

fn default_config() -> QualityConfig {
    QualityConfig {
        max_file_lines: 300,
        max_fn_lines: 50,
        max_fn_complexity: 10,
        max_fns_per_file: 15,
        max_fn_params: 5,
        warn_only: false,
        exclude: vec![],
    }
}

// ── language ──────────────────────────────────────────────────────────

#[test]
fn detects_known_extensions() {
    assert_eq!(detect_language("a.rs"), Language::Rust);
    assert_eq!(detect_language("a.py"), Language::Python);
    assert_eq!(detect_language("a.ts"), Language::TypeScript);
    assert_eq!(detect_language("a.tsx"), Language::TypeScript);
    assert_eq!(detect_language("a.js"), Language::TypeScript);
    assert_eq!(detect_language("a.jsx"), Language::TypeScript);
    assert_eq!(detect_language("a.mjs"), Language::TypeScript);
    assert_eq!(detect_language("a.cjs"), Language::TypeScript);
    assert_eq!(detect_language("a.json"), Language::Unknown);
}

#[test]
fn is_source_path_recognises_supported() {
    assert!(is_source_path("src/lib.rs"));
    assert!(is_source_path("app/main.py"));
    assert!(is_source_path("ui/button.tsx"));
    assert!(is_source_path("ui/button.jsx"));
    assert!(!is_source_path("README.md"));
}

#[test]
fn profile_lookup_by_language() {
    assert_eq!(profile_for(Language::Rust).unwrap().language, Language::Rust);
    assert!(profile_for(Language::Unknown).is_none());
}

#[test]
fn typescript_profile_compiles_two_patterns() {
    let p = profile_for(Language::TypeScript).unwrap();
    assert_eq!(p.function_patterns.len(), 2);
}

#[test]
fn unknown_language_has_no_patterns() {
    assert!(profile_for(Language::Unknown).is_none());
}

#[test]
fn python_doc_block_delimiters_include_both_quote_styles() {
    let p = profile_for(Language::Python).unwrap();
    assert_eq!(p.doc_block_delimiters.len(), 2);
}

#[test]
fn extension_is_taken_after_the_last_dot_only() {
    assert_eq!(detect_language("archive.rs.bak"), Language::Unknown);
    assert_eq!(detect_language("Makefile"), Language::Unknown);
    assert_eq!(detect_language("dir.rs/file"), Language::Unknown);
}

// ── quality ───────────────────────────────────────────────────────────

#[test]
fn clean_file_has_no_violations() {
    let fv = FileViolation { file: "f.rs".into(), violations: vec![] };
    assert!(!fv.has_errors());
}

#[test]
fn file_with_error_has_errors() {
    let fv = FileViolation { file: "f.rs".into(), violations: vec![Violation::error("too long")] };
    assert!(fv.has_errors());
}

#[test]
fn warn_only_does_not_block() {
    let fv = FileViolation { file: "f.rs".into(), violations: vec![Violation::error("too long")] };
    assert!(!has_errors(&[fv], true));
}

#[test]
fn warnings_alone_do_not_block() {
    let fv = FileViolation { file: "f.rs".into(), violations: vec![Violation::warn("long-ish")] };
    assert!(!fv.has_errors());
    assert!(!has_errors(&[fv], false));
}

#[test]
fn count_code_lines_skips_blanks_and_comments() {
    let src = "// comment\n\nfn foo() {}\n";
    assert_eq!(count_code_lines(src, profile_for(Language::Rust)), 1);
}

#[test]
fn count_code_lines_skips_python_docstrings() {
    let src = "def foo():\n    \"\"\"docstring line one\n    line two\n    \"\"\"\n    return 1\n";
    assert_eq!(count_code_lines(src, profile_for(Language::Python)), 2);
}

#[test]
fn count_code_lines_skips_jsdoc_blocks() {
    let src = "/**\n * Greet user\n */\nfunction hello() {}\n";
    assert_eq!(count_code_lines(src, profile_for(Language::TypeScript)), 1);
}

#[test]
fn count_code_lines_without_profile_falls_back() {
    let src = "// comment\n# also comment\nreal\n";
    assert_eq!(count_code_lines(src, None), 1);
}

#[test]
fn file_length_violation_raised() {
    let mut v = vec![];
    let mut config = default_config();
    config.max_file_lines = 5;
    check_file_length(10, &config, &mut v);
    assert_eq!(v.len(), 1);
    assert!(!v[0].is_warning);
}

#[test]
fn file_length_warn_only() {
    let mut v = vec![];
    let mut config = default_config();
    config.max_file_lines = 5;
    config.warn_only = true;
    check_file_length(10, &config, &mut v);
    assert!(v[0].is_warning);
}

#[test]
fn file_length_at_limit_is_fine() {
    let mut v = vec![];
    let mut config = default_config();
    config.max_file_lines = 10;
    check_file_length(10, &config, &mut v);
    assert!(v.is_empty());
}

#[test]
fn function_count_violation() {
    let mut v = vec![];
    let mut config = default_config();
    config.max_fns_per_file = 2;
    check_function_count(5, &config, &mut v);
    assert_eq!(v.len(), 1);
}

#[test]
fn check_function_complexity_violation() {
    let info = FunctionInfo {
        name: "complex".into(),
        file: "f.rs".into(),
        line: 1,
        line_count: 10,
        param_count: 0,
        complexity: 20,
        is_test: false,
    };
    let mut v = vec![];
    check_function(&info, &default_config(), &mut v);
    assert!(v.iter().any(|v| v.message.contains("complexity")));
}

#[test]
fn check_function_params_warning() {
    let info = FunctionInfo {
        name: "many_params".into(),
        file: "f.rs".into(),
        line: 1,
        line_count: 5,
        param_count: 8,
        complexity: 1,
        is_test: false,
    };
    let mut v = vec![];
    check_function(&info, &default_config(), &mut v);
    assert!(v.iter().any(|v| v.is_warning && v.message.contains("params")));
}

#[test]
fn check_source_on_clean_source() {
    let result = check_source("clean.rs", "fn hello() { println!(\"hi\"); }\n", &default_config());
    assert!(!result.has_errors());
    assert_eq!(result.file, "clean.rs");
}

#[test]
fn check_source_skips_excluded() {
    let mut cfg = default_config();
    cfg.exclude = vec!["generated".into()];
    let result = check_source("dir/generated.rs", &"fn a(){}\nfn b(){}\n".repeat(20), &cfg);
    assert!(result.violations.is_empty());
}

#[test]
fn check_source_finds_long_function() {
    let long_fn = format!("fn big() {{\n{}\n}}\n", "let x = 1;\n".repeat(60));
    let result = check_source("big.rs", &long_fn, &default_config());
    assert!(result.has_errors());
}

// ── regex scanner ─────────────────────────────────────────────────────

const RUST_SRC: &str = r#"
pub fn validate_stake(amount: f64, limit: f64) -> bool {
    if amount <= 0.0 { return false; }
    amount <= limit
}

async fn fetch_customer(id: u64, db: &Database) -> Result<Customer> {
    db.find(id).await
}

fn no_params() {}
"#;

#[test]
fn detects_rust_language() {
    assert_eq!(detect_language("src/foo.rs"), Language::Rust);
    assert_eq!(detect_language("app.py"), Language::Python);
    assert_eq!(detect_language("util.ts"), Language::TypeScript);
    assert_eq!(detect_language("data.json"), Language::Unknown);
}

#[test]
fn extracts_rust_functions() {
    let fns = scan_source(RUST_SRC, "src/risk.rs", Language::Rust);
    let names: Vec<&str> = fns.iter().map(|f| f.name.as_str()).collect();
    assert!(names.contains(&"validate_stake"));
    assert!(names.contains(&"fetch_customer"));
    assert!(names.contains(&"no_params"));
}

#[test]
fn counts_rust_parameters_correctly() {
    let fns = scan_source(RUST_SRC, "src/risk.rs", Language::Rust);
    let stake = fns.iter().find(|f| f.name == "validate_stake").unwrap();
    assert_eq!(stake.param_count, 2);
    let no_params = fns.iter().find(|f| f.name == "no_params").unwrap();
    assert_eq!(no_params.param_count, 0);
}

#[test]
fn extracts_python_functions() {
    let src = "def calculate_total(items, tax_rate):\n    return sum(items) * tax_rate\n";
    let fns = scan_source(src, "calc.py", Language::Python);
    assert_eq!(fns.len(), 1);
    assert_eq!(fns[0].name, "calculate_total");
    assert_eq!(fns[0].param_count, 2);
}

#[test]
fn extracts_typescript_functions() {
    let src = "export async function fetchUser(id: string, token: string): Promise<User> {\n  return api.get(id);\n}\n";
    let fns = scan_source(src, "api.ts", Language::TypeScript);
    assert_eq!(fns.len(), 1);
    assert_eq!(fns[0].param_count, 2);
}

#[test]
fn extracts_typescript_arrow_functions() {
    let src = "export const fetchUser = async (id: string, token: string): Promise<User> => {\n  return api.get(id);\n};\n";
    let fns = scan_source(src, "api.ts", Language::TypeScript);
    assert_eq!(fns.len(), 1);
    assert_eq!(fns[0].name, "fetchUser");
    assert_eq!(fns[0].param_count, 2);
}

#[test]
fn extracts_javascript_arrow_functions() {
    let src = "const add = (a, b) => a + b;\n";
    let fns = scan_source(src, "math.js", Language::TypeScript);
    assert_eq!(fns.len(), 1);
    assert_eq!(fns[0].name, "add");
    assert_eq!(fns[0].param_count, 2);
}

#[test]
fn does_not_double_count_when_patterns_overlap() {
    let src = "function foo() {}\nconst bar = () => {};\n";
    let fns = scan_source(src, "x.ts", Language::TypeScript);
    assert_eq!(fns.len(), 2);
}

#[test]
fn unknown_language_returns_empty() {
    let fns = scan_source("some content", "data.json", Language::Unknown);
    assert!(fns.is_empty());
}

#[test]
fn count_params_unknown_returns_zero() {
    assert_eq!(count_params(Language::Unknown, "a, b, c"), 0);
}

#[test]
fn is_test_function_unknown_is_false() {
    assert!(!is_test_function(Language::Unknown, "anything", "", "x.txt", 1));
}

#[test]
fn count_params_named_self_empty_is_zero() {
    assert_eq!(count_params_named_self("   ", "self"), 0);
}

#[test]
fn complexity_includes_base_of_one() {
    let fns = scan_source(RUST_SRC, "src/risk.rs", Language::Rust);
    let stake = fns.iter().find(|f| f.name == "validate_stake").unwrap();
    assert!(stake.complexity >= 1);
}

#[test]
fn scanned_functions_come_in_line_order() {
    let fns = scan_source(RUST_SRC, "src/risk.rs", Language::Rust);
    assert_eq!(fns.len(), 3);
    for w in fns.windows(2) {
        assert!(w[0].line <= w[1].line);
    }
    // The Rust pattern's leading `\s*` takes in the blank first line.
    assert_eq!(fns[0].line, 1);
    assert_eq!(fns[0].line_count, 5);
}

#[test]
fn rust_self_parameter_is_not_counted() {
    assert_eq!(count_params(Language::Rust, "&self, a: u32"), 1);
    assert_eq!(count_params(Language::Python, "self, a, b"), 2);
    assert_eq!(count_params(Language::TypeScript, "a, b, c"), 3);
}

#[test]
fn measure_block_counts_braced_lines() {
    let lines: Vec<String> = vec!["fn f() {".into(), "  if x {".into(), "  }".into(), "}".into(), "fn g() {}".into()];
    let (count, complexity) = measure_block(&lines, 1);
    assert_eq!(count, 4);
    assert_eq!(complexity, 2);
}

// ── test detection ────────────────────────────────────────────────────

#[test]
fn detects_test_attribute() {
    let source = "fn prod() {}\n\n#[test]\nfn test_thing() {}\n";
    let ranges = find_cfg_test_ranges(source);
    assert!(!is_test_rust(source, 1, &ranges));
    assert!(is_test_rust(source, 4, &ranges));
}

#[test]
fn detects_tokio_test() {
    let source = "#[tokio::test]\nasync fn test_async() {}\n";
    let ranges = find_cfg_test_ranges(source);
    assert!(is_test_rust(source, 2, &ranges));
}

#[test]
fn detects_cfg_test_module() {
    let source = "\
fn prod_fn() {}

#[cfg(test)]
mod tests {
    fn helper() {}
    #[test]
    fn test_a() {}
}
";
    let ranges = find_cfg_test_ranges(source);
    assert_eq!(ranges.len(), 1);
    assert_eq!(ranges[0], (3, 8));
    assert!(!is_test_rust(source, 1, &ranges));
    assert!(is_test_rust(source, 5, &ranges));
    assert!(is_test_rust(source, 7, &ranges));
}

#[test]
fn non_test_function_not_detected() {
    let source = "pub fn validate(x: i32) -> bool { x > 0 }\n";
    let ranges = find_cfg_test_ranges(source);
    assert!(!is_test_rust(source, 1, &ranges));
}

#[test]
fn python_test_prefix() {
    assert!(is_test_python("test_validate", "", 1));
    assert!(!is_test_python("validate", "", 1));
    assert!(!is_test_python("helper", "", 1));
}

#[test]
fn python_pytest_decorator() {
    let source = "@pytest.mark.parametrize('x', [1,2])\ndef check(x):\n    pass\n";
    assert!(is_test_python("check", source, 2));
}

#[test]
fn typescript_test_conventions() {
    assert!(is_test_typescript("test_render", "src/app.ts"));
    assert!(is_test_typescript("render", "src/app.test.ts"));
    assert!(is_test_typescript("render", "src/__tests__/app.ts"));
    assert!(is_test_typescript("render", "src/app.spec.tsx"));
    assert!(!is_test_typescript("render", "src/app.ts"));
}

#[test]
fn javascript_test_conventions() {
    assert!(is_test_typescript("render", "src/app.test.js"));
    assert!(is_test_typescript("render", "src/app.spec.jsx"));
    assert!(!is_test_typescript("render", "src/app.js"));
}

#[test]
fn python_unittest_class_methods_are_tests() {
    let source = "\
class TestStakes(unittest.TestCase):
    def setUp(self):
        self.x = 1
    def test_value(self):
        self.assertEqual(self.x, 1)

def regular():
    pass
";
    assert!(is_test_python("setUp", source, 2));
    assert!(is_test_python("test_value", source, 4));
    assert!(!is_test_python("regular", source, 7));
}

#[test]
fn python_test_class_range_excludes_following_code() {
    let source = "\
class TestFoo:
    def helper(self):
        pass

def outside():
    pass
";
    let ranges = find_python_test_class_ranges(source);
    assert_eq!(ranges.len(), 1);
    let (start, end) = ranges[0];
    assert_eq!(start, 1);
    assert!(end < 5);
}

#[test]
fn class_not_starting_with_test_is_not_test_class() {
    let source = "class Helper:\n    def foo(self):\n        pass\n";
    assert!(find_python_test_class_ranges(source).is_empty());
    assert!(!is_test_python("foo", source, 2));
}

// ── test mapping ──────────────────────────────────────────────────────

fn prod(name: &str, file: &str) -> FunctionInfo {
    FunctionInfo {
        name: name.into(),
        file: file.into(),
        line: 1,
        line_count: 10,
        param_count: 0,
        complexity: 1,
        is_test: false,
    }
}

fn test_fn(name: &str, file: &str) -> FunctionInfo {
    FunctionInfo {
        name: name.into(),
        file: file.into(),
        line: 50,
        line_count: 5,
        param_count: 0,
        complexity: 1,
        is_test: true,
    }
}

#[test]
fn name_match_links_test_to_prod() {
    let fns = vec![prod("validate_stake", "src/risk.rs"), test_fn("test_validate_stake", "src/risk.rs")];
    let mappings = compute_mappings(&fns);
    assert_eq!(mappings.len(), 1);
    assert_eq!(mappings[0].function_name, "validate_stake");
    assert_eq!(mappings[0].test_name, "test_validate_stake");
    assert_eq!(mappings[0].match_type, "name");
}

#[test]
fn name_prefix_match() {
    let fns = vec![prod("validate", "src/risk.rs"), test_fn("test_validate_returns_true", "src/risk.rs")];
    let mappings = compute_mappings(&fns);
    assert_eq!(mappings.len(), 1);
    assert_eq!(mappings[0].function_name, "validate");
    assert_eq!(mappings[0].match_type, "name");
}

#[test]
fn file_match_when_no_name_match() {
    let fns = vec![prod("parse_config", "src/config.rs"), test_fn("test_roundtrip", "src/config.rs")];
    let mappings = compute_mappings(&fns);
    assert_eq!(mappings.len(), 1);
    assert_eq!(mappings[0].function_name, "parse_config");
    assert_eq!(mappings[0].match_type, "file");
}

#[test]
fn no_mapping_for_unrelated() {
    let fns = vec![prod("validate_stake", "src/risk.rs"), test_fn("test_render_page", "src/ui.rs")];
    let mappings = compute_mappings(&fns);
    assert!(mappings.is_empty());
}

#[test]
fn strip_test_prefix_works() {
    assert_eq!(strip_test_prefix("test_foo"), Some("foo".into()));
    assert_eq!(strip_test_prefix("tests::test_bar"), Some("bar".into()));
    assert_eq!(strip_test_prefix("helper"), None);
}

#[test]
fn multiple_tests_for_one_function() {
    let fns = vec![
        prod("validate", "src/risk.rs"),
        test_fn("test_validate_positive", "src/risk.rs"),
        test_fn("test_validate_negative", "src/risk.rs"),
    ];
    let mappings = compute_mappings(&fns);
    assert_eq!(mappings.len(), 2);
    assert!(mappings.iter().all(|m| m.function_name == "validate"));
}

#[test]
fn test_directory_maps_to_source_file() {
    assert_eq!(normalize_file("tests/test_risk.py").into_iter().collect::<String>(), "src/risk.py");
    assert_eq!(normalize_file("src/app.test.ts").into_iter().collect::<String>(), "src/app.ts");
    assert_eq!(normalize_file("src/app.spec.tsx").into_iter().collect::<String>(), "src/app.tsx");
    let fns = vec![prod("parse", "src/risk.py"), test_fn("test_roundtrip", "tests/test_risk.py")];
    let mappings = compute_mappings(&fns);
    assert_eq!(mappings.len(), 1);
    assert_eq!(mappings[0].match_type, "file");
}

#[test]
fn scanned_functions_stay_within_bounds() {
    let fns = scan_source(RUST_SRC, "src/risk.rs", Language::Rust);
    assert!(!fns.is_empty());
    for f in &fns {
        assert_eq!(f.file, "src/risk.rs");
        assert!(f.line >= 1);
        assert!(f.line_count <= 201);
        assert!(f.complexity >= 1 && f.complexity <= 51);
    }
    let long = format!("fn big() {{\n{}}}\n", "    if x && y || z {}\n".repeat(300));
    let big = scan_source(&long, "big.rs", Language::Rust);
    assert_eq!(big[0].line_count, 201);
    assert_eq!(big[0].complexity, 51);
}

#[test]
fn extension_follows_the_last_normal_component() {
    assert_eq!(detect_language("dir/x.rs/"), Language::Rust);
    assert_eq!(detect_language("dir/x.py/."), Language::Python);
    assert_eq!(detect_language("x.rs/.."), Language::Unknown);
    assert_eq!(detect_language("src/.rs"), Language::Unknown);
    assert_eq!(detect_language("src/..rs"), Language::Rust);
    assert_eq!(detect_language("src/a.tar.ts"), Language::TypeScript);
    assert_eq!(detect_language("/"), Language::Unknown);
    assert_eq!(detect_language(""), Language::Unknown);
}
