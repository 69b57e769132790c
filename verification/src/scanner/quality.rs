//! Quality gates: file length, function count, and per-function limits.
use vstd::prelude::*;

use crate::config::{strings_view, QualityConfig};
use crate::scanner::language::{
    detect_language, pairs_view, profile_for, spec_comment_prefixes, spec_detect_language,
    spec_doc_delimiters, Language, LanguageProfile,
};
use crate::scanner::regex_scanner::{fn_views, scan_source, spec_scan_source, FunctionInfo, FunctionModel};
use crate::scanner::test_detect::{find_cfg_test_ranges, spec_cfg_test_ranges};
use crate::text::{
    chars_of, contains_str, decimal, has_sub, lines, push_decimal, push_str, source_lines,
    starts_with_str, string_of, trim, trimmed,
};
use crate::util::{excluded_by, is_excluded};

verus! {

#[derive(Debug, Clone)]
pub struct FileViolation {
    pub file: String,
    pub violations: Vec<Violation>,
}

#[derive(Debug, Clone)]
pub struct Violation {
    pub message: String,
    pub is_warning: bool,
}

impl View for Violation {
    type V = (Seq<char>, bool);

    open spec fn view(&self) -> (Seq<char>, bool) {
        (self.message@, self.is_warning)
    }
}

/// The views of a list of violations.
pub open spec fn violation_views(v: Seq<Violation>) -> Seq<(Seq<char>, bool)> {
    v.map_values(|x: Violation| x@)
}

impl FileViolation {
    /// Whether one of the violations is an error rather than a warning.
    pub open spec fn spec_has_errors(&self) -> bool {
        exists|i: int| 0 <= i < self.violations@.len() && !(#[trigger] self.violations@[i]).is_warning
    }

    pub fn has_errors(&self) -> (r: bool)
        ensures
            r == self.spec_has_errors(),
    {
        let mut i: usize = 0;
        while i < self.violations.len()
            invariant
                i <= self.violations@.len(),
                forall|k: int| 0 <= k < i ==> (#[trigger] self.violations@[k]).is_warning,
            decreases self.violations@.len() - i,
        {
            if !self.violations[i].is_warning {
                return true;
            }
            i = i + 1;
        }
        false
    }
}

impl Violation {
    pub fn error(msg: &str) -> (r: Self)
        ensures
            r@ == (msg@, false),
    {
        Violation { message: string_of(&chars_of(msg)), is_warning: false }
    }

    pub fn warn(msg: &str) -> (r: Self)
        ensures
            r@ == (msg@, true),
    {
        Violation { message: string_of(&chars_of(msg)), is_warning: true }
    }
}

/// Whether the gates fail: some file has an error, unless only warnings
/// are wanted.
pub fn has_errors(violations: &[FileViolation], warn_only: bool) -> (r: bool)
    ensures
        r == (!warn_only && exists|i: int|
            0 <= i < violations@.len() && (#[trigger] violations@[i]).spec_has_errors()),
{
    if warn_only {
        return false;
    }
    let mut i: usize = 0;
    while i < violations.len()
        invariant
            i <= violations@.len(),
            !warn_only,
            forall|k: int| 0 <= k < i ==> !(#[trigger] violations@[k]).spec_has_errors(),
        decreases violations@.len() - i,
    {
        if violations[i].has_errors() {
            assert(violations@[i as int].spec_has_errors());
            return true;
        }
        i = i + 1;
    }
    false
}

// ---------------------------------------------------------------------------
// Limits
// ---------------------------------------------------------------------------
/// The message for a file with too many code lines.
pub open spec fn msg_file_length(lines: nat, max: nat) -> Seq<char> {
    "File has "@ + decimal(lines) + " code lines (max "@ + decimal(max) + ")"@
}

/// The message for a file with too many functions.
pub open spec fn msg_function_count(count: nat, max: nat) -> Seq<char> {
    decimal(count) + " functions in file (max "@ + decimal(max) + ")"@
}

/// The message for a function with too many lines.
pub open spec fn msg_fn_lines(name: Seq<char>, lines: nat, max: nat) -> Seq<char> {
    "fn "@ + name + "(): "@ + decimal(lines) + " lines (max "@ + decimal(max) + ")"@
}

/// The message for a function that is too complex.
pub open spec fn msg_fn_complexity(name: Seq<char>, complexity: nat, max: nat) -> Seq<char> {
    "fn "@ + name + "(): "@ + "complexity "@ + decimal(complexity) + " (max "@ + decimal(max) + ")"@
}

/// The message for a function with too many parameters.
pub open spec fn msg_fn_params(name: Seq<char>, params: nat, max: nat) -> Seq<char> {
    "fn "@ + name + "(): "@ + decimal(params) + " params (max "@ + decimal(max)
        + " \u{2014} consider a config struct)"@
}

/// The violations for a file with `lines` code lines.
pub open spec fn spec_file_length_violations(lines: nat, config: QualityConfig) -> Seq<(Seq<char>, bool)> {
    if lines > config.max_file_lines {
        seq![(msg_file_length(lines, config.max_file_lines as nat), config.warn_only)]
    } else {
        seq![]
    }
}

/// The violations for a file with `count` production functions.
pub open spec fn spec_function_count_violations(count: nat, config: QualityConfig) -> Seq<(Seq<char>, bool)> {
    if count > config.max_fns_per_file {
        seq![(msg_function_count(count, config.max_fns_per_file as nat), config.warn_only)]
    } else {
        seq![]
    }
}

/// The violations of one function: too many lines or too complex (errors
/// unless only warnings are wanted), too many parameters (a warning).
pub open spec fn spec_function_violations(f: FunctionModel, config: QualityConfig) -> Seq<(Seq<char>, bool)> {
    (if f.line_count > config.max_fn_lines {
        seq![(msg_fn_lines(f.name, f.line_count as nat, config.max_fn_lines as nat), config.warn_only)]
    } else {
        seq![]
    }) + (if f.complexity > config.max_fn_complexity {
        seq![(msg_fn_complexity(f.name, f.complexity as nat, config.max_fn_complexity as nat), config.warn_only)]
    } else {
        seq![]
    }) + (if f.param_count > config.max_fn_params {
        seq![(msg_fn_params(f.name, f.param_count as nat, config.max_fn_params as nat), true)]
    } else {
        seq![]
    })
}

/// The per-function limits: one violation for each limit a function
/// exceeds and none otherwise. Too many lines or too much complexity is an
/// error, or a warning under `warn_only`; too many parameters is always a
/// warning. So without `warn_only`, a function over its line or complexity
/// limit always gives the file an error.
pub proof fn lemma_function_limits(f: FunctionModel, config: QualityConfig)
    ensures
        ({
            let v = spec_function_violations(f, config);
            &&& v.len() == (if f.line_count > config.max_fn_lines { 1int } else { 0int }) + (if f.complexity
                > config.max_fn_complexity { 1int } else { 0int }) + (if f.param_count > config.max_fn_params {
                1int
            } else {
                0int
            })
            &&& f.line_count > config.max_fn_lines ==> v.contains(
                (
                    "fn "@ + f.name + "(): "@ + decimal(f.line_count as nat) + " lines (max "@ + decimal(
                        config.max_fn_lines as nat,
                    ) + ")"@,
                    config.warn_only,
                ),
            )
            &&& f.complexity > config.max_fn_complexity ==> v.contains(
                (
                    "fn "@ + f.name + "(): "@ + "complexity "@ + decimal(f.complexity as nat) + " (max "@
                        + decimal(config.max_fn_complexity as nat) + ")"@,
                    config.warn_only,
                ),
            )
            &&& f.param_count > config.max_fn_params ==> v.contains(
                (
                    "fn "@ + f.name + "(): "@ + decimal(f.param_count as nat) + " params (max "@ + decimal(
                        config.max_fn_params as nat,
                    ) + " \u{2014} consider a config struct)"@,
                    true,
                ),
            )
            &&& (exists|i: int| 0 <= i < v.len() && !(#[trigger] v[i]).1) <==> (!config.warn_only && (
            f.line_count > config.max_fn_lines || f.complexity > config.max_fn_complexity))
        }),
{
    let v = spec_function_violations(f, config);
    let a = if f.line_count > config.max_fn_lines {
        seq![(msg_fn_lines(f.name, f.line_count as nat, config.max_fn_lines as nat), config.warn_only)]
    } else {
        Seq::<(Seq<char>, bool)>::empty()
    };
    let b = if f.complexity > config.max_fn_complexity {
        seq![(msg_fn_complexity(f.name, f.complexity as nat, config.max_fn_complexity as nat), config.warn_only)]
    } else {
        Seq::<(Seq<char>, bool)>::empty()
    };
    let c = if f.param_count > config.max_fn_params {
        seq![(msg_fn_params(f.name, f.param_count as nat, config.max_fn_params as nat), true)]
    } else {
        Seq::<(Seq<char>, bool)>::empty()
    };
    assert(v == a + b + c);
    if f.line_count > config.max_fn_lines {
        assert(v[0] == a[0]);
    }
    if f.complexity > config.max_fn_complexity {
        assert(v[a.len() as int] == b[0]);
    }
    if f.param_count > config.max_fn_params {
        assert(v[(a.len() + b.len()) as int] == c[0]);
    }
    if !config.warn_only && (f.line_count > config.max_fn_lines || f.complexity > config.max_fn_complexity) {
        if f.line_count > config.max_fn_lines {
            assert(!v[0].1);
        } else {
            assert(!v[a.len() as int].1);
        }
    }
    assert forall|i: int| 0 <= i < v.len() && !(#[trigger] v[i]).1 implies (!config.warn_only && (
    f.line_count > config.max_fn_lines || f.complexity > config.max_fn_complexity)) by {
        if i < a.len() {
            assert(v[i] == a[i]);
        } else if i < a.len() + b.len() {
            assert(v[i] == b[i - a.len()]);
        } else {
            assert(v[i] == c[i - a.len() - b.len()]);
        }
    }
}

/// A violation whose severity follows `warn_only`.
fn gated(msg: Vec<char>, warn_only: bool) -> (r: Violation)
    ensures
        r@ == (msg@, warn_only),
{
    Violation { message: string_of(&msg), is_warning: warn_only }
}

pub fn check_file_length(lines: usize, config: &QualityConfig, v: &mut Vec<Violation>)
    ensures
        violation_views(final(v)@) == violation_views(old(v)@) + spec_file_length_violations(
            lines as nat,
            *config,
        ),
{
    let ghost before = violation_views(v@);
    if lines > config.max_file_lines {
        let mut m: Vec<char> = Vec::new();
        push_str(&mut m, "File has ");
        push_decimal(&mut m, lines as u64);
        push_str(&mut m, " code lines (max ");
        push_decimal(&mut m, config.max_file_lines as u64);
        push_str(&mut m, ")");
        assert(m@ =~= msg_file_length(lines as nat, config.max_file_lines as nat));
        v.push(gated(m, config.warn_only));
        assert(violation_views(v@) =~= before + spec_file_length_violations(lines as nat, *config));
    } else {
        assert(violation_views(v@) =~= before + spec_file_length_violations(lines as nat, *config));
    }
}

pub fn check_function_count(count: usize, config: &QualityConfig, v: &mut Vec<Violation>)
    ensures
        violation_views(final(v)@) == violation_views(old(v)@) + spec_function_count_violations(
            count as nat,
            *config,
        ),
{
    let ghost before = violation_views(v@);
    if count > config.max_fns_per_file {
        let mut m: Vec<char> = Vec::new();
        push_decimal(&mut m, count as u64);
        push_str(&mut m, " functions in file (max ");
        push_decimal(&mut m, config.max_fns_per_file as u64);
        push_str(&mut m, ")");
        assert(m@ =~= msg_function_count(count as nat, config.max_fns_per_file as nat));
        v.push(gated(m, config.warn_only));
        assert(violation_views(v@) =~= before + spec_function_count_violations(count as nat, *config));
    } else {
        assert(violation_views(v@) =~= before + spec_function_count_violations(count as nat, *config));
    }
}

/// Starts a message about function `name`: `fn <name>(): `.
fn fn_message_head(name: &String) -> (r: Vec<char>)
    ensures
        r@ == "fn "@ + name@ + "(): "@,
{
    let mut m: Vec<char> = Vec::new();
    push_str(&mut m, "fn ");
    push_str(&mut m, name.as_str());
    push_str(&mut m, "(): ");
    m
}

pub fn check_function(f: &FunctionInfo, config: &QualityConfig, v: &mut Vec<Violation>)
    ensures
        violation_views(final(v)@) == violation_views(old(v)@) + spec_function_violations(f@, *config),
{
    let ghost before = violation_views(v@);
    let ghost a = if f.line_count > config.max_fn_lines {
        seq![(msg_fn_lines(f.name@, f.line_count as nat, config.max_fn_lines as nat), config.warn_only)]
    } else {
        Seq::<(Seq<char>, bool)>::empty()
    };
    let ghost b = if f.complexity > config.max_fn_complexity {
        seq![(msg_fn_complexity(f.name@, f.complexity as nat, config.max_fn_complexity as nat), config.warn_only)]
    } else {
        Seq::<(Seq<char>, bool)>::empty()
    };
    if f.line_count > config.max_fn_lines {
        let mut m = fn_message_head(&f.name);
        push_decimal(&mut m, f.line_count as u64);
        push_str(&mut m, " lines (max ");
        push_decimal(&mut m, config.max_fn_lines as u64);
        push_str(&mut m, ")");
        assert(m@ =~= msg_fn_lines(f.name@, f.line_count as nat, config.max_fn_lines as nat));
        v.push(gated(m, config.warn_only));
    }
    assert(violation_views(v@) =~= before + a);
    if f.complexity > config.max_fn_complexity {
        let mut m = fn_message_head(&f.name);
        push_str(&mut m, "complexity ");
        push_decimal(&mut m, f.complexity as u64);
        push_str(&mut m, " (max ");
        push_decimal(&mut m, config.max_fn_complexity as u64);
        push_str(&mut m, ")");
        assert(m@ =~= msg_fn_complexity(f.name@, f.complexity as nat, config.max_fn_complexity as nat));
        v.push(gated(m, config.warn_only));
    }
    assert(violation_views(v@) =~= before + a + b);
    if f.param_count > config.max_fn_params {
        let mut m = fn_message_head(&f.name);
        push_decimal(&mut m, f.param_count as u64);
        push_str(&mut m, " params (max ");
        push_decimal(&mut m, config.max_fn_params as u64);
        push_str(&mut m, " \u{2014} consider a config struct)");
        assert(m@ =~= msg_fn_params(f.name@, f.param_count as nat, config.max_fn_params as nat));
        v.push(Violation { message: string_of(&m), is_warning: true });
    }
    assert(violation_views(v@) =~= before + spec_function_violations(f@, *config));
}

// ---------------------------------------------------------------------------
// Code lines
// ---------------------------------------------------------------------------
/// The comment prefixes of a profile; without one, `//` and `#`.
pub open spec fn profile_comment_prefixes(p: Option<LanguageProfile>) -> Seq<Seq<char>> {
    match p {
        Some(p) => p.comment_line_prefixes@.map_values(|e: &'static str| e@),
        None => seq!["//"@, "#"@],
    }
}

/// The doc-block delimiters of a profile; without one, none.
pub open spec fn profile_doc_delimiters(p: Option<LanguageProfile>) -> Seq<(Seq<char>, Seq<char>)> {
    match p {
        Some(p) => pairs_view(p.doc_block_delimiters@),
        None => seq![],
    }
}

/// The first delimiter pair, from index `k` on, whose opening starts the
/// trimmed line `t`: `Some(None)` when the block also closes on the line,
/// `Some(Some(close))` when it stays open until `close`, `None` when no
/// opening matches.
pub open spec fn doc_open_from(ds: Seq<(Seq<char>, Seq<char>)>, k: int, t: Seq<char>) -> Option<
    Option<Seq<char>>,
>
    decreases ds.len() - k,
{
    if k < 0 || k >= ds.len() {
        None
    } else if ds[k].0.is_prefix_of(t) {
        if has_sub(t.skip(ds[k].0.len() as int), ds[k].1) {
            Some(None)
        } else {
            Some(Some(ds[k].1))
        }
    } else {
        doc_open_from(ds, k + 1, t)
    }
}

/// Whether the trimmed line `t` starts with one of the comment prefixes.
pub open spec fn is_comment_line(prefixes: Seq<Seq<char>>, t: Seq<char>) -> bool {
    exists|i: int| 0 <= i < prefixes.len() && (#[trigger] prefixes[i]).is_prefix_of(t)
}

/// Whether the 1-based line `n` lies in one of the ranges.
pub open spec fn in_ranges(ranges: Seq<(usize, usize)>, n: int) -> bool {
    exists|k: int| 0 <= k < ranges.len() && (#[trigger] ranges[k]).0 <= n <= ranges[k].1
}

/// Reads line number `n` (1-based): the open doc block after it, and
/// whether it is a code line.
pub open spec fn code_step(
    p: Option<LanguageProfile>,
    ranges: Seq<(usize, usize)>,
    in_doc: Option<Seq<char>>,
    n: int,
    line: Seq<char>,
) -> (Option<Seq<char>>, bool) {
    let t = trim(line);
    if t.len() == 0 {
        (in_doc, false)
    } else if let Some(close) = in_doc {
        (if has_sub(t, close) {
            None
        } else {
            Some(close)
        }, false)
    } else if let Some(opened) = doc_open_from(profile_doc_delimiters(p), 0, t) {
        (opened, false)
    } else if is_comment_line(profile_comment_prefixes(p), t) {
        (in_doc, false)
    } else {
        (in_doc, !in_ranges(ranges, n))
    }
}

/// The open doc block and the number of code lines among the first `n`
/// lines.
pub open spec fn code_fold(
    p: Option<LanguageProfile>,
    ranges: Seq<(usize, usize)>,
    ls: Seq<Seq<char>>,
    n: int,
) -> (Option<Seq<char>>, nat)
    decreases n,
{
    if n <= 0 {
        (None, 0)
    } else {
        let (d, c) = code_fold(p, ranges, ls, n - 1);
        let (d2, is_code) = code_step(p, ranges, d, n, ls[n - 1]);
        (d2, if is_code {
            c + 1
        } else {
            c
        })
    }
}

/// The number of code lines of `source`: lines that are not blank, not in
/// a doc block, not comments, and not inside a `#[cfg(test)]` module.
pub open spec fn spec_count_code_lines(source: Seq<char>, p: Option<LanguageProfile>) -> nat {
    let ls = lines(source);
    code_fold(p, spec_cfg_test_ranges(source), ls, ls.len() as int).1
}

fn doc_open_exec(p: &Option<LanguageProfile>, t: &[char]) -> (r: Option<Option<&'static str>>)
    ensures
        match r {
            None => doc_open_from(profile_doc_delimiters(*p), 0, t@) is None,
            Some(None) => doc_open_from(profile_doc_delimiters(*p), 0, t@) == Some(
                None::<Seq<char>>,
            ),
            Some(Some(c)) => doc_open_from(profile_doc_delimiters(*p), 0, t@) == Some(Some(c@)),
        },
{
    match p {
        None => None,
        Some(prof) => {
            let ds = &prof.doc_block_delimiters;
            let ghost dv = pairs_view(ds@);
            let mut k: usize = 0;
            while k < ds.len()
                invariant
                    k <= ds.len(),
                    dv == pairs_view(ds@),
                    dv == profile_doc_delimiters(*p),
                    doc_open_from(dv, 0, t@) == doc_open_from(dv, k as int, t@),
                decreases ds.len() - k,
            {
                let (open, close) = ds[k];
                assert(dv[k as int] == (open@, close@));
                if let Some(rest) = crate::text::strip_prefix_str(t, open) {
                    if contains_str(&rest, close) {
                        return Some(None);
                    } else {
                        return Some(Some(close));
                    }
                }
                k = k + 1;
            }
            None
        },
    }
}

fn is_comment_exec(p: &Option<LanguageProfile>, t: &[char]) -> (r: bool)
    ensures
        r == is_comment_line(profile_comment_prefixes(*p), t@),
{
    let defaults: Vec<&'static str> = vec!["//", "#"];
    let prefixes: &Vec<&'static str> = match p {
        Some(prof) => &prof.comment_line_prefixes,
        None => &defaults,
    };
    let ghost pv = prefixes@.map_values(|e: &'static str| e@);
    assert(pv =~= profile_comment_prefixes(*p));
    let mut i: usize = 0;
    while i < prefixes.len()
        invariant
            i <= prefixes.len(),
            pv == prefixes@.map_values(|e: &'static str| e@),
            pv == profile_comment_prefixes(*p),
            forall|k: int| 0 <= k < i ==> !(#[trigger] pv[k]).is_prefix_of(t@),
        decreases prefixes.len() - i,
    {
        if starts_with_str(t, prefixes[i]) {
            assert(pv[i as int] == prefixes@[i as int]@);
            return true;
        }
        assert(pv[i as int] == prefixes@[i as int]@);
        i = i + 1;
    }
    false
}

/// The number of code lines of `source`, skipping blank lines, comments,
/// doc blocks and `#[cfg(test)]` modules.
pub fn count_code_lines(source: &str, profile: Option<LanguageProfile>) -> (r: usize)
    ensures
        r == spec_count_code_lines(source@, profile),
{
    let ranges = find_cfg_test_ranges(source);
    let ls = source_lines(source);
    let ghost lv = ls.deep_view();
    let mut in_doc: Option<&'static str> = None;
    let mut count: usize = 0;
    let mut i: usize = 0;
    while i < ls.len()
        invariant
            i <= ls.len(),
            lv == ls.deep_view(),
            lv == lines(source@),
            ranges@ == spec_cfg_test_ranges(source@),
            count <= i,
            ({
                let (d, c) = code_fold(profile, ranges@, lv, i as int);
                &&& c == count
                &&& d == match in_doc {
                    Some(s) => Some(s@),
                    None => None::<Seq<char>>,
                }
            }),
        decreases ls.len() - i,
    {
        assert(lv[i as int] == ls@[i as int]@);
        let t = trimmed(&ls[i]);
        let mut is_code = false;
        if t.len() == 0 {
        } else if let Some(close) = in_doc {
            if contains_str(&t, close) {
                in_doc = None;
            }
        } else {
            match doc_open_exec(&profile, &t) {
                Some(opened) => {
                    in_doc = opened;
                },
                None => {
                    if !is_comment_exec(&profile, &t) {
                        let n = i + 1;
                        let mut k: usize = 0;
                        let mut inside = false;
                        while k < ranges.len()
                            invariant
                                k <= ranges.len(),
                                inside == exists|j: int|
                                    0 <= j < k && (#[trigger] ranges@[j]).0 <= n <= ranges@[j].1,
                            decreases ranges.len() - k,
                        {
                            let (s, e) = ranges[k];
                            if n >= s && n <= e {
                                inside = true;
                            }
                            k = k + 1;
                        }
                        is_code = !inside;
                    }
                },
            }
        }
        if is_code {
            count = count + 1;
        }
        i = i + 1;
    }
    count
}

// ---------------------------------------------------------------------------
// Whole files
// ---------------------------------------------------------------------------
/// The production (non-test) functions, in order.
pub open spec fn prod_functions(fs: Seq<FunctionModel>) -> Seq<FunctionModel>
    decreases fs.len(),
{
    if fs.len() == 0 {
        seq![]
    } else if fs.last().is_test {
        prod_functions(fs.drop_last())
    } else {
        prod_functions(fs.drop_last()).push(fs.last())
    }
}

/// Test functions are never gated: adding a test function anywhere among
/// the scanned functions leaves the gated (production) functions, and so
/// the function count and the per-function violations, unchanged.
pub proof fn lemma_test_functions_not_gated(fs: Seq<FunctionModel>, t: FunctionModel, k: int)
    requires
        t.is_test,
        0 <= k <= fs.len(),
    ensures
        prod_functions(fs.insert(k, t)) == prod_functions(fs),
    decreases fs.len(),
{
    if k == fs.len() {
        assert(fs.insert(k, t).drop_last() =~= fs);
    } else {
        lemma_test_functions_not_gated(fs.drop_last(), t, k);
        assert(fs.insert(k, t).drop_last() =~= fs.drop_last().insert(k, t));
        assert(fs.insert(k, t).last() == fs.last());
    }
}

/// The violations of a sequence of functions, in order.
pub open spec fn functions_violations(fs: Seq<FunctionModel>, config: QualityConfig) -> Seq<
    (Seq<char>, bool),
>
    decreases fs.len(),
{
    if fs.len() == 0 {
        seq![]
    } else {
        functions_violations(fs.drop_last(), config) + spec_function_violations(fs.last(), config)
    }
}

/// The quality violations of the file at `path` with content `source`:
/// none when the path is excluded; otherwise the file-length check on its
/// code lines, the function-count check, and the per-function checks,
/// all over production functions only.
pub open spec fn spec_check_source(path: Seq<char>, source: Seq<char>, config: QualityConfig) -> Seq<
    (Seq<char>, bool),
> {
    if exists|i: int|
        0 <= i < config.exclude@.len() && excluded_by(path, #[trigger] config.exclude@[i]@) {
        seq![]
    } else {
        let lang = spec_detect_language(path);
        let prods = prod_functions(spec_scan_source(source, path, lang));
        spec_file_length_violations(spec_count_code_lines_for(source, lang), config)
            + spec_function_count_violations(prods.len(), config) + functions_violations(prods, config)
    }
}

/// The number of code lines of `source` in the given language.
pub open spec fn spec_count_code_lines_for(source: Seq<char>, lang: Language) -> nat {
    let ls = lines(source);
    code_fold_lang(lang, spec_cfg_test_ranges(source), ls, ls.len() as int).1
}

/// `code_fold` for the profile of `lang`.
pub open spec fn code_fold_lang(
    lang: Language,
    ranges: Seq<(usize, usize)>,
    ls: Seq<Seq<char>>,
    n: int,
) -> (Option<Seq<char>>, nat)
    decreases n,
{
    if n <= 0 {
        (None, 0)
    } else {
        let (d, c) = code_fold_lang(lang, ranges, ls, n - 1);
        let (d2, is_code) = code_step_lang(lang, ranges, d, n, ls[n - 1]);
        (d2, if is_code {
            c + 1
        } else {
            c
        })
    }
}

/// `code_step` for the profile of `lang`.
pub open spec fn code_step_lang(
    lang: Language,
    ranges: Seq<(usize, usize)>,
    in_doc: Option<Seq<char>>,
    n: int,
    line: Seq<char>,
) -> (Option<Seq<char>>, bool) {
    let t = trim(line);
    let prefixes = if lang == Language::Unknown {
        seq!["//"@, "#"@]
    } else {
        spec_comment_prefixes(lang)
    };
    if t.len() == 0 {
        (in_doc, false)
    } else if let Some(close) = in_doc {
        (if has_sub(t, close) {
            None
        } else {
            Some(close)
        }, false)
    } else if let Some(opened) = doc_open_from(spec_doc_delimiters(lang), 0, t) {
        (opened, false)
    } else if is_comment_line(prefixes, t) {
        (in_doc, false)
    } else {
        (in_doc, !in_ranges(ranges, n))
    }
}

/// Counting code lines with the profile of a language is counting them
/// by that language's comment prefixes and doc delimiters.
proof fn lemma_code_fold_profile(
    p: Option<LanguageProfile>,
    lang: Language,
    ranges: Seq<(usize, usize)>,
    ls: Seq<Seq<char>>,
    n: int,
)
    requires
        match p {
            Some(prof) => lang != Language::Unknown && prof.describes(lang),
            None => lang == Language::Unknown,
        },
    ensures
        code_fold(p, ranges, ls, n) == code_fold_lang(lang, ranges, ls, n),
    decreases n,
{
    if n > 0 {
        lemma_code_fold_profile(p, lang, ranges, ls, n - 1);
        assert(profile_doc_delimiters(p) == spec_doc_delimiters(lang));
        if lang == Language::Unknown {
            assert(profile_comment_prefixes(p) == seq!["//"@, "#"@]);
        } else {
            assert(profile_comment_prefixes(p) == spec_comment_prefixes(lang));
        }
    }
}

/// The production functions among `fs`, in order.
fn production_functions(fs: Vec<FunctionInfo>) -> (r: Vec<FunctionInfo>)
    ensures
        fn_views(r@) == prod_functions(fn_views(fs@)),
{
    let ghost fv = fn_views(fs@);
    let mut out: Vec<FunctionInfo> = Vec::new();
    let mut i: usize = 0;
    while i < fs.len()
        invariant
            i <= fs.len(),
            fv == fn_views(fs@),
            fn_views(out@) == prod_functions(fv.take(i as int)),
        decreases fs.len() - i,
    {
        assert(fv.take(i + 1).drop_last() =~= fv.take(i as int));
        assert(fv[i as int] == fs@[i as int]@);
        if !fs[i].is_test {
            let ghost before = fn_views(out@);
            out.push(fs[i].clone_info());
            assert(fn_views(out@) =~= before.push(fv[i as int]));
        }
        i = i + 1;
    }
    assert(fv.take(i as int) =~= fv);
    out
}

/// The quality violations of the file at `path` whose content is `source`.
pub fn check_source(path: &str, source: &str, config: &QualityConfig) -> (r: FileViolation)
    ensures
        r.file@ == path@,
        violation_views(r.violations@) == spec_check_source(path@, source@, *config),
{
    if is_excluded(path, &config.exclude) {
        let r = FileViolation { file: string_of(&chars_of(path)), violations: Vec::new() };
        assert(violation_views(r.violations@) =~= spec_check_source(path@, source@, *config));
        return r;
    }
    let lang = detect_language(path);
    let functions = scan_source(source, path, lang);
    let profile = profile_for(lang);
    let code_lines = count_code_lines(source, profile);
    proof {
        let ls = lines(source@);
        lemma_code_fold_profile(profile, lang, spec_cfg_test_ranges(source@), ls, ls.len() as int);
    }
    let prods = production_functions(functions);
    let mut violations: Vec<Violation> = Vec::new();
    check_file_length(code_lines, config, &mut violations);
    check_function_count(prods.len(), config, &mut violations);
    let ghost pv = fn_views(prods@);
    let ghost head = violation_views(violations@);
    assert(functions_violations(pv.take(0), *config) =~= Seq::<(Seq<char>, bool)>::empty());
    assert(head + Seq::<(Seq<char>, bool)>::empty() =~= head);
    let mut i: usize = 0;
    while i < prods.len()
        invariant
            i <= prods.len(),
            pv == fn_views(prods@),
            violation_views(violations@) == head + functions_violations(pv.take(i as int), *config),
        decreases prods.len() - i,
    {
        assert(pv.take(i + 1).drop_last() =~= pv.take(i as int));
        assert(pv[i as int] == prods@[i as int]@);
        check_function(&prods[i], config, &mut violations);
        assert(head + functions_violations(pv.take(i + 1), *config) =~= head + functions_violations(
            pv.take(i as int),
            *config,
        ) + spec_function_violations(pv[i as int], *config));
        i = i + 1;
    }
    assert(pv.take(i as int) =~= pv);
    let r = FileViolation { file: string_of(&chars_of(path)), violations };
    assert(violation_views(r.violations@) =~= spec_check_source(path@, source@, *config));
    r
}

} // verus!
