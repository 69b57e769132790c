//! Finding function definitions in source text.
use vstd::prelude::*;

use vstd::string::StringSliceAdditionalSpecFns;

use crate::scanner::block_measure::{lemma_measure_block_bounds, measure_block_lines, spec_measure_block};
use crate::scanner::language::{profile_for, spec_function_patterns, Language};
use crate::scanner::patterns::{
    regex_captures, regex_replace_first, spec_regex_captures, spec_regex_replace_first,
    RegexCapture,
};
use crate::text::opt_string;
use crate::scanner::test_detect::{
    find_cfg_test_ranges, is_test_python, is_test_rust, is_test_typescript,
    spec_cfg_test_ranges, spec_has_test_attribute_above, spec_is_test_python,
    spec_is_test_typescript,
};
use crate::text::{
    chars_of, eq_str, lines, source_lines, split_on, split_on_char, string_of, trim, trimmed,
};

verus! {

#[derive(Debug, Clone)]
pub struct FunctionInfo {
    pub name: String,
    pub file: String,
    pub line: usize,
    pub line_count: usize,
    pub param_count: usize,
    pub complexity: usize,
    pub is_test: bool,
}

/// The mathematical content of a [`FunctionInfo`].
pub struct FunctionModel {
    pub name: Seq<char>,
    pub file: Seq<char>,
    pub line: usize,
    pub line_count: usize,
    pub param_count: usize,
    pub complexity: usize,
    pub is_test: bool,
}

impl View for FunctionInfo {
    type V = FunctionModel;

    open spec fn view(&self) -> FunctionModel {
        FunctionModel {
            name: self.name@,
            file: self.file@,
            line: self.line,
            line_count: self.line_count,
            param_count: self.param_count,
            complexity: self.complexity,
            is_test: self.is_test,
        }
    }
}

impl FunctionInfo {
    /// A copy with the same content.
    pub fn clone_info(&self) -> (r: FunctionInfo)
        ensures
            r@ == self@,
    {
        FunctionInfo {
            name: self.name.clone(),
            file: self.file.clone(),
            line: self.line,
            line_count: self.line_count,
            param_count: self.param_count,
            complexity: self.complexity,
            is_test: self.is_test,
        }
    }
}

/// The views of a sequence of functions.
pub open spec fn fn_views(v: Seq<FunctionInfo>) -> Seq<FunctionModel> {
    v.map_values(|f: FunctionInfo| f@)
}

// ---------------------------------------------------------------------------
// Parameters
// ---------------------------------------------------------------------------
/// The pattern that removes a leading `&self` or `&mut self` from a Rust
/// parameter list.
pub open spec fn rust_self_pattern() -> Seq<char> {
    r"(?:&(?:mut\s+)?self\s*,?\s*)?"@
}

/// The number of pieces that are not blank after trimming.
pub open spec fn count_nonblank(ps: Seq<Seq<char>>) -> nat
    decreases ps.len(),
{
    if ps.len() == 0 {
        0
    } else {
        count_nonblank(ps.drop_last()) + if trim(ps.last()).len() > 0 {
            1nat
        } else {
            0nat
        }
    }
}

/// The number of pieces that, trimmed, are neither blank nor `name`.
pub open spec fn count_nonblank_except(ps: Seq<Seq<char>>, name: Seq<char>) -> nat
    decreases ps.len(),
{
    if ps.len() == 0 {
        0
    } else {
        count_nonblank_except(ps.drop_last(), name) + if trim(ps.last()).len() > 0 && trim(
            ps.last(),
        ) != name {
            1nat
        } else {
            0nat
        }
    }
}

/// The comma-separated parameters that are not blank.
pub open spec fn spec_count_params_simple(params: Seq<char>) -> nat {
    if trim(params).len() == 0 {
        0
    } else {
        count_nonblank(split_on(params, ','))
    }
}

/// The comma-separated parameters that are neither blank nor `self_name`.
pub open spec fn spec_count_params_named_self(params: Seq<char>, self_name: Seq<char>) -> nat {
    if trim(params).len() == 0 {
        0
    } else {
        count_nonblank_except(split_on(params, ','), self_name)
    }
}

/// The parameters of a Rust function, not counting a leading `&self`.
pub open spec fn spec_count_params_rust(params: Seq<char>) -> nat {
    spec_count_params_simple(spec_regex_replace_first(rust_self_pattern(), params, ""@))
}

/// The number of parameters in a parameter list of the given language.
pub open spec fn spec_count_params(lang: Language, params: Seq<char>) -> nat {
    match lang {
        Language::Rust => spec_count_params_rust(params),
        Language::Python => spec_count_params_named_self(params, "self"@),
        Language::TypeScript => spec_count_params_simple(params),
        Language::Unknown => 0,
    }
}

fn count_nonblank_exec(ps: &Vec<Vec<char>>) -> (r: usize)
    ensures
        r == count_nonblank(ps.deep_view()),
{
    let ghost pv = ps.deep_view();
    let mut n: usize = 0;
    let mut i: usize = 0;
    while i < ps.len()
        invariant
            i <= ps.len(),
            pv == ps.deep_view(),
            n <= i,
            n == count_nonblank(pv.take(i as int)),
        decreases ps.len() - i,
    {
        assert(pv.take(i + 1).drop_last() =~= pv.take(i as int));
        assert(pv[i as int] == ps@[i as int]@);
        if trimmed(&ps[i]).len() > 0 {
            n = n + 1;
        }
        i = i + 1;
    }
    assert(pv.take(i as int) =~= pv);
    n
}

fn count_nonblank_except_exec(ps: &Vec<Vec<char>>, name: &[char]) -> (r: usize)
    ensures
        r == count_nonblank_except(ps.deep_view(), name@),
{
    let ghost pv = ps.deep_view();
    let mut n: usize = 0;
    let mut i: usize = 0;
    while i < ps.len()
        invariant
            i <= ps.len(),
            pv == ps.deep_view(),
            n <= i,
            n == count_nonblank_except(pv.take(i as int), name@),
        decreases ps.len() - i,
    {
        assert(pv.take(i + 1).drop_last() =~= pv.take(i as int));
        assert(pv[i as int] == ps@[i as int]@);
        let t = trimmed(&ps[i]);
        if t.len() > 0 && !crate::text::chars_eq(&t, name) {
            n = n + 1;
        }
        i = i + 1;
    }
    assert(pv.take(i as int) =~= pv);
    n
}

/// Counts comma-separated parameters, ignoring blank ones.
pub fn count_params_simple(params: &str) -> (r: usize)
    ensures
        r == spec_count_params_simple(params@),
{
    let pv = chars_of(params);
    if trimmed(&pv).len() == 0 {
        return 0;
    }
    let pieces = split_on_char(&pv, ',');
    count_nonblank_exec(&pieces)
}

/// Counts comma-separated parameters, ignoring blank ones and `self_name`.
pub fn count_params_named_self(params: &str, self_name: &str) -> (r: usize)
    ensures
        r == spec_count_params_named_self(params@, self_name@),
{
    let pv = chars_of(params);
    if trimmed(&pv).len() == 0 {
        return 0;
    }
    let pieces = split_on_char(&pv, ',');
    let nv = chars_of(self_name);
    count_nonblank_except_exec(&pieces, &nv)
}

/// Counts the parameters of a Rust function, not counting a leading
/// `&self` or `&mut self`.
pub fn count_params_rust(params: &str) -> (r: usize)
    ensures
        r == spec_count_params_rust(params@),
{
    let cleaned = regex_replace_first(r"(?:&(?:mut\s+)?self\s*,?\s*)?", params, "");
    count_params_simple(cleaned.as_str())
}

/// Counts the parameters in a parameter list of the given language.
pub fn count_params(lang: Language, params: &str) -> (r: usize)
    ensures
        r == spec_count_params(lang, params@),
{
    match lang {
        Language::Rust => count_params_rust(params),
        Language::Python => count_params_named_self(params, "self"),
        Language::TypeScript => count_params_simple(params),
        Language::Unknown => 0,
    }
}

// ---------------------------------------------------------------------------
// Tests
// ---------------------------------------------------------------------------
/// Whether the function `name` on line `line` of `source` is a test, by the
/// conventions of its language.
pub open spec fn spec_is_test_function(
    lang: Language,
    name: Seq<char>,
    source: Seq<char>,
    file: Seq<char>,
    line: int,
) -> bool {
    match lang {
        Language::Rust => {
            let ranges = spec_cfg_test_ranges(source);
            (exists|k: int| 0 <= k < ranges.len() && (#[trigger] ranges[k]).0 <= line <= ranges[k].1)
                || spec_has_test_attribute_above(source, line)
        },
        Language::Python => spec_is_test_python(name, source, line),
        Language::TypeScript => spec_is_test_typescript(name, file),
        Language::Unknown => false,
    }
}

/// Whether a function is a test, by the conventions of its language.
pub fn is_test_function(lang: Language, name: &str, source: &str, file: &str, line: usize) -> (r:
    bool)
    ensures
        r == spec_is_test_function(lang, name@, source@, file@, line as int),
{
    match lang {
        Language::Rust => {
            let ranges = find_cfg_test_ranges(source);
            is_test_rust(source, line, &ranges)
        },
        Language::Python => is_test_python(name, source, line),
        Language::TypeScript => is_test_typescript(name, file),
        Language::Unknown => false,
    }
}

// ---------------------------------------------------------------------------
// Lines
// ---------------------------------------------------------------------------
/// The number of newline bytes in `bytes`.
pub open spec fn newline_count(bytes: Seq<u8>) -> nat
    decreases bytes.len(),
{
    if bytes.len() == 0 {
        0
    } else {
        newline_count(bytes.drop_last()) + if bytes.last() == 10u8 {
            1nat
        } else {
            0nat
        }
    }
}

/// The 1-based line on which the byte at `offset` stands (saturating at
/// the largest `usize`).
pub open spec fn spec_offset_line(source: Seq<char>, offset: int) -> usize {
    let n = newline_count(vstd::utf8::encode_utf8(source).take(offset));
    if n < usize::MAX {
        (n + 1) as usize
    } else {
        usize::MAX
    }
}

/// The 1-based line on which the byte at `offset` stands.
pub fn byte_offset_to_line(source: &str, offset: usize) -> (r: usize)
    requires
        offset <= source.spec_bytes().len(),
        vstd::utf8::is_char_boundary(source.spec_bytes(), offset as int),
    ensures
        r == spec_offset_line(source@, offset as int),
{
    let bytes = source.as_bytes();
    let ghost bv = vstd::utf8::encode_utf8(source@);
    assert(bytes@ == bv);
    let mut n: usize = 0;
    let mut k: usize = 0;
    while k < offset
        invariant
            k <= offset <= bytes@.len(),
            bytes@ == bv,
            n <= k,
            n == newline_count(bv.take(k as int)),
        decreases offset - k,
    {
        assert(bv.take(k + 1).drop_last() =~= bv.take(k as int));
        if bytes[k] == 10u8 {
            n = n + 1;
        }
        k = k + 1;
    }
    if n < usize::MAX {
        n + 1
    } else {
        n
    }
}

// ---------------------------------------------------------------------------
// Ordering by line
// ---------------------------------------------------------------------------
/// `x` placed after every element of `s` whose line is not greater.
pub open spec fn insert_by_line(s: Seq<FunctionModel>, x: FunctionModel) -> Seq<FunctionModel>
    decreases s.len(),
{
    if s.len() > 0 && s.last().line > x.line {
        insert_by_line(s.drop_last(), x).push(s.last())
    } else {
        s.push(x)
    }
}

/// `s` ordered by line, functions on the same line keeping their order:
/// what a stable sort by line gives.
pub open spec fn sort_by_line(s: Seq<FunctionModel>) -> Seq<FunctionModel>
    decreases s.len(),
{
    if s.len() == 0 {
        s
    } else {
        insert_by_line(sort_by_line(s.drop_last()), s.last())
    }
}

proof fn lemma_insert_by_line(s: Seq<FunctionModel>, x: FunctionModel, pos: int)
    requires
        0 <= pos <= s.len(),
        forall|k: int| pos <= k < s.len() ==> (#[trigger] s[k]).line > x.line,
        pos == 0 || s[pos - 1].line <= x.line,
    ensures
        insert_by_line(s, x) == s.insert(pos, x),
    decreases s.len(),
{
    if pos == s.len() {
        assert(s.push(x) =~= s.insert(pos, x));
    } else {
        lemma_insert_by_line(s.drop_last(), x, pos);
        assert(s.drop_last().insert(pos, x).push(s.last()) =~= s.insert(pos, x));
    }
}

/// Inserting keeps the line order.
pub proof fn lemma_insert_by_line_sorted(s: Seq<FunctionModel>, x: FunctionModel)
    requires
        forall|i: int, j: int| 0 <= i < j < s.len() ==> (#[trigger] s[i]).line <= (#[trigger] s[j]).line,
    ensures
        insert_by_line(s, x).len() == s.len() + 1,
        forall|i: int, j: int|
            0 <= i < j < insert_by_line(s, x).len() ==> (#[trigger] insert_by_line(s, x)[i]).line
                <= (#[trigger] insert_by_line(s, x)[j]).line,
    decreases s.len(),
{
    if s.len() > 0 && s.last().line > x.line {
        lemma_insert_by_line_sorted(s.drop_last(), x);
        let t = insert_by_line(s.drop_last(), x);
        assert forall|i: int| 0 <= i < t.len() implies (#[trigger] t[i]).line <= s.last().line by {
            lemma_insert_by_line_member(s.drop_last(), x, i);
        }
    }
}

/// A stable sort by line leaves the functions ordered by line.
pub proof fn lemma_sort_by_line_sorted(s: Seq<FunctionModel>)
    ensures
        sort_by_line(s).len() == s.len(),
        forall|i: int, j: int|
            0 <= i < j < sort_by_line(s).len() ==> (#[trigger] sort_by_line(s)[i]).line
                <= (#[trigger] sort_by_line(s)[j]).line,
    decreases s.len(),
{
    if s.len() > 0 {
        lemma_sort_by_line_sorted(s.drop_last());
        lemma_insert_by_line_sorted(sort_by_line(s.drop_last()), s.last());
    }
}

/// Whether a scanned function belongs to `file` and has the bounds every
/// measured function has: a line of at least 1, at most 201 lines, and a
/// complexity between 1 and 51.
pub open spec fn within_bounds(f: FunctionModel, file: Seq<char>) -> bool {
    &&& f.file == file
    &&& f.line >= 1
    &&& f.line_count <= 201
    &&& 1 <= f.complexity <= 51
}

proof fn lemma_caps_functions_bounded(
    caps: Seq<(usize, Option<Seq<char>>, Option<Seq<char>>)>,
    source: Seq<char>,
    file: Seq<char>,
    lang: Language,
)
    ensures
        forall|k: int| 0 <= k < caps_functions(caps, source, file, lang).len() ==> within_bounds(
            #[trigger] caps_functions(caps, source, file, lang)[k],
            file,
        ),
    decreases caps.len(),
{
    if caps.len() > 0 {
        lemma_caps_functions_bounded(caps.drop_last(), source, file, lang);
        let cap = caps.last();
        let line = spec_offset_line(source, cap.0 as int);
        lemma_measure_block_bounds(lines(source), line as int);
        let prev = caps_functions(caps.drop_last(), source, file, lang);
        let all = caps_functions(caps, source, file, lang);
        assert forall|k: int| 0 <= k < all.len() implies within_bounds(#[trigger] all[k], file) by {
            if k < prev.len() {
                assert(all[k] == prev[k]);
            } else {
                let name = cap.1.unwrap();
                assert(all[k] == spec_function_of(source, file, lang, cap, name));
            }
        }
    }
}

proof fn lemma_patterns_functions_bounded(
    pats: Seq<Seq<char>>,
    source: Seq<char>,
    file: Seq<char>,
    lang: Language,
)
    ensures
        forall|k: int| 0 <= k < patterns_functions(pats, source, file, lang).len() ==> within_bounds(
            #[trigger] patterns_functions(pats, source, file, lang)[k],
            file,
        ),
    decreases pats.len(),
{
    if pats.len() > 0 {
        lemma_patterns_functions_bounded(pats.drop_last(), source, file, lang);
        lemma_caps_functions_bounded(spec_regex_captures(pats.last(), source), source, file, lang);
        let a = patterns_functions(pats.drop_last(), source, file, lang);
        let b = caps_functions(spec_regex_captures(pats.last(), source), source, file, lang);
        assert forall|k: int| 0 <= k < (a + b).len() implies within_bounds(#[trigger] (a + b)[k], file) by {
            if k < a.len() {
                assert((a + b)[k] == a[k]);
            } else {
                assert((a + b)[k] == b[k - a.len()]);
            }
        }
    }
}

/// Sorting by line keeps exactly the functions it was given, each as often.
proof fn lemma_sort_by_line_members(s: Seq<FunctionModel>)
    ensures
        sort_by_line(s).len() == s.len(),
        forall|k: int| 0 <= k < sort_by_line(s).len() ==> exists|j: int|
            0 <= j < s.len() && s[j] == #[trigger] sort_by_line(s)[k],
    decreases s.len(),
{
    if s.len() > 0 {
        let prev = s.drop_last();
        lemma_sort_by_line_members(prev);
        lemma_insert_by_line_len(sort_by_line(prev), s.last());
        assert forall|k: int| 0 <= k < sort_by_line(s).len() implies exists|j: int|
            0 <= j < s.len() && s[j] == #[trigger] sort_by_line(s)[k] by {
            lemma_insert_by_line_member(sort_by_line(prev), s.last(), k);
            if sort_by_line(s)[k] == s.last() {
                assert(s[s.len() - 1] == sort_by_line(s)[k]);
            } else {
                let q = choose|q: int| 0 <= q < sort_by_line(prev).len() && sort_by_line(s)[k] == sort_by_line(prev)[q];
                assert(sort_by_line(prev)[q] == sort_by_line(prev)[q]);
                let j = choose|j: int| 0 <= j < prev.len() && prev[j] == sort_by_line(prev)[q];
                assert(s[j] == prev[j]);
            }
        }
    }
}

/// Every function `scan_source` finds belongs to the scanned file, starts on
/// a line of at least 1, spans at most 201 lines and has a complexity
/// between 1 and 51; a file of no known language has none.
pub proof fn lemma_scan_source_bounds(source: Seq<char>, file: Seq<char>, lang: Language)
    ensures
        forall|k: int| 0 <= k < spec_scan_source(source, file, lang).len() ==> within_bounds(
            #[trigger] spec_scan_source(source, file, lang)[k],
            file,
        ),
        lang == Language::Unknown ==> spec_scan_source(source, file, lang).len() == 0,
{
    let s = patterns_functions(spec_function_patterns(lang), source, file, lang);
    lemma_patterns_functions_bounded(spec_function_patterns(lang), source, file, lang);
    lemma_sort_by_line_members(s);
    assert forall|k: int| 0 <= k < sort_by_line(s).len() implies within_bounds(#[trigger] sort_by_line(s)[k], file) by {
        let j = choose|j: int| 0 <= j < s.len() && s[j] == sort_by_line(s)[k];
        assert(within_bounds(s[j], file));
    }
    if lang == Language::Unknown {
        assert(spec_function_patterns(lang).len() == 0);
        assert(s.len() == 0);
    }
}

proof fn lemma_insert_by_line_member(s: Seq<FunctionModel>, x: FunctionModel, i: int)
    requires
        0 <= i < insert_by_line(s, x).len(),
        insert_by_line(s, x).len() == s.len() + 1,
    ensures
        insert_by_line(s, x)[i] == x || exists|k: int| 0 <= k < s.len() && insert_by_line(s, x)[i] == s[k],
    decreases s.len(),
{
    if s.len() > 0 && s.last().line > x.line {
        let t = insert_by_line(s.drop_last(), x);
        if i == t.len() {
            assert(insert_by_line(s, x)[i] == s[s.len() - 1]);
        } else {
            lemma_insert_by_line_len(s.drop_last(), x);
            lemma_insert_by_line_member(s.drop_last(), x, i);
            if insert_by_line(s, x)[i] != x {
                let k = choose|k: int| 0 <= k < s.drop_last().len() && t[i] == s.drop_last()[k];
                assert(insert_by_line(s, x)[i] == s[k]);
            }
        }
    } else {
        if i < s.len() {
            assert(insert_by_line(s, x)[i] == s[i]);
        }
    }
}

proof fn lemma_insert_by_line_len(s: Seq<FunctionModel>, x: FunctionModel)
    ensures
        insert_by_line(s, x).len() == s.len() + 1,
    decreases s.len(),
{
    if s.len() > 0 && s.last().line > x.line {
        lemma_insert_by_line_len(s.drop_last(), x);
    }
}

/// Inserts `x` after every function whose line is not greater.
fn insert_sorted(out: &mut Vec<FunctionInfo>, x: FunctionInfo)
    ensures
        fn_views(final(out)@) == insert_by_line(fn_views(old(out)@), x@),
{
    let mut pos = out.len();
    while pos > 0 && out[pos - 1].line > x.line
        invariant
            pos <= out@.len(),
            forall|k: int| pos <= k < out@.len() ==> (#[trigger] out@[k]).line > x.line,
        decreases pos,
    {
        pos = pos - 1;
    }
    proof {
        let s = fn_views(out@);
        assert forall|k: int| pos <= k < s.len() implies (#[trigger] s[k]).line > x@.line by {
            assert(s[k] == out@[k]@);
        }
        if pos > 0 {
            assert(s[pos - 1] == out@[pos - 1]@);
        }
        lemma_insert_by_line(s, x@, pos as int);
    }
    let ghost before = fn_views(out@);
    let ghost xv = x@;
    out.insert(pos, x);
    assert(fn_views(out@) =~= before.insert(pos as int, xv));
}

// ---------------------------------------------------------------------------
// Extraction
// ---------------------------------------------------------------------------
/// The parameter text of a match, empty when group 2 did not take part.
pub open spec fn params_text(p: Option<Seq<char>>) -> Seq<char> {
    match p {
        Some(s) => s,
        None => seq![],
    }
}

/// The function found by one match whose group 1 is `name`.
pub open spec fn spec_function_of(
    source: Seq<char>,
    file: Seq<char>,
    lang: Language,
    cap: (usize, Option<Seq<char>>, Option<Seq<char>>),
    name: Seq<char>,
) -> FunctionModel {
    let line = spec_offset_line(source, cap.0 as int);
    let m = spec_measure_block(lines(source), line as int);
    FunctionModel {
        name: name,
        file: file,
        line: line,
        line_count: m.0 as usize,
        param_count: spec_count_params(lang, params_text(cap.2)) as usize,
        complexity: m.1 as usize,
        is_test: spec_is_test_function(lang, name, source, file, line as int),
    }
}

/// The functions found by a sequence of matches, skipping a match whose
/// group 1 did not take part.
pub open spec fn caps_functions(
    caps: Seq<(usize, Option<Seq<char>>, Option<Seq<char>>)>,
    source: Seq<char>,
    file: Seq<char>,
    lang: Language,
) -> Seq<FunctionModel>
    decreases caps.len(),
{
    if caps.len() == 0 {
        seq![]
    } else {
        let rest = caps_functions(caps.drop_last(), source, file, lang);
        match caps.last().1 {
            Some(name) => rest.push(spec_function_of(source, file, lang, caps.last(), name)),
            None => rest,
        }
    }
}

/// The functions found by each pattern in turn, in the order of the matches.
pub open spec fn patterns_functions(
    pats: Seq<Seq<char>>,
    source: Seq<char>,
    file: Seq<char>,
    lang: Language,
) -> Seq<FunctionModel>
    decreases pats.len(),
{
    if pats.len() == 0 {
        seq![]
    } else {
        patterns_functions(pats.drop_last(), source, file, lang) + caps_functions(
            spec_regex_captures(pats.last(), source),
            source,
            file,
            lang,
        )
    }
}

/// The functions of `source`: every match of the language's patterns,
/// ordered by line.
pub open spec fn spec_scan_source(source: Seq<char>, file: Seq<char>, lang: Language) -> Seq<
    FunctionModel,
> {
    sort_by_line(patterns_functions(spec_function_patterns(lang), source, file, lang))
}

/// The function found by one match.
fn function_of(
    source: &str,
    ls: &Vec<Vec<char>>,
    file: &str,
    lang: Language,
    cap: &RegexCapture,
    name: &String,
) -> (r: FunctionInfo)
    requires
        ls.deep_view() == lines(source@),
        cap.start <= source.spec_bytes().len(),
        vstd::utf8::is_char_boundary(source.spec_bytes(), cap.start as int),
    ensures
        r@ == spec_function_of(source@, file@, lang, cap@, name@),
{
    let line = byte_offset_to_line(source, cap.start);
    let param_count = match &cap.params {
        Some(p) => count_params(lang, p.as_str()),
        None => count_params(lang, ""),
    };
    proof {
        if cap.params is None {
            assert(""@ =~= params_text(cap@.2)) by {
                reveal_strlit("");
            }
        }
    }
    let (line_count, complexity) = measure_block_lines(ls, line);
    let is_test = is_test_function(lang, name.as_str(), source, file, line);
    FunctionInfo {
        name: name.clone(),
        file: string_of(&chars_of(file)),
        line,
        line_count,
        param_count,
        complexity,
        is_test,
    }
}

/// The functions defined in `source`, ordered by line.
pub fn scan_source(source: &str, file: &str, lang: Language) -> (r: Vec<FunctionInfo>)
    ensures
        fn_views(r@) == spec_scan_source(source@, file@, lang),
        forall|i: int, j: int| 0 <= i < j < r@.len() ==> (#[trigger] r@[i]).line <= (#[trigger] r@[j]).line,
        forall|i: int| 0 <= i < r@.len() ==> within_bounds((#[trigger] r@[i])@, file@),
        lang == Language::Unknown ==> r@.len() == 0,
{
    let r = extract_functions(source, file, lang);
    proof {
        let s = patterns_functions(spec_function_patterns(lang), source@, file@, lang);
        lemma_sort_by_line_sorted(s);
        lemma_scan_source_bounds(source@, file@, lang);
        assert forall|i: int| 0 <= i < r@.len() implies within_bounds((#[trigger] r@[i])@, file@) by {
            assert(fn_views(r@)[i] == r@[i]@);
        }
        assert forall|i: int, j: int| 0 <= i < j < r@.len() implies (#[trigger] r@[i]).line <= (#[trigger] r@[j]).line by {
            assert(fn_views(r@)[i] == r@[i]@);
            assert(fn_views(r@)[j] == r@[j]@);
        }
    }
    r
}

fn extract_functions(source: &str, file: &str, lang: Language) -> (r: Vec<FunctionInfo>)
    ensures
        fn_views(r@) == spec_scan_source(source@, file@, lang),
{
    let ls = source_lines(source);
    let mut out: Vec<FunctionInfo> = Vec::new();
    let ghost mut raw: Seq<FunctionModel> = seq![];
    let profile = profile_for(lang);
    let pats: Vec<&'static str> = match profile {
        Some(p) => p.function_patterns,
        None => Vec::new(),
    };
    let ghost pviews = pats@.map_values(|e: &'static str| e@);
    assert(pviews =~= spec_function_patterns(lang));
    let mut pi: usize = 0;
    while pi < pats.len()
        invariant
            pi <= pats.len(),
            pviews == pats@.map_values(|e: &'static str| e@),
            ls.deep_view() == lines(source@),
            raw == patterns_functions(pviews.take(pi as int), source@, file@, lang),
            fn_views(out@) == sort_by_line(raw),
        decreases pats.len() - pi,
    {
        assert(pviews.take(pi + 1).drop_last() =~= pviews.take(pi as int));
        let caps = regex_captures(pats[pi], source);
        let ghost cviews = caps@.map_values(|c: RegexCapture| c@);
        let ghost raw0 = raw;
        let mut ci: usize = 0;
        while ci < caps.len()
            invariant
                ci <= caps.len(),
                cviews == caps@.map_values(|c: RegexCapture| c@),
                cviews == spec_regex_captures(pviews[pi as int], source@),
                forall|i: int|
                    0 <= i < caps@.len() ==> (#[trigger] caps@[i]).start <= source.spec_bytes().len()
                        && vstd::utf8::is_char_boundary(source.spec_bytes(), caps@[i].start as int),
                ls.deep_view() == lines(source@),
                raw == raw0 + caps_functions(cviews.take(ci as int), source@, file@, lang),
                fn_views(out@) == sort_by_line(raw),
            decreases caps.len() - ci,
        {
            assert(cviews.take(ci + 1).drop_last() =~= cviews.take(ci as int));
            assert(cviews[ci as int] == caps@[ci as int]@);
            let cap = &caps[ci];
            match &cap.name {
                Some(name) => {
                    let f = function_of(source, &ls, file, lang, cap, name);
                    proof {
                        assert(raw0 + caps_functions(cviews.take(ci + 1), source@, file@, lang) =~= (
                        raw0 + caps_functions(cviews.take(ci as int), source@, file@, lang)).push(
                            f@,
                        ));
                        raw = raw.push(f@);
                        assert(raw.drop_last() =~= raw0 + caps_functions(
                            cviews.take(ci as int),
                            source@,
                            file@,
                            lang,
                        ));
                    }
                    insert_sorted(&mut out, f);
                },
                None => {
                    assert(raw0 + caps_functions(cviews.take(ci + 1), source@, file@, lang) =~= raw0
                        + caps_functions(cviews.take(ci as int), source@, file@, lang));
                },
            }
            ci = ci + 1;
        }
        assert(cviews.take(ci as int) =~= cviews);
        pi = pi + 1;
    }
    assert(pviews.take(pi as int) =~= pviews);
    out
}

} // verus!
