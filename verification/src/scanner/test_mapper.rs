//! Map test functions to the production functions they test, using name and file heuristics.
use vstd::prelude::*;

use crate::scanner::quality::prod_functions;
use crate::scanner::regex_scanner::{fn_views, FunctionInfo, FunctionModel};
use crate::text::{chars_of, chars_eq, matches_at, push_chars, starts_with, string_of, strip_prefix, strip_prefix_str};

verus! {

#[derive(Debug, Clone)]
pub struct TestMapping {
    pub function_file: String,
    pub function_name: String,
    pub test_file: String,
    pub test_name: String,
    pub match_type: String,
}

impl TestMapping {
    /// A copy of this mapping.
    pub fn clone_mapping(&self) -> (r: TestMapping)
        ensures
            r@ == self@,
    {
        TestMapping {
            function_file: self.function_file.clone(),
            function_name: self.function_name.clone(),
            test_file: self.test_file.clone(),
            test_name: self.test_name.clone(),
            match_type: self.match_type.clone(),
        }
    }
}

/// The mathematical content of a [`TestMapping`].
pub struct MappingModel {
    pub function_file: Seq<char>,
    pub function_name: Seq<char>,
    pub test_file: Seq<char>,
    pub test_name: Seq<char>,
    pub match_type: Seq<char>,
}

impl View for TestMapping {
    type V = MappingModel;

    open spec fn view(&self) -> MappingModel {
        MappingModel {
            function_file: self.function_file@,
            function_name: self.function_name@,
            test_file: self.test_file@,
            test_name: self.test_name@,
            match_type: self.match_type@,
        }
    }
}

/// The views of a sequence of mappings.
pub open spec fn mapping_views(v: Seq<TestMapping>) -> Seq<MappingModel> {
    v.map_values(|m: TestMapping| m@)
}

/// The name a test is about: its name without `tests::` and then `test_`,
/// when it has the `test_` prefix.
pub open spec fn spec_strip_test_prefix(name: Seq<char>) -> Option<Seq<char>> {
    let n = match strip_prefix(name, "tests::"@) {
        Some(rest) => rest,
        None => name,
    };
    strip_prefix(n, "test_"@)
}

/// `str::replace`: every non-overlapping occurrence of `from`, left to
/// right, replaced by `to`.
pub open spec fn replace_all(s: Seq<char>, from: Seq<char>, to: Seq<char>) -> Seq<char>
    decreases s.len(),
{
    if s.len() == 0 || from.len() == 0 {
        s
    } else if from.is_prefix_of(s) {
        to + replace_all(s.skip(from.len() as int), from, to)
    } else {
        seq![s[0]] + replace_all(s.drop_first(), from, to)
    }
}

/// The file path a test and a production function are compared by.
pub open spec fn spec_normalize_file(path: Seq<char>) -> Seq<char> {
    replace_all(
        replace_all(
            replace_all(
                replace_all(
                    replace_all(replace_all(path, "tests/test_"@, "src/"@), "tests/"@, "src/"@),
                    ".test.ts"@,
                    ".ts"@,
                ),
                ".test.tsx"@,
                ".tsx"@,
            ),
            ".spec.ts"@,
            ".ts"@,
        ),
        ".spec.tsx"@,
        ".tsx"@,
    )
}

/// The test functions, in order.
pub open spec fn test_functions(fs: Seq<FunctionModel>) -> Seq<FunctionModel>
    decreases fs.len(),
{
    if fs.len() == 0 {
        seq![]
    } else if fs.last().is_test {
        test_functions(fs.drop_last()).push(fs.last())
    } else {
        test_functions(fs.drop_last())
    }
}

/// The mapping of `prod` to `test`, found by the heuristic `kind`.
pub open spec fn mapping_of(prod: FunctionModel, test: FunctionModel, kind: Seq<char>) -> MappingModel {
    MappingModel {
        function_file: prod.file,
        function_name: prod.name,
        test_file: test.file,
        test_name: test.name,
        match_type: kind,
    }
}

/// Whether a production function is named by the stripped test name: the
/// same name, or a prefix of it.
pub open spec fn name_matches(prod_name: Seq<char>, stripped: Seq<char>) -> bool {
    prod_name == stripped || prod_name.is_prefix_of(stripped)
}

/// The name mappings of a test to the production functions `prods`.
pub open spec fn name_maps(test: FunctionModel, prods: Seq<FunctionModel>, stripped: Seq<char>) -> Seq<
    MappingModel,
>
    decreases prods.len(),
{
    if prods.len() == 0 {
        seq![]
    } else {
        let rest = name_maps(test, prods.drop_last(), stripped);
        if name_matches(prods.last().name, stripped) {
            rest.push(mapping_of(prods.last(), test, "name"@))
        } else {
            rest
        }
    }
}

/// The file mappings of a test to the production functions `prods`.
pub open spec fn file_maps(test: FunctionModel, prods: Seq<FunctionModel>) -> Seq<MappingModel>
    decreases prods.len(),
{
    if prods.len() == 0 {
        seq![]
    } else {
        let rest = file_maps(test, prods.drop_last());
        if spec_normalize_file(test.file) == spec_normalize_file(prods.last().file) {
            rest.push(mapping_of(prods.last(), test, "file"@))
        } else {
            rest
        }
    }
}

/// The mappings of one test: by name when any production function matches
/// its stripped name, otherwise by file.
pub open spec fn test_maps(test: FunctionModel, prods: Seq<FunctionModel>) -> Seq<MappingModel> {
    match spec_strip_test_prefix(test.name) {
        Some(stripped) => {
            let nm = name_maps(test, prods, stripped);
            if nm.len() > 0 {
                nm
            } else {
                file_maps(test, prods)
            }
        },
        None => file_maps(test, prods),
    }
}

/// The mappings of every test, test by test.
pub open spec fn all_maps(tests: Seq<FunctionModel>, prods: Seq<FunctionModel>) -> Seq<MappingModel>
    decreases tests.len(),
{
    if tests.len() == 0 {
        seq![]
    } else {
        all_maps(tests.drop_last(), prods) + test_maps(tests.last(), prods)
    }
}

/// The mappings between the tests and the production functions of `fs`.
pub open spec fn spec_compute_mappings(fs: Seq<FunctionModel>) -> Seq<MappingModel> {
    all_maps(test_functions(fs), prod_functions(fs))
}

// ---------------------------------------------------------------------------
// Every mapping links a test function to a production function
// ---------------------------------------------------------------------------
/// Whether `m` maps the production function `prods[j]` to the test
/// `tests[i]` for some `i` and `j`, by name or by file.
pub open spec fn links(m: MappingModel, tests: Seq<FunctionModel>, prods: Seq<FunctionModel>) -> bool {
    exists|i: int, j: int|
        0 <= i < tests.len() && 0 <= j < prods.len() && (m == mapping_of(
            #[trigger] prods[j],
            #[trigger] tests[i],
            "name"@,
        ) || m == mapping_of(prods[j], tests[i], "file"@))
}

proof fn lemma_name_maps_from(test: FunctionModel, prods: Seq<FunctionModel>, stripped: Seq<char>)
    ensures
        forall|k: int| 0 <= k < name_maps(test, prods, stripped).len() ==> exists|j: int|
            0 <= j < prods.len() && #[trigger] name_maps(test, prods, stripped)[k] == mapping_of(
                prods[j],
                test,
                "name"@,
            ),
    decreases prods.len(),
{
    if prods.len() > 0 {
        let rest = prods.drop_last();
        lemma_name_maps_from(test, rest, stripped);
        let r = name_maps(test, prods, stripped);
        let rr = name_maps(test, rest, stripped);
        assert forall|k: int| 0 <= k < r.len() implies exists|j: int|
            0 <= j < prods.len() && #[trigger] r[k] == mapping_of(prods[j], test, "name"@) by {
            if k < rr.len() {
                assert(r[k] == rr[k]);
                let j = choose|j: int| 0 <= j < rest.len() && rr[k] == mapping_of(rest[j], test, "name"@);
                assert(prods[j] == rest[j]);
            } else {
                assert(r[k] == mapping_of(prods[prods.len() - 1], test, "name"@));
            }
        }
    }
}

proof fn lemma_file_maps_from(test: FunctionModel, prods: Seq<FunctionModel>)
    ensures
        forall|k: int| 0 <= k < file_maps(test, prods).len() ==> exists|j: int|
            0 <= j < prods.len() && #[trigger] file_maps(test, prods)[k] == mapping_of(prods[j], test, "file"@),
    decreases prods.len(),
{
    if prods.len() > 0 {
        let rest = prods.drop_last();
        lemma_file_maps_from(test, rest);
        let r = file_maps(test, prods);
        let rr = file_maps(test, rest);
        assert forall|k: int| 0 <= k < r.len() implies exists|j: int|
            0 <= j < prods.len() && #[trigger] r[k] == mapping_of(prods[j], test, "file"@) by {
            if k < rr.len() {
                assert(r[k] == rr[k]);
                let j = choose|j: int| 0 <= j < rest.len() && rr[k] == mapping_of(rest[j], test, "file"@);
                assert(prods[j] == rest[j]);
            } else {
                assert(r[k] == mapping_of(prods[prods.len() - 1], test, "file"@));
            }
        }
    }
}

proof fn lemma_all_maps_link(tests: Seq<FunctionModel>, prods: Seq<FunctionModel>)
    ensures
        forall|k: int| 0 <= k < all_maps(tests, prods).len() ==> links(
            #[trigger] all_maps(tests, prods)[k],
            tests,
            prods,
        ),
    decreases tests.len(),
{
    if tests.len() > 0 {
        let rest = tests.drop_last();
        let t = tests.last();
        lemma_all_maps_link(rest, prods);
        lemma_file_maps_from(t, prods);
        let a = all_maps(rest, prods);
        let b = test_maps(t, prods);
        let r = all_maps(tests, prods);
        assert forall|k: int| 0 <= k < r.len() implies links(#[trigger] r[k], tests, prods) by {
            if k < a.len() {
                assert(r[k] == a[k]);
                assert(links(a[k], rest, prods));
                let (i, j) = choose|i: int, j: int|
                    0 <= i < rest.len() && 0 <= j < prods.len() && (a[k] == mapping_of(
                        #[trigger] prods[j],
                        #[trigger] rest[i],
                        "name"@,
                    ) || a[k] == mapping_of(prods[j], rest[i], "file"@));
                assert(tests[i] == rest[i]);
            } else {
                let q = k - a.len();
                assert(r[k] == b[q]);
                let ti = tests.len() - 1;
                assert(tests[ti] == t);
                match spec_strip_test_prefix(t.name) {
                    Some(st) => {
                        lemma_name_maps_from(t, prods, st);
                        if name_maps(t, prods, st).len() > 0 {
                            let j = choose|j: int| 0 <= j < prods.len() && #[trigger] name_maps(t, prods, st)[q]
                                == mapping_of(prods[j], t, "name"@);
                            assert(r[k] == mapping_of(prods[j], tests[ti], "name"@));
                        } else {
                            let j = choose|j: int| 0 <= j < prods.len() && #[trigger] file_maps(t, prods)[q]
                                == mapping_of(prods[j], t, "file"@);
                            assert(r[k] == mapping_of(prods[j], tests[ti], "file"@));
                        }
                    },
                    None => {
                        let j = choose|j: int| 0 <= j < prods.len() && #[trigger] file_maps(t, prods)[q]
                            == mapping_of(prods[j], t, "file"@);
                        assert(r[k] == mapping_of(prods[j], tests[ti], "file"@));
                    },
                }
            }
        }
    }
}

proof fn lemma_test_functions_members(fs: Seq<FunctionModel>)
    ensures
        forall|k: int|
            #![trigger test_functions(fs)[k]]
            0 <= k < test_functions(fs).len() ==> exists|i: int|
                #![trigger fs[i]]
                0 <= i < fs.len() && fs[i] == test_functions(fs)[k] && fs[i].is_test,
    decreases fs.len(),
{
    if fs.len() > 0 {
        let prev = fs.drop_last();
        lemma_test_functions_members(prev);
        assert forall|k: int|
            #![trigger test_functions(fs)[k]]
            0 <= k < test_functions(fs).len() implies exists|i: int|
                #![trigger fs[i]]
                0 <= i < fs.len() && fs[i] == test_functions(fs)[k] && fs[i].is_test by {
            if k < test_functions(prev).len() {
                assert(test_functions(fs)[k] == test_functions(prev)[k]);
                let i = choose|i: int| #![trigger prev[i]] 0 <= i < prev.len() && prev[i] == test_functions(prev)[k] && prev[i].is_test;
                assert(fs[i] == prev[i]);
            } else {
                assert(test_functions(fs)[k] == fs[fs.len() - 1]);
            }
        }
    }
}

proof fn lemma_prod_functions_members(fs: Seq<FunctionModel>)
    ensures
        forall|k: int| 0 <= k < prod_functions(fs).len() ==> exists|i: int|
            0 <= i < fs.len() && fs[i] == #[trigger] prod_functions(fs)[k] && !fs[i].is_test,
    decreases fs.len(),
{
    if fs.len() > 0 {
        lemma_prod_functions_members(fs.drop_last());
        let r = prod_functions(fs);
        let rr = prod_functions(fs.drop_last());
        assert forall|k: int| 0 <= k < r.len() implies exists|i: int|
            0 <= i < fs.len() && fs[i] == #[trigger] r[k] && !fs[i].is_test by {
            if k < rr.len() {
                assert(r[k] == rr[k]);
                let i = choose|i: int| 0 <= i < fs.drop_last().len() && fs.drop_last()[i] == rr[k] && !fs.drop_last()[i].is_test;
                assert(fs[i] == fs.drop_last()[i]);
            } else {
                assert(r[k] == fs[fs.len() - 1]);
            }
        }
    }
}

/// Every mapping links a test function among `fs` to a production function
/// among `fs`, found by name or by file.
pub proof fn lemma_mappings_link_tests_to_prods(fs: Seq<FunctionModel>)
    ensures
        forall|k: int| 0 <= k < spec_compute_mappings(fs).len() ==> {
            let m = #[trigger] spec_compute_mappings(fs)[k];
            &&& exists|i: int| 0 <= i < fs.len() && fs[i].is_test && fs[i].name == m.test_name && fs[i].file == m.test_file
            &&& exists|j: int| 0 <= j < fs.len() && !fs[j].is_test && fs[j].name == m.function_name && fs[j].file == m.function_file
            &&& (m.match_type == "name"@ || m.match_type == "file"@)
        },
{
    let tests = test_functions(fs);
    let prods = prod_functions(fs);
    lemma_all_maps_link(tests, prods);
    lemma_test_functions_members(fs);
    lemma_prod_functions_members(fs);
    let ms = spec_compute_mappings(fs);
    assert forall|k: int| 0 <= k < ms.len() implies {
        let m = #[trigger] ms[k];
        &&& exists|i: int| 0 <= i < fs.len() && fs[i].is_test && fs[i].name == m.test_name && fs[i].file == m.test_file
        &&& exists|j: int| 0 <= j < fs.len() && !fs[j].is_test && fs[j].name == m.function_name && fs[j].file == m.function_file
        &&& (m.match_type == "name"@ || m.match_type == "file"@)
    } by {
        let m = ms[k];
        assert(links(m, tests, prods));
        let (a, b) = choose|a: int, b: int|
            0 <= a < tests.len() && 0 <= b < prods.len() && (m == mapping_of(
                #[trigger] prods[b],
                #[trigger] tests[a],
                "name"@,
            ) || m == mapping_of(prods[b], tests[a], "file"@));
        let i = choose|i: int| 0 <= i < fs.len() && fs[i] == #[trigger] tests[a] && fs[i].is_test;
        let j = choose|j: int| 0 <= j < fs.len() && fs[j] == #[trigger] prods[b] && !fs[j].is_test;
        assert(fs[i].name == m.test_name && fs[i].file == m.test_file);
        assert(fs[j].name == m.function_name && fs[j].file == m.function_file);
    }
}

proof fn lemma_tests_in_test_functions(fs: Seq<FunctionModel>, i: int)
    requires
        0 <= i < fs.len(),
        fs[i].is_test,
    ensures
        test_functions(fs).contains(fs[i]),
    decreases fs.len(),
{
    if i < fs.len() - 1 {
        lemma_tests_in_test_functions(fs.drop_last(), i);
        assert(fs.drop_last()[i] == fs[i]);
        let t = test_functions(fs.drop_last());
        let k = choose|k: int| 0 <= k < t.len() && t[k] == fs[i];
        if fs.last().is_test {
            assert(test_functions(fs)[k] == t[k]);
        }
    } else {
        assert(test_functions(fs).last() == fs[i]);
    }
}

proof fn lemma_prods_in_prod_functions(fs: Seq<FunctionModel>, i: int)
    requires
        0 <= i < fs.len(),
        !fs[i].is_test,
    ensures
        prod_functions(fs).contains(fs[i]),
    decreases fs.len(),
{
    if i < fs.len() - 1 {
        lemma_prods_in_prod_functions(fs.drop_last(), i);
        assert(fs.drop_last()[i] == fs[i]);
        let t = prod_functions(fs.drop_last());
        let k = choose|k: int| 0 <= k < t.len() && t[k] == fs[i];
        if !fs.last().is_test {
            assert(prod_functions(fs)[k] == t[k]);
        }
    } else {
        assert(prod_functions(fs).last() == fs[i]);
    }
}

proof fn lemma_name_maps_has(test: FunctionModel, prods: Seq<FunctionModel>, stripped: Seq<char>, b: int)
    requires
        0 <= b < prods.len(),
        prods[b].name == stripped || prods[b].name.is_prefix_of(stripped),
    ensures
        name_maps(test, prods, stripped).contains(mapping_of(prods[b], test, "name"@)),
    decreases prods.len(),
{
    if b < prods.len() - 1 {
        lemma_name_maps_has(test, prods.drop_last(), stripped, b);
        assert(prods.drop_last()[b] == prods[b]);
        let r = name_maps(test, prods.drop_last(), stripped);
        let k = choose|k: int| 0 <= k < r.len() && r[k] == mapping_of(prods[b], test, "name"@);
        if name_matches(prods.last().name, stripped) {
            assert(name_maps(test, prods, stripped)[k] == r[k]);
        }
    } else {
        assert(name_maps(test, prods, stripped).last() == mapping_of(prods[b], test, "name"@));
    }
}

proof fn lemma_all_maps_has(tests: Seq<FunctionModel>, prods: Seq<FunctionModel>, a: int, m: MappingModel)
    requires
        0 <= a < tests.len(),
        test_maps(tests[a], prods).contains(m),
    ensures
        all_maps(tests, prods).contains(m),
    decreases tests.len(),
{
    let rest = all_maps(tests.drop_last(), prods);
    let last = test_maps(tests.last(), prods);
    if a < tests.len() - 1 {
        assert(tests.drop_last()[a] == tests[a]);
        lemma_all_maps_has(tests.drop_last(), prods, a, m);
        let k = choose|k: int| 0 <= k < rest.len() && rest[k] == m;
        assert((rest + last)[k] == rest[k]);
    } else {
        let k = choose|k: int| 0 <= k < last.len() && last[k] == m;
        assert((rest + last)[rest.len() + k] == last[k]);
    }
}

/// A test named `test_<s>` or `tests::test_<s>` is always mapped, by name,
/// to every production function named `<s>` or by a prefix of `<s>`,
/// whatever files the two are in.
pub proof fn lemma_name_match_maps(fs: Seq<FunctionModel>, ti: int, pj: int, s: Seq<char>)
    requires
        0 <= ti < fs.len(),
        0 <= pj < fs.len(),
        fs[ti].is_test,
        !fs[pj].is_test,
        fs[ti].name == "test_"@ + s || fs[ti].name == "tests::test_"@ + s,
        fs[pj].name == s || fs[pj].name.is_prefix_of(s),
    ensures
        spec_compute_mappings(fs).contains(mapping_of(fs[pj], fs[ti], "name"@)),
{
    let t = fs[ti];
    let p = fs[pj];
    reveal_strlit("test_");
    reveal_strlit("tests::");
    reveal_strlit("tests::test_");
    if t.name == "test_"@ + s {
        assert(!"tests::"@.is_prefix_of(t.name)) by {
            assert(t.name[4] == '_');
            assert("tests::"@[4] == 's');
        }
        assert(t.name.skip(5) =~= s);
    } else {
        assert("tests::"@.is_prefix_of(t.name)) by {
            assert(t.name.subrange(0, 7) =~= "tests::"@);
        }
        let n = t.name.skip(7);
        assert(n =~= "test_"@ + s);
        assert("test_"@.is_prefix_of(n)) by {
            assert(n.subrange(0, 5) =~= "test_"@);
        }
        assert(n.skip(5) =~= s);
    }
    assert("test_"@.is_prefix_of(t.name) || t.name == "tests::test_"@ + s) by {
        if t.name == "test_"@ + s {
            assert(t.name.subrange(0, 5) =~= "test_"@);
        }
    }
    assert(spec_strip_test_prefix(t.name) == Some(s));
    let tests = test_functions(fs);
    let prods = prod_functions(fs);
    lemma_tests_in_test_functions(fs, ti);
    lemma_prods_in_prod_functions(fs, pj);
    let a = choose|a: int| 0 <= a < tests.len() && tests[a] == t;
    let b = choose|b: int| 0 <= b < prods.len() && prods[b] == p;
    lemma_name_maps_has(t, prods, s, b);
    let nm = name_maps(t, prods, s);
    assert(nm.len() > 0);
    assert(test_maps(t, prods) == nm);
    lemma_all_maps_has(tests, prods, a, mapping_of(p, t, "name"@));
}

proof fn lemma_name_maps_empty(test: FunctionModel, prods: Seq<FunctionModel>, stripped: Seq<char>)
    requires
        forall|b: int| 0 <= b < prods.len() ==> !name_matches(#[trigger] prods[b].name, stripped),
    ensures
        name_maps(test, prods, stripped).len() == 0,
    decreases prods.len(),
{
    if prods.len() > 0 {
        assert(!name_matches(prods[prods.len() - 1].name, stripped));
        lemma_name_maps_empty(test, prods.drop_last(), stripped);
    }
}

proof fn lemma_file_maps_has(test: FunctionModel, prods: Seq<FunctionModel>, b: int)
    requires
        0 <= b < prods.len(),
        spec_normalize_file(test.file) == spec_normalize_file(prods[b].file),
    ensures
        file_maps(test, prods).contains(mapping_of(prods[b], test, "file"@)),
    decreases prods.len(),
{
    if b < prods.len() - 1 {
        lemma_file_maps_has(test, prods.drop_last(), b);
        assert(prods.drop_last()[b] == prods[b]);
        let r = file_maps(test, prods.drop_last());
        let k = choose|k: int| 0 <= k < r.len() && r[k] == mapping_of(prods[b], test, "file"@);
        if spec_normalize_file(test.file) == spec_normalize_file(prods.last().file) {
            assert(file_maps(test, prods)[k] == r[k]);
        }
    } else {
        assert(file_maps(test, prods).last() == mapping_of(prods[b], test, "file"@));
    }
}

/// A test that no production function matches by name (its name lacks the
/// `test_` prefix, or no production function is named by what follows it)
/// is mapped, by file, to every production function whose file normalises
/// to the same path as the test's.
pub proof fn lemma_file_match_maps(fs: Seq<FunctionModel>, ti: int, pj: int)
    requires
        0 <= ti < fs.len(),
        0 <= pj < fs.len(),
        fs[ti].is_test,
        !fs[pj].is_test,
        match spec_strip_test_prefix(fs[ti].name) {
            Some(s) => forall|q: int|
                0 <= q < fs.len() && !(#[trigger] fs[q]).is_test ==> !(fs[q].name == s || fs[q].name.is_prefix_of(
                    s,
                )),
            None => true,
        },
        spec_normalize_file(fs[ti].file) == spec_normalize_file(fs[pj].file),
    ensures
        spec_compute_mappings(fs).contains(mapping_of(fs[pj], fs[ti], "file"@)),
{
    let t = fs[ti];
    let p = fs[pj];
    let tests = test_functions(fs);
    let prods = prod_functions(fs);
    lemma_tests_in_test_functions(fs, ti);
    lemma_prods_in_prod_functions(fs, pj);
    lemma_prod_functions_members(fs);
    let a = choose|a: int| 0 <= a < tests.len() && tests[a] == t;
    let b = choose|b: int| 0 <= b < prods.len() && prods[b] == p;
    lemma_file_maps_has(t, prods, b);
    if let Some(s) = spec_strip_test_prefix(t.name) {
        assert forall|c: int| 0 <= c < prods.len() implies !name_matches(#[trigger] prods[c].name, s) by {
            let q = choose|q: int| 0 <= q < fs.len() && fs[q] == prods[c] && !fs[q].is_test;
            assert(!fs[q].is_test);
        }
        lemma_name_maps_empty(t, prods, s);
    }
    assert(test_maps(t, prods) == file_maps(t, prods));
    lemma_all_maps_has(tests, prods, a, mapping_of(p, t, "file"@));
}

/// Strip test prefixes: `test_foo` → `foo`, `tests::test_foo` → `foo`
pub fn strip_test_prefix(name: &str) -> (r: Option<String>)
    ensures
        match r {
            Some(s) => spec_strip_test_prefix(name@) == Some(s@),
            None => spec_strip_test_prefix(name@) is None,
        },
{
    let nv = chars_of(name);
    let n = match strip_prefix_str(&nv, "tests::") {
        Some(rest) => rest,
        None => nv,
    };
    match strip_prefix_str(&n, "test_") {
        Some(rest) => Some(string_of(&rest)),
        None => None,
    }
}

/// `str::replace` for a non-empty pattern.
fn replace_all_exec(s: &[char], from: &str, to: &str) -> (r: Vec<char>)
    requires
        from@.len() > 0,
    ensures
        r@ == replace_all(s@, from@, to@),
{
    let fv = chars_of(from);
    let tv = chars_of(to);
    let mut out: Vec<char> = Vec::new();
    let mut i: usize = 0;
    assert(s@.skip(0) =~= s@);
    while i < s.len()
        invariant
            i <= s.len(),
            fv@ == from@,
            tv@ == to@,
            fv@.len() > 0,
            out@ + replace_all(s@.skip(i as int), from@, to@) == replace_all(s@, from@, to@),
        decreases s.len() - i,
    {
        let ghost rest = s@.skip(i as int);
        if matches_at(s, &fv, i) {
            assert(fv@.is_prefix_of(rest)) by {
                assert(rest.subrange(0, fv@.len() as int) =~= s@.subrange(i as int, i + fv@.len()));
            }
            assert(rest.skip(fv@.len() as int) =~= s@.skip(i + fv@.len()));
            let ghost before = out@;
            push_chars(&mut out, &tv);
            assert(out@ + replace_all(s@.skip(i + fv@.len()), from@, to@) =~= before + replace_all(rest, from@, to@));
            i = i + fv.len();
        } else {
            assert(!fv@.is_prefix_of(rest)) by {
                if fv@.is_prefix_of(rest) {
                    assert(rest.subrange(0, fv@.len() as int) =~= s@.subrange(i as int, i + fv@.len()));
                }
            }
            assert(rest.drop_first() =~= s@.skip(i + 1));
            let ghost before = out@;
            out.push(s[i]);
            assert(out@ + replace_all(s@.skip(i + 1), from@, to@) =~= before + replace_all(rest, from@, to@));
            i = i + 1;
        }
    }
    assert(s@.skip(i as int) =~= Seq::<char>::empty());
    assert(out@ + Seq::<char>::empty() =~= out@);
    out
}

/// Normalize file path for comparison: strip `tests/test_` prefix, `.test.` suffix, etc.
pub fn normalize_file(path: &str) -> (r: Vec<char>)
    ensures
        r@ == spec_normalize_file(path@),
{
    proof {
        reveal_strlit("tests/test_");
        reveal_strlit("tests/");
        reveal_strlit(".test.ts");
        reveal_strlit(".test.tsx");
        reveal_strlit(".spec.ts");
        reveal_strlit(".spec.tsx");
    }
    let p = chars_of(path);
    let a = replace_all_exec(&p, "tests/test_", "src/");
    let b = replace_all_exec(&a, "tests/", "src/");
    let c = replace_all_exec(&b, ".test.ts", ".ts");
    let d = replace_all_exec(&c, ".test.tsx", ".tsx");
    let e = replace_all_exec(&d, ".spec.ts", ".ts");
    replace_all_exec(&e, ".spec.tsx", ".tsx")
}

/// The mapping of `prod` to `test`.
fn make_mapping(prod: &FunctionInfo, test: &FunctionInfo, kind: &str) -> (r: TestMapping)
    ensures
        r@ == mapping_of(prod@, test@, kind@),
{
    TestMapping {
        function_file: prod.file.clone(),
        function_name: prod.name.clone(),
        test_file: test.file.clone(),
        test_name: test.name.clone(),
        match_type: string_of(&chars_of(kind)),
    }
}

/// The functions of `fs` whose `is_test` flag is `want`, in order.
pub(crate) fn select_functions(fs: &[FunctionInfo], want: bool) -> (r: Vec<FunctionInfo>)
    ensures
        want ==> fn_views(r@) == test_functions(fn_views(fs@)),
        !want ==> fn_views(r@) == prod_functions(fn_views(fs@)),
{
    let ghost fv = fn_views(fs@);
    let mut out: Vec<FunctionInfo> = Vec::new();
    let mut i: usize = 0;
    while i < fs.len()
        invariant
            i <= fs.len(),
            fv == fn_views(fs@),
            want ==> fn_views(out@) == test_functions(fv.take(i as int)),
            !want ==> fn_views(out@) == prod_functions(fv.take(i as int)),
        decreases fs.len() - i,
    {
        assert(fv.take(i + 1).drop_last() =~= fv.take(i as int));
        assert(fv[i as int] == fs@[i as int]@);
        if fs[i].is_test == want {
            let ghost before = fn_views(out@);
            out.push(fs[i].clone_info());
            assert(fn_views(out@) =~= before.push(fv[i as int]));
        }
        i = i + 1;
    }
    assert(fv.take(i as int) =~= fv);
    out
}

/// The mappings of one test.
fn mappings_for_test(test: &FunctionInfo, prods: &Vec<FunctionInfo>) -> (r: Vec<TestMapping>)
    ensures
        mapping_views(r@) == test_maps(test@, fn_views(prods@)),
{
    let ghost pv = fn_views(prods@);
    let mut out: Vec<TestMapping> = Vec::new();
    let stripped = strip_test_prefix(test.name.as_str());
    if let Some(st) = &stripped {
        let sv = chars_of(st.as_str());
        let mut j: usize = 0;
        while j < prods.len()
            invariant
                j <= prods.len(),
                pv == fn_views(prods@),
                sv@ == st@,
                mapping_views(out@) == name_maps(test@, pv.take(j as int), sv@),
            decreases prods.len() - j,
        {
            assert(pv.take(j + 1).drop_last() =~= pv.take(j as int));
            assert(pv[j as int] == prods@[j as int]@);
            let prod = &prods[j];
            let pn = chars_of(prod.name.as_str());
            if chars_eq(&pn, &sv) || starts_with(&sv, &pn) {
                let ghost before = mapping_views(out@);
                out.push(make_mapping(prod, test, "name"));
                assert(mapping_views(out@) =~= before.push(mapping_of(pv[j as int], test@, "name"@)));
            }
            j = j + 1;
        }
        assert(pv.take(j as int) =~= pv);
        if out.len() > 0 {
            return out;
        }
    }
    let tn = normalize_file(test.file.as_str());
    let mut out2: Vec<TestMapping> = Vec::new();
    let mut j: usize = 0;
    while j < prods.len()
        invariant
            j <= prods.len(),
            pv == fn_views(prods@),
            tn@ == spec_normalize_file(test.file@),
            mapping_views(out2@) == file_maps(test@, pv.take(j as int)),
        decreases prods.len() - j,
    {
        assert(pv.take(j + 1).drop_last() =~= pv.take(j as int));
        assert(pv[j as int] == prods@[j as int]@);
        let prod = &prods[j];
        let pn = normalize_file(prod.file.as_str());
        if chars_eq(&tn, &pn) {
            let ghost before = mapping_views(out2@);
            out2.push(make_mapping(prod, test, "file"));
            assert(mapping_views(out2@) =~= before.push(mapping_of(pv[j as int], test@, "file"@)));
        }
        j = j + 1;
    }
    assert(pv.take(j as int) =~= pv);
    out2
}

/// Compute mappings between production and test functions.
///
/// Heuristics:
/// 1. **Name match**: test `test_validate_stake` maps to prod `validate_stake`
/// 2. **File match**: a test with no name match maps to every production
///    function of the same (normalised) file
pub fn compute_mappings(functions: &[FunctionInfo]) -> (r: Vec<TestMapping>)
    ensures
        mapping_views(r@) == spec_compute_mappings(fn_views(functions@)),
{
    let tests = select_functions(functions, true);
    let prods = select_functions(functions, false);
    let ghost tv = fn_views(tests@);
    let mut mappings: Vec<TestMapping> = Vec::new();
    let mut i: usize = 0;
    while i < tests.len()
        invariant
            i <= tests.len(),
            tv == fn_views(tests@),
            tv == test_functions(fn_views(functions@)),
            fn_views(prods@) == prod_functions(fn_views(functions@)),
            mapping_views(mappings@) == all_maps(tv.take(i as int), fn_views(prods@)),
        decreases tests.len() - i,
    {
        assert(tv.take(i + 1).drop_last() =~= tv.take(i as int));
        assert(tv[i as int] == tests@[i as int]@);
        let mut ms = mappings_for_test(&tests[i], &prods);
        let ghost before = mapping_views(mappings@);
        let ghost add = mapping_views(ms@);
        mappings.append(&mut ms);
        assert(mapping_views(mappings@) =~= before + add);
        i = i + 1;
    }
    assert(tv.take(i as int) =~= tv);
    mappings
}

} // verus!
