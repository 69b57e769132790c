//! Language detection and per-language scanner profiles.
//!
//! Each [`LanguageProfile`] bundles the file extensions, function-detection
//! regexes, comment-line prefixes and doc-block delimiters for one language.
use vstd::prelude::*;

use crate::text::{chars_of, eq_str, split_on};

verus! {

#[derive(Debug, Clone, Copy, PartialEq, Eq, Hash, Structural)]
pub enum Language {
    Rust,
    Python,
    TypeScript,
    Unknown,
}

#[derive(Debug, Clone)]
pub struct LanguageProfile {
    pub language: Language,
    pub extensions: Vec<&'static str>,
    pub function_patterns: Vec<&'static str>,
    pub comment_line_prefixes: Vec<&'static str>,
    pub doc_block_delimiters: Vec<(&'static str, &'static str)>,
}

/// The file extensions of a language.
pub open spec fn spec_extensions(lang: Language) -> Seq<Seq<char>> {
    match lang {
        Language::Rust => seq!["rs"@],
        Language::Python => seq!["py"@],
        Language::TypeScript => seq!["ts"@, "tsx"@, "js"@, "jsx"@, "mjs"@, "cjs"@],
        Language::Unknown => seq![],
    }
}

/// The regexes that find function definitions: group 1 is the name and
/// group 2 the parameter list.
pub open spec fn spec_function_patterns(lang: Language) -> Seq<Seq<char>> {
    match lang {
        Language::Rust => seq![
            r"(?m)^\s*(?:pub\s+)?(?:async\s+)?fn\s+(\w+)\s*(?:<[^>]*>)?\s*\(([^)]*)\)"@,
        ],
        Language::Python => seq![r"(?m)^(?:    )*(?:async\s+)?def\s+(\w+)\s*\(([^)]*)\)"@],
        Language::TypeScript => seq![
            r"(?m)^\s*(?:export\s+)?(?:async\s+)?function\s+(\w+)\s*\(([^)]*)\)"@,
            r"(?m)^\s*(?:export\s+)?(?:const|let|var)\s+(\w+)\s*(?::[^=]+)?=\s*(?:async\s+)?\(([^)]*)\)\s*(?::[^={]+)?=>"@,
        ],
        Language::Unknown => seq![],
    }
}

/// The prefixes of a comment line.
pub open spec fn spec_comment_prefixes(lang: Language) -> Seq<Seq<char>> {
    match lang {
        Language::Rust => seq!["//"@],
        Language::Python => seq!["#"@],
        Language::TypeScript => seq!["//"@],
        Language::Unknown => seq![],
    }
}

/// The opening and closing delimiters of documentation blocks.
pub open spec fn spec_doc_delimiters(lang: Language) -> Seq<(Seq<char>, Seq<char>)> {
    match lang {
        Language::Rust => seq![("/*"@, "*/"@)],
        Language::Python => seq![("\"\"\""@, "\"\"\""@), ("'''"@, "'''"@)],
        Language::TypeScript => seq![("/*"@, "*/"@)],
        Language::Unknown => seq![],
    }
}

/// The view of a list of delimiter pairs.
pub open spec fn pairs_view(v: Seq<(&'static str, &'static str)>) -> Seq<(Seq<char>, Seq<char>)> {
    v.map_values(|p: (&'static str, &'static str)| (p.0@, p.1@))
}

impl LanguageProfile {
    /// Whether this is the profile of `lang`.
    pub open spec fn describes(&self, lang: Language) -> bool {
        &&& self.language == lang
        &&& self.extensions@.map_values(|e: &'static str| e@) == spec_extensions(lang)
        &&& self.function_patterns@.map_values(|e: &'static str| e@) == spec_function_patterns(lang)
        &&& self.comment_line_prefixes@.map_values(|e: &'static str| e@) == spec_comment_prefixes(lang)
        &&& pairs_view(self.doc_block_delimiters@) == spec_doc_delimiters(lang)
    }
}

/// The profile of a known language.
pub fn profile_for(lang: Language) -> (r: Option<LanguageProfile>)
    ensures
        match r {
            Some(p) => lang != Language::Unknown && p.describes(lang),
            None => lang == Language::Unknown,
        },
{
    match lang {
        Language::Rust => {
            let p = LanguageProfile {
                language: Language::Rust,
                extensions: vec!["rs"],
                function_patterns: vec![
                    r"(?m)^\s*(?:pub\s+)?(?:async\s+)?fn\s+(\w+)\s*(?:<[^>]*>)?\s*\(([^)]*)\)",
                ],
                comment_line_prefixes: vec!["//"],
                doc_block_delimiters: vec![("/*", "*/")],
            };
            assert(p.extensions@.map_values(|e: &'static str| e@) =~= spec_extensions(lang));
            assert(p.function_patterns@.map_values(|e: &'static str| e@) =~= spec_function_patterns(lang));
            assert(p.comment_line_prefixes@.map_values(|e: &'static str| e@) =~= spec_comment_prefixes(lang));
            assert(pairs_view(p.doc_block_delimiters@) =~= spec_doc_delimiters(lang));
            Some(p)
        },
        Language::Python => {
            let p = LanguageProfile {
                language: Language::Python,
                extensions: vec!["py"],
                function_patterns: vec![r"(?m)^(?:    )*(?:async\s+)?def\s+(\w+)\s*\(([^)]*)\)"],
                comment_line_prefixes: vec!["#"],
                doc_block_delimiters: vec![("\"\"\"", "\"\"\""), ("'''", "'''")],
            };
            assert(p.extensions@.map_values(|e: &'static str| e@) =~= spec_extensions(lang));
            assert(p.function_patterns@.map_values(|e: &'static str| e@) =~= spec_function_patterns(lang));
            assert(p.comment_line_prefixes@.map_values(|e: &'static str| e@) =~= spec_comment_prefixes(lang));
            assert(pairs_view(p.doc_block_delimiters@) =~= spec_doc_delimiters(lang));
            Some(p)
        },
        Language::TypeScript => {
            let p = LanguageProfile {
                language: Language::TypeScript,
                extensions: vec!["ts", "tsx", "js", "jsx", "mjs", "cjs"],
                function_patterns: vec![
                    r"(?m)^\s*(?:export\s+)?(?:async\s+)?function\s+(\w+)\s*\(([^)]*)\)",
                    r"(?m)^\s*(?:export\s+)?(?:const|let|var)\s+(\w+)\s*(?::[^=]+)?=\s*(?:async\s+)?\(([^)]*)\)\s*(?::[^={]+)?=>",
                ],
                comment_line_prefixes: vec!["//"],
                doc_block_delimiters: vec![("/*", "*/")],
            };
            assert(p.extensions@.map_values(|e: &'static str| e@) =~= spec_extensions(lang));
            assert(p.function_patterns@.map_values(|e: &'static str| e@) =~= spec_function_patterns(lang));
            assert(p.comment_line_prefixes@.map_values(|e: &'static str| e@) =~= spec_comment_prefixes(lang));
            assert(pairs_view(p.doc_block_delimiters@) =~= spec_doc_delimiters(lang));
            Some(p)
        },
        Language::Unknown => None,
    }
}

/// The components of a Unix path that can name a file: the pieces between
/// `/` separators, leaving out empty pieces and `.`.
pub open spec fn path_components(path: Seq<char>) -> Seq<Seq<char>> {
    split_on(path, '/').filter(|c: Seq<char>| c.len() > 0 && c != "."@)
}

/// The file name of a path, as `Path::file_name` gives it: its last
/// component, unless there is none or it is `..`.
pub open spec fn spec_file_name(path: Seq<char>) -> Option<Seq<char>> {
    let cs = path_components(path);
    if cs.len() == 0 || cs.last() == ".."@ {
        None
    } else {
        Some(cs.last())
    }
}

/// The index of the last `.` of `s`, if it has one.
pub open spec fn last_dot(s: Seq<char>) -> Option<int>
    decreases s.len(),
{
    if s.len() == 0 {
        None
    } else if s.last() == '.' {
        Some(s.len() - 1)
    } else {
        last_dot(s.drop_last())
    }
}

/// What `std::path::Path::extension` returns for `path`: none without a
/// file name, none when the file name has no `.` or has one only as its
/// first character, and otherwise the part of the file name after its last
/// `.` (possibly empty).
pub open spec fn spec_path_extension(path: Seq<char>) -> Option<Seq<char>> {
    match spec_file_name(path) {
        None => None,
        Some(name) => match last_dot(name) {
            None => None,
            Some(i) => if i == 0 {
                None
            } else {
                Some(name.skip(i + 1))
            },
        },
    }
}

/// Calls `std::path::Path::extension` on `path` and converts the extension
/// to a `String`. The contract states what the standard library documents
/// for Unix paths, where `/` is the only separator: the extension of the
/// path's last normal component, as `spec_path_extension` spells out. The
/// conversion back to a string cannot fail, since the path came from one.
#[verifier::external_body]
fn path_extension(path: &str) -> (r: Option<String>)
    ensures
        match r {
            Some(e) => spec_path_extension(path@) == Some(e@),
            None => spec_path_extension(path@) is None,
        },
{
    match std::path::Path::new(path).extension() {
        Some(e) => match e.to_str() {
            Some(s) => Some(s.to_string()),
            None => None,
        },
        None => None,
    }
}

/// The language whose extensions include `ext`.
pub open spec fn language_of_extension(ext: Seq<char>) -> Language {
    if spec_extensions(Language::Rust).contains(ext) {
        Language::Rust
    } else if spec_extensions(Language::Python).contains(ext) {
        Language::Python
    } else if spec_extensions(Language::TypeScript).contains(ext) {
        Language::TypeScript
    } else {
        Language::Unknown
    }
}

/// The language of the file at `path`, by its extension.
pub open spec fn spec_detect_language(path: Seq<char>) -> Language {
    match spec_path_extension(path) {
        Some(ext) => language_of_extension(ext),
        None => Language::Unknown,
    }
}

/// Whether the extension `ext` is one of `list`.
fn extension_in(ext: &[char], list: &Vec<&'static str>) -> (r: bool)
    ensures
        r == list@.map_values(|e: &'static str| e@).contains(ext@),
{
    let ghost views = list@.map_values(|e: &'static str| e@);
    let mut i: usize = 0;
    while i < list.len()
        invariant
            i <= list.len(),
            views == list@.map_values(|e: &'static str| e@),
            forall|k: int| 0 <= k < i ==> views[k] != ext@,
        decreases list.len() - i,
    {
        if eq_str(ext, list[i]) {
            assert(views[i as int] == ext@);
            return true;
        }
        i = i + 1;
    }
    false
}

/// The language whose extensions include `ext`.
fn language_of_extension_exec(ext: &[char]) -> (r: Language)
    ensures
        r == language_of_extension(ext@),
{
    let langs = [Language::Rust, Language::Python, Language::TypeScript];
    let mut i: usize = 0;
    while i < 3
        invariant
            i <= 3,
            langs@ == seq![Language::Rust, Language::Python, Language::TypeScript],
            forall|k: int| 0 <= k < i ==> !spec_extensions(#[trigger] langs@[k]).contains(ext@),
        decreases 3 - i,
    {
        let lang = langs[i];
        let p = profile_for(lang);
        match p {
            Some(p) => {
                if extension_in(ext, &p.extensions) {
                    return lang;
                }
            },
            None => {},
        }
        i = i + 1;
    }
    Language::Unknown
}

pub fn detect_language(path: &str) -> (r: Language)
    ensures
        r == spec_detect_language(path@),
{
    match path_extension(path) {
        Some(e) => {
            let ev = chars_of(e.as_str());
            language_of_extension_exec(&ev)
        },
        None => Language::Unknown,
    }
}

pub fn profile_for_path(path: &str) -> (r: Option<LanguageProfile>)
    ensures
        match r {
            Some(p) => spec_detect_language(path@) != Language::Unknown && p.describes(
                spec_detect_language(path@),
            ),
            None => spec_detect_language(path@) == Language::Unknown,
        },
{
    profile_for(detect_language(path))
}

pub fn is_source_path(path: &str) -> (r: bool)
    ensures
        r == (spec_detect_language(path@) != Language::Unknown),
{
    profile_for_path(path).is_some()
}

} // verus!
