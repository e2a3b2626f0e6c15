//! Decisions of the `search` command: which pattern the command line flags
//! ask for, and which query they stand for.

use vstd::prelude::*;
use vstd::string::{StringSliceAdditionalSpecFns, StrSliceExecFns};
use vstd::utf8::{encode_utf8, is_ascii_chars};
use crate::error::IndexError;
use crate::query::{LiteralQuery, Query, RegexQuery};
use crate::search::{LineMatch, LineMatchView, MatchPattern, match_views};
use crate::text::lower_bytes;
use crate::types::{Language, decimal_bytes, language_name, u32_to_decimal, usize_to_decimal};
use crate::text::ascii_chars;

verus! {

/// Options of a plain search.
pub struct SearchCmdOptions {
    pub pattern: MatchPattern,
    pub context_lines: usize,
    pub limit: usize,
    pub language: Option<String>,
    pub path_glob: Option<String>,
    pub stats: bool,
}

/// The mathematical content of a [`MatchPattern`].
pub enum PatternView {
    Literal(Seq<char>),
    LiteralCaseInsensitive(Seq<char>),
    Regex(Seq<char>),
}

impl View for MatchPattern {
    type V = PatternView;

    open spec fn view(&self) -> PatternView {
        match self {
            MatchPattern::Literal(s) => PatternView::Literal(s@),
            MatchPattern::LiteralCaseInsensitive(s) => PatternView::LiteralCaseInsensitive(s@),
            MatchPattern::Regex(s) => PatternView::Regex(s@),
        }
    }
}

/// Whether `char::is_uppercase` holds of a character (the Unicode
/// `Uppercase` property).
pub uninterp spec fn char_is_uppercase(c: char) -> bool;

/// `char::is_uppercase`. Its result is named `char_is_uppercase`; among ASCII
/// characters exactly `A`..=`Z` are upper case.
#[verifier::external_body]
fn is_uppercase(c: char) -> (r: bool)
    ensures
        r == char_is_uppercase(c),
        ('\0' <= c <= '\u{7f}') ==> (r <==> ('A' <= c <= 'Z')),
{
    c.is_uppercase()
}

/// Some character of the text is upper case.
pub open spec fn has_uppercase(s: Seq<char>) -> bool {
    exists|i: int| 0 <= i < s.len() && char_is_uppercase(#[trigger] s[i])
}

/// The pattern the flags ask for, given whether the query has an upper-case
/// character. Priority: regex, then case-sensitive, then ignore-case, then
/// smart case (the default): case-sensitive exactly when the query has an
/// upper-case character.
pub open spec fn flags_pattern(
    query: Seq<char>,
    regex: bool,
    case_sensitive: bool,
    ignore_case: bool,
    smart_case: bool,
    uppercase: bool,
) -> PatternView {
    if regex {
        PatternView::Regex(query)
    } else if case_sensitive {
        PatternView::Literal(query)
    } else if ignore_case {
        PatternView::LiteralCaseInsensitive(query)
    } else if uppercase {
        PatternView::Literal(query)
    } else {
        PatternView::LiteralCaseInsensitive(query)
    }
}

/// The pattern for the flags, once it is known whether the query holds an
/// upper-case character.
pub fn pattern_for_flags(
    query: &str,
    regex: bool,
    case_sensitive: bool,
    ignore_case: bool,
    smart_case: bool,
    has_upper: bool,
) -> (r: MatchPattern)
    ensures
        r@ == flags_pattern(query@, regex, case_sensitive, ignore_case, smart_case, has_upper),
{
    if regex {
        MatchPattern::Regex(query.to_owned())
    } else if case_sensitive {
        MatchPattern::Literal(query.to_owned())
    } else if ignore_case {
        MatchPattern::LiteralCaseInsensitive(query.to_owned())
    } else if smart_case || (!case_sensitive && !ignore_case) {
        if has_upper {
            MatchPattern::Literal(query.to_owned())
        } else {
            MatchPattern::LiteralCaseInsensitive(query.to_owned())
        }
    } else {
        MatchPattern::LiteralCaseInsensitive(query.to_owned())
    }
}

/// Resolve command line flags into a [`MatchPattern`].
///
/// Priority: regex > case_sensitive > ignore_case > smart case (the default):
/// case-sensitive if the query contains any upper-case character, otherwise
/// case-insensitive.
pub fn resolve_match_pattern(
    query: &str,
    regex: bool,
    case_sensitive: bool,
    ignore_case: bool,
    smart_case: bool,
) -> (r: MatchPattern)
    ensures
        r@ == flags_pattern(query@, regex, case_sensitive, ignore_case, smart_case, has_uppercase(query@)),
        (forall|k: int| 0 <= k < query@.len() ==> '\0' <= #[trigger] query@[k] <= '\u{7f}') ==> (has_uppercase(query@) <==> exists|k: int|
            0 <= k < query@.len() && 'A' <= #[trigger] query@[k] <= 'Z'),
{
    let n = query.unicode_len();
    let mut found = false;
    let mut i: usize = 0;
    while i < n && !found
        invariant
            n == query@.len(),
            0 <= i <= n,
            found == exists|j: int| 0 <= j < i && char_is_uppercase(#[trigger] query@[j]),
            forall|j: int| 0 <= j < i && '\0' <= #[trigger] query@[j] <= '\u{7f}' ==> (char_is_uppercase(query@[j]) <==> 'A' <= query@[j] <= 'Z'),
        decreases n - i,
    {
        let c = query.get_char(i);
        if is_uppercase(c) {
            found = true;
        }
        i += 1;
    }
    proof {
        if !found {
            assert(i == n);
        }
        if forall|k: int| 0 <= k < query@.len() ==> '\0' <= #[trigger] query@[k] <= '\u{7f}' {
            if found {
                let j = choose|j: int| 0 <= j < i && char_is_uppercase(#[trigger] query@[j]);
                assert('A' <= query@[j] <= 'Z');
            } else {
                assert forall|k: int| 0 <= k < query@.len() implies !('A' <= #[trigger] query@[k] <= 'Z') by {
                    assert(!char_is_uppercase(query@[k]));
                }
            }
        }
    }
    pattern_for_flags(query, regex, case_sensitive, ignore_case, smart_case, found)
}

/// Two strings are equal up to ASCII case (compared byte by byte).
pub open spec fn eq_ignore_ascii_case(a: Seq<char>, b: Seq<char>) -> bool {
    lower_bytes(encode_utf8(a)) == lower_bytes(encode_utf8(b))
}

/// Whether two strings are equal up to ASCII case.
pub fn str_eq_ignore_ascii_case(a: &str, b: &str) -> (r: bool)
    ensures
        r == eq_ignore_ascii_case(a@, b@),
{
    let x = a.as_bytes();
    let y = b.as_bytes();
    if x.len() != y.len() {
        proof {
            assert(lower_bytes(x@).len() != lower_bytes(y@).len());
        }
        return false;
    }
    let n = x.len();
    let mut i: usize = 0;
    while i < n
        invariant
            n == x@.len(),
            x@ == a.spec_bytes(),
            y@ == b.spec_bytes(),
            x@.len() == y@.len(),
            0 <= i <= n,
            forall|j: int| 0 <= j < i ==> lower_bytes(x@)[j] == lower_bytes(y@)[j],
        decreases n - i,
    {
        let p = if 65 <= x[i] && x[i] <= 90 { x[i] + 32 } else { x[i] };
        let q = if 65 <= y[i] && y[i] <= 90 { y[i] + 32 } else { y[i] };
        if p != q {
            proof {
                assert(lower_bytes(x@)[i as int] != lower_bytes(y@)[i as int]);
            }
            return false;
        }
        i += 1;
    }
    proof {
        assert(lower_bytes(x@) =~= lower_bytes(y@));
    }
    true
}

/// The names a language answers to: its display name and its file
/// extensions, in lower case.
pub open spec fn language_aliases(l: Language) -> Seq<Seq<char>> {
    match l {
        Language::Rust => seq!["rust"@, "rs"@],
        Language::Python => seq!["python"@, "py"@, "pyi"@],
        Language::TypeScript => seq!["typescript"@, "ts"@, "tsx"@],
        Language::JavaScript => seq!["javascript"@, "js"@, "jsx"@, "mjs"@, "cjs"@],
        Language::Go => seq!["go"@],
        Language::C => seq!["c"@, "h"@],
        Language::Cpp => seq!["c++"@, "cpp"@, "cxx"@, "cc"@, "hpp"@, "hxx"@, "hh"@],
        Language::Java => seq!["java"@],
        Language::Ruby => seq!["ruby"@, "rb"@],
        Language::Shell => seq!["shell"@, "sh"@, "bash"@, "zsh"@, "fish"@],
        Language::Markdown => seq!["markdown"@, "md"@],
        Language::Unknown => Seq::empty(),
    }
}

/// The name equals, ignoring ASCII case, one of the language's aliases.
pub open spec fn answers_to(name: Seq<char>, l: Language) -> bool {
    exists|i: int| 0 <= i < language_aliases(l).len() && eq_ignore_ascii_case(name, #[trigger] language_aliases(l)[i])
}

/// The languages in the order in which names are looked up.
pub open spec fn language_order() -> Seq<Language> {
    seq![Language::Rust, Language::Python, Language::TypeScript, Language::JavaScript, Language::Go, Language::C, Language::Cpp, Language::Java, Language::Ruby, Language::Shell, Language::Markdown]
}

/// The language a name stands for: the first language (in
/// [`language_order`]) that answers to it, or `None`.
pub open spec fn language_for_name(name: Seq<char>) -> Option<Language> {
    first_answering(name, language_order(), 0)
}

/// The first language from position `i` on that answers to the name.
pub open spec fn first_answering(name: Seq<char>, ls: Seq<Language>, i: int) -> Option<Language>
    decreases ls.len() - i,
{
    if i < 0 || i >= ls.len() {
        None
    } else if answers_to(name, ls[i]) {
        Some(ls[i])
    } else {
        first_answering(name, ls, i + 1)
    }
}

fn aliases(l: Language) -> (r: Vec<&'static str>)
    ensures
        r@.len() == language_aliases(l).len(),
        forall|i: int| 0 <= i < r@.len() ==> #[trigger] r@[i]@ == language_aliases(l)[i],
{
    let r = match l {
        Language::Rust => vec!["rust", "rs"],
        Language::Python => vec!["python", "py", "pyi"],
        Language::TypeScript => vec!["typescript", "ts", "tsx"],
        Language::JavaScript => vec!["javascript", "js", "jsx", "mjs", "cjs"],
        Language::Go => vec!["go"],
        Language::C => vec!["c", "h"],
        Language::Cpp => vec!["c++", "cpp", "cxx", "cc", "hpp", "hxx", "hh"],
        Language::Java => vec!["java"],
        Language::Ruby => vec!["ruby", "rb"],
        Language::Shell => vec!["shell", "sh", "bash", "zsh", "fish"],
        Language::Markdown => vec!["markdown", "md"],
        Language::Unknown => Vec::new(),
    };
    proof {
        assert forall|i: int| 0 <= i < r@.len() implies #[trigger] r@[i]@ == language_aliases(l)[i] by {
        }
    }
    r
}

fn answers_to_exec(name: &str, l: Language) -> (r: bool)
    ensures
        r == answers_to(name@, l),
{
    let al = aliases(l);
    let n = al.len();
    let mut i: usize = 0;
    while i < n
        invariant
            n == al@.len(),
            n == language_aliases(l).len(),
            forall|k: int| 0 <= k < n ==> #[trigger] al@[k]@ == language_aliases(l)[k],
            0 <= i <= n,
            forall|k: int| 0 <= k < i ==> !eq_ignore_ascii_case(name@, #[trigger] language_aliases(l)[k]),
        decreases n - i,
    {
        if str_eq_ignore_ascii_case(name, al[i]) {
            proof {
                assert(eq_ignore_ascii_case(name@, language_aliases(l)[i as int]));
            }
            return true;
        }
        i += 1;
    }
    false
}

/// Resolve a language name (a display name or a file extension, any ASCII
/// case) to a [`Language`].
pub fn match_language(name: &str) -> (r: Result<Language, IndexError>)
    ensures
        r matches Ok(l) ==> language_for_name(name@) == Some(l),
        r matches Err(e) ==> (language_for_name(name@) is None && (e matches IndexError::UnknownLanguage(s) && s@ == name@)),
        r is Ok <==> language_for_name(name@) is Some,
{
    let order = [Language::Rust, Language::Python, Language::TypeScript, Language::JavaScript, Language::Go, Language::C, Language::Cpp, Language::Java, Language::Ruby, Language::Shell, Language::Markdown];
    let ghost ls = language_order();
    proof {
        assert(order@ == ls);
    }
    let mut i: usize = 0;
    while i < 11
        invariant
            order@ == ls,
            ls == language_order(),
            0 <= i <= 11,
            first_answering(name@, ls, 0) == first_answering(name@, ls, i as int),
        decreases 11 - i,
    {
        if answers_to_exec(name, order[i]) {
            return Ok(order[i]);
        }
        i += 1;
    }
    Err(IndexError::UnknownLanguage(name.to_owned()))
}

/// The query leaf a pattern stands for: literals keep their case sensitivity,
/// regexes are case-sensitive.
pub open spec fn is_content_query(q: Query, p: PatternView) -> bool {
    match p {
        PatternView::Literal(s) => q matches Query::Literal(l) && l.text@ == s && l.case_sensitive,
        PatternView::LiteralCaseInsensitive(s) => q matches Query::Literal(l) && l.text@ == s && !l.case_sensitive,
        PatternView::Regex(s) => q matches Query::Regex(r) && r.pattern@ == s && r.case_sensitive,
    }
}

/// The query leaf for a pattern.
pub fn content_query(pattern: &MatchPattern) -> (r: Query)
    ensures
        is_content_query(r, pattern@),
{
    match pattern {
        MatchPattern::Literal(s) => Query::Literal(LiteralQuery { text: s.clone(), case_sensitive: true }),
        MatchPattern::LiteralCaseInsensitive(s) => Query::Literal(LiteralQuery { text: s.clone(), case_sensitive: false }),
        MatchPattern::Regex(s) => Query::Regex(RegexQuery { pattern: s.clone(), case_sensitive: true }),
    }
}

/// Convert command line flags (pattern and optional language) into a query.
///
/// Without a language the query is the pattern's leaf; with one it is
/// `And([LanguageFilter(language), leaf])`. An unknown language is an error.
pub fn flags_to_query(pattern: &MatchPattern, language: Option<&str>) -> (r: Result<Query, IndexError>)
    ensures
        language is None ==> (r matches Ok(q) && is_content_query(q, pattern@)),
        language matches Some(name) ==> (match language_for_name(name@) {
            None => (r matches Err(IndexError::UnknownLanguage(s)) && s@ == name@),
            Some(lang) => (r matches Ok(Query::And(children)) && children@.len() == 2
                && children@[0] == Query::LanguageFilter(lang) && is_content_query(children@[1], pattern@)),
        }),
{
    let content = content_query(pattern);
    match language {
        None => Ok(content),
        Some(lang_str) => {
            match match_language(lang_str) {
                Err(e) => Err(e),
                Ok(lang) => {
                    let mut children: Vec<Query> = Vec::new();
                    children.push(Query::LanguageFilter(lang));
                    children.push(content);
                    Ok(Query::And(children))
                },
            }
        },
    }
}

/// The matches found in one file.
pub struct FileMatch {
    /// Repository-relative path; path globs are matched against it.
    pub path: String,
    /// The path as it is printed (for instance relative to the working
    /// directory).
    pub display_path: String,
    /// Detected language.
    pub language: Language,
    /// Matching lines.
    pub lines: Vec<LineMatch>,
}

/// The mathematical content of a [`FileMatch`].
pub struct FileMatchView {
    pub path: Seq<char>,
    pub display_path: Seq<char>,
    pub language: Language,
    pub lines: Seq<LineMatchView>,
}

impl View for FileMatch {
    type V = FileMatchView;

    open spec fn view(&self) -> FileMatchView {
        FileMatchView {
            path: self.path@,
            display_path: self.display_path@,
            language: self.language,
            lines: match_views(self.lines@),
        }
    }
}

/// The views of a sequence of file matches.
pub open spec fn file_views(v: Seq<FileMatch>) -> Seq<FileMatchView> {
    Seq::new(v.len(), |i: int| v[i]@)
}

/// How a search command ends.
#[derive(Debug, Clone, Copy, PartialEq, Eq)]
pub enum ExitCode {
    /// Something was found.
    Success,
    /// Nothing was found.
    NoResults,
}

/// Whether a glob pattern is accepted by `globset::Glob::new`.
pub uninterp spec fn glob_accepts(pattern: Seq<char>) -> bool;

#[verifier::external_type_specification]
#[verifier::external_body]
pub struct ExGlobSet(globset::GlobSet);

/// The longest glob pattern, in bytes, that is compiled. Longer patterns are
/// refused: their matching automaton could not be built within `globset`'s
/// limits.
pub const MAX_GLOB_BYTES: usize = 0x1000_0000;

/// Whether `globset::GlobSetBuilder::build` succeeds on the set holding the
/// one glob of an accepted pattern (it fails when the pattern's regex exceeds
/// the crate's size limits).
pub uninterp spec fn glob_set_builds(pattern: Seq<char>) -> bool;

/// Whether a path given as a string that holds no `\\` is matched by the
/// glob set built from a pattern (`globset::GlobSet::is_match`).
pub uninterp spec fn glob_path_matches(pattern: Seq<char>, path: Seq<char>) -> bool;

/// A glob pattern is compiled: it is not too long, `Glob::new` accepts it and
/// its glob set builds.
pub open spec fn glob_compiles(pattern: Seq<char>) -> bool {
    &&& encode_utf8(pattern).len() <= MAX_GLOB_BYTES
    &&& glob_accepts(pattern)
    &&& glob_set_builds(pattern)
}

/// A compiled path glob, with the pattern it was compiled from. Only
/// [`glob_compile`] builds one, in a single step from the pattern, so `set`
/// is always the glob set of `pattern`.
pub struct PathGlob {
    pattern: String,
    set: globset::GlobSet,
}

impl View for PathGlob {
    type V = Seq<char>;

    closed spec fn view(&self) -> Seq<char> {
        self.pattern@
    }
}

/// `globset::Glob::new` (default options), then `GlobSetBuilder::new`, `add`
/// and `build` on that one glob: the glob set, kept with the pattern's text,
/// or `None` when either step fails. The steps are named `glob_accepts` and
/// `glob_set_builds`. Building can only panic (inside `aho-corasick`) on a
/// literal of more than about 2^30 bytes, so the pattern is bounded.
#[verifier::external_body]
fn glob_compile(pattern: &str) -> (r: Option<PathGlob>)
    requires
        encode_utf8(pattern@).len() <= MAX_GLOB_BYTES,
    ensures
        r is Some <==> (glob_accepts(pattern@) && glob_set_builds(pattern@)),
        r matches Some(g) ==> g@ == pattern@,
{
    let glob = globset::Glob::new(pattern).ok()?;
    let mut builder = globset::GlobSetBuilder::new();
    builder.add(glob);
    let set = builder.build().ok()?;
    Some(PathGlob { pattern: pattern.to_owned(), set })
}

/// `globset::GlobSet::is_match` on a path given as a string. On a path
/// without `\\` the answer is named `glob_path_matches` of the glob's
/// pattern and the path; on a path with one it depends on the platform
/// (`\\` is turned into `/` on Windows before matching), and nothing is
/// claimed of it there.
#[verifier::external_body]
fn glob_is_match(glob: &PathGlob, path: &str) -> (r: bool)
    ensures
        !path@.contains('\\') ==> r == glob_path_matches(glob@, path@),
{
    glob.set.is_match(path)
}

impl PathGlob {
    /// Compile a glob; a pattern that is too long, that `globset` rejects, or
    /// whose matcher cannot be built is an [`IndexError::InvalidPathGlob`]
    /// holding the pattern.
    pub fn new(pattern: &str) -> (r: Result<PathGlob, IndexError>)
        ensures
            r is Ok <==> glob_compiles(pattern@),
            r matches Ok(g) ==> g@ == pattern@,
            r matches Err(e) ==> (e matches IndexError::InvalidPathGlob(p) && p@ == pattern@),
    {
        if pattern.as_bytes().len() > MAX_GLOB_BYTES {
            return Err(IndexError::InvalidPathGlob(pattern.to_owned()));
        }
        match glob_compile(pattern) {
            Some(g) => Ok(g),
            None => Err(IndexError::InvalidPathGlob(pattern.to_owned())),
        }
    }

    /// Whether a path matches the glob (decided by `globset`; see
    /// [`glob_path_matches`] for paths without `\\`).
    pub fn is_match(&self, path: &str) -> (r: bool)
        ensures
            !path@.contains('\\') ==> r == glob_path_matches(self@, path@),
    {
        glob_is_match(self, path)
    }
}

/// A file of the given language passes the language filter: there is none,
/// or it names the language's display name, ignoring ASCII case.
pub open spec fn language_allows(file_language: Language, language: Option<Seq<char>>) -> bool {
    match language {
        None => true,
        Some(l) => eq_ignore_ascii_case(language_name(file_language), l),
    }
}

/// The language filter compares whole names: a file passes the filter
/// `Some(f)` exactly when `f`'s bytes and its language's display name have the
/// same length and agree byte by byte once ASCII letters are lower-cased; no
/// filter lets every file pass.
pub proof fn lemma_language_filter_exact(l: Language, f: Seq<char>)
    ensures
        language_allows(l, None),
        language_allows(l, Some(f)) <==> {
            &&& encode_utf8(f).len() == encode_utf8(language_name(l)).len()
            &&& forall|i: int| 0 <= i < encode_utf8(f).len() ==> crate::text::lower_byte(#[trigger] encode_utf8(f)[i])
                == crate::text::lower_byte(encode_utf8(language_name(l))[i])
        },
{
    let a = encode_utf8(f);
    let b = encode_utf8(language_name(l));
    if a.len() == b.len() && forall|i: int| 0 <= i < a.len() ==> crate::text::lower_byte(#[trigger] a[i]) == crate::text::lower_byte(b[i]) {
        assert(lower_bytes(b) =~= lower_bytes(a));
    }
    if language_allows(l, Some(f)) {
        assert(lower_bytes(b) == lower_bytes(a));
        assert forall|i: int| 0 <= i < a.len() implies crate::text::lower_byte(#[trigger] a[i]) == crate::text::lower_byte(b[i]) by {
            assert(lower_bytes(a)[i] == lower_bytes(b)[i]);
        }
    }
}

/// The ASCII-lower-cased bytes of each display name.
spec fn lowered_name(l: Language) -> Seq<u8> {
    match l {
        Language::Rust => seq![114u8, 117, 115, 116],
        Language::Python => seq![112u8, 121, 116, 104, 111, 110],
        Language::TypeScript => seq![116u8, 121, 112, 101, 115, 99, 114, 105, 112, 116],
        Language::JavaScript => seq![106u8, 97, 118, 97, 115, 99, 114, 105, 112, 116],
        Language::Go => seq![103u8, 111],
        Language::C => seq![99u8],
        Language::Cpp => seq![99u8, 43, 43],
        Language::Java => seq![106u8, 97, 118, 97],
        Language::Ruby => seq![114u8, 117, 98, 121],
        Language::Shell => seq![115u8, 104, 101, 108, 108],
        Language::Markdown => seq![109u8, 97, 114, 107, 100, 111, 119, 110],
        Language::Unknown => seq![117u8, 110, 107, 110, 111, 119, 110],
    }
}

proof fn lemma_lowered_ascii(c: Seq<char>, want: Seq<u8>)
    requires
        is_ascii_chars(c),
        c.len() == want.len(),
        forall|i: int| 0 <= i < c.len() ==> crate::text::lower_byte(#[trigger] c[i] as u8) == want[i],
    ensures
        lower_bytes(encode_utf8(c)) == want,
{
    vstd::utf8::is_ascii_chars_encode_utf8(c);
    assert forall|i: int| 0 <= i < want.len() implies lower_bytes(encode_utf8(c))[i] == want[i] by {
        assert(c[i] as u8 == encode_utf8(c)[i]);
    }
    assert(lower_bytes(encode_utf8(c)) =~= want);
}

proof fn lemma_lowered_name(l: Language)
    ensures
        lower_bytes(encode_utf8(language_name(l))) == lowered_name(l),
{
    reveal_strlit("Rust");
    reveal_strlit("Python");
    reveal_strlit("TypeScript");
    reveal_strlit("JavaScript");
    reveal_strlit("Go");
    reveal_strlit("C");
    reveal_strlit("C++");
    reveal_strlit("Java");
    reveal_strlit("Ruby");
    reveal_strlit("Shell");
    reveal_strlit("Markdown");
    reveal_strlit("Unknown");
    lemma_lowered_ascii(language_name(l), lowered_name(l));
}

/// A language filter names at most one language: two files that pass the
/// same filter have the same language (so `java` does not select
/// JavaScript, nor `c` C++).
pub proof fn lemma_language_filter_selects_one(l1: Language, l2: Language, f: Seq<char>)
    requires
        language_allows(l1, Some(f)),
        language_allows(l2, Some(f)),
    ensures
        l1 == l2,
{
    lemma_lowered_name(l1);
    lemma_lowered_name(l2);
    assert(lowered_name(l1) == lowered_name(l2));
    if l1 != l2 {
        let a = lowered_name(l1);
        let b = lowered_name(l2);
        assert(a.len() != b.len() || a[0] != b[0] || a[1] != b[1] || a[2] != b[2]) by {
            match l1 {
                Language::Rust => { match l2 { Language::Ruby => { assert(a[2] != b[2]); }, _ => {} } },
                Language::Ruby => { match l2 { Language::Rust => { assert(a[2] != b[2]); }, _ => {} } },
                _ => {},
            }
        }
    }
}

/// The language filter of a plain search.
pub fn language_filter_allows(file_language: Language, language: Option<&str>) -> (r: bool)
    ensures
        r == language_allows(file_language, match language { Some(l) => Some(l@), None => None }),
{
    match language {
        None => true,
        Some(l) => str_eq_ignore_ascii_case(file_language.name(), l),
    }
}

/// The elements of `v` whose flag in `keep` is set, in order.
pub open spec fn select(v: Seq<FileMatchView>, keep: Seq<bool>) -> Seq<FileMatchView>
    decreases v.len(),
{
    if v.len() == 0 || keep.len() == 0 {
        Seq::empty()
    } else {
        let rest = select(v.drop_last(), keep.drop_last());
        if keep.last() { rest.push(v.last()) } else { rest }
    }
}

/// The optional string's text.
pub open spec fn opt_text(o: Option<&str>) -> Option<Seq<char>> {
    match o {
        Some(l) => Some(l@),
        None => None,
    }
}

/// A file passes the filters: its language passes the language filter and
/// its path matches the glob, if there is one.
pub open spec fn passes(f: FileMatchView, glob: Option<Seq<char>>, language: Option<Seq<char>>) -> bool {
    &&& language_allows(f.language, language)
    &&& match glob {
        None => true,
        Some(g) => glob_path_matches(g, f.path),
    }
}

/// Whether a file passes the glob is stated: there is no glob, or the path
/// holds no `\\`.
pub open spec fn glob_decided(f: FileMatchView, glob: Option<Seq<char>>) -> bool {
    glob is None || !f.path.contains('\\')
}

/// `kept` is `files` with the files that fail the filters left out, in
/// order. Every file kept passes the language filter; a file whose glob
/// verdict is stated (see [`glob_decided`]) is kept exactly when it passes.
pub open spec fn is_filtered(
    files: Seq<FileMatchView>,
    kept: Seq<FileMatchView>,
    glob: Option<Seq<char>>,
    language: Option<Seq<char>>,
) -> bool {
    exists|keep: Seq<bool>| {
        &&& keep.len() == files.len()
        &&& kept == #[trigger] select(files, keep)
        &&& forall|i: int| 0 <= i < keep.len() ==> (#[trigger] keep[i] ==> language_allows(files[i].language, language))
        &&& forall|i: int| 0 <= i < keep.len() && glob_decided(files[i], glob) ==> #[trigger] keep[i] == passes(files[i], glob, language)
    }
}

/// The pattern of an optional compiled glob.
pub open spec fn glob_text(g: Option<PathGlob>) -> Option<Seq<char>> {
    match g {
        Some(m) => Some(m@),
        None => None,
    }
}

/// Compile an optional path glob.
fn compile_glob(path_glob: Option<&str>) -> (r: Result<Option<PathGlob>, IndexError>)
    ensures
        r is Err <==> (path_glob matches Some(g) && !glob_compiles(g@)),
        r matches Err(e) ==> (path_glob matches Some(g) && e matches IndexError::InvalidPathGlob(p) && p@ == g@),
        r matches Ok(o) ==> glob_text(o) == opt_text(path_glob),
{
    match path_glob {
        None => Ok(None),
        Some(g) => match PathGlob::new(g) {
            Ok(m) => Ok(Some(m)),
            Err(e) => Err(e),
        },
    }
}

/// Keep the files that the compiled glob (if any) and the language filter let
/// through, in order.
fn keep_passing(files: Vec<FileMatch>, glob: &Option<PathGlob>, language: Option<&str>) -> (r: Vec<FileMatch>)
    ensures
        is_filtered(file_views(files@), file_views(r@), glob_text(*glob), opt_text(language)),
{
    let ghost lang = opt_text(language);
    let ghost gt = glob_text(*glob);
    let ghost fv = file_views(files@);
    let n = files.len();
    let mut rest = files;
    let mut kept: Vec<FileMatch> = Vec::new();
    let ghost mut keep: Seq<bool> = Seq::empty();
    let mut i: usize = 0;
    while i < n
        invariant
            n == fv.len(),
            0 <= i <= n,
            file_views(rest@) == fv.skip(i as int),
            rest@.len() == n - i,
            keep.len() == i,
            file_views(kept@) == select(fv.take(i as int), keep),
            forall|k: int| 0 <= k < i ==> (#[trigger] keep[k] ==> language_allows(fv[k].language, lang)),
            forall|k: int| 0 <= k < i && glob_decided(fv[k], gt) ==> #[trigger] keep[k] == passes(fv[k], gt, lang),
            lang == opt_text(language),
            gt == glob_text(*glob),
        decreases n - i,
    {
        let ghost old_rest = rest@;
        let fm = rest.remove(0);
        proof {
            assert(fm == old_rest[0]);
            assert(file_views(old_rest)[0] == fv.skip(i as int)[0]);
            assert(rest@ == old_rest.remove(0));
            assert forall|j: int| 0 <= j < rest@.len() implies file_views(rest@)[j] == fv.skip(i + 1)[j] by {
                assert(rest@[j] == old_rest[j + 1]);
                assert(file_views(old_rest)[j + 1] == fv.skip(i as int)[j + 1]);
            }
            assert(file_views(rest@) =~= fv.skip(i + 1));
        }
        let glob_ok = match glob {
            None => true,
            Some(m) => m.is_match(fm.path.as_str()),
        };
        let pass = glob_ok && language_filter_allows(fm.language, language);
        let ghost before = kept@;
        if pass {
            kept.push(fm);
        }
        proof {
            let t1 = fv.take(i + 1);
            assert(t1.drop_last() =~= fv.take(i as int));
            assert(t1.last() == fm@);
            let keep1 = keep.push(pass);
            assert(keep1.drop_last() =~= keep);
            if pass {
                assert(file_views(kept@) =~= file_views(before).push(fm@));
            }
            assert(file_views(kept@) == select(t1, keep1));
            keep = keep1;
        }
        i += 1;
    }
    proof {
        assert(fv.take(n as int) =~= fv);
        assert(file_views(kept@) == select(fv, keep));
    }
    kept
}

/// Keep the files of a plain search that pass its path glob and language
/// filters, in order. An invalid glob is an
/// [`IndexError::InvalidPathGlob`] holding the pattern. See
/// [`is_filtered`] for what is kept.
pub fn filter_files(files: Vec<FileMatch>, path_glob: Option<&str>, language: Option<&str>) -> (r: Result<Vec<FileMatch>, IndexError>)
    ensures
        r is Err <==> (path_glob matches Some(g) && !glob_compiles(g@)),
        r matches Err(e) ==> (path_glob matches Some(g) && e matches IndexError::InvalidPathGlob(p) && p@ == g@),
        r matches Ok(kept) ==> is_filtered(file_views(files@), file_views(kept@), opt_text(path_glob), opt_text(language)),
{
    let glob = match compile_glob(path_glob) {
        Ok(g) => g,
        Err(e) => return Err(e),
    };
    Ok(keep_passing(files, &glob, language))
}

/// The column a line match is reported at: one past the start of its first
/// match range, or 1 when it has none.
pub fn match_column(line: &LineMatch) -> (r: usize)
    requires
        line.ranges@.len() > 0 ==> line.ranges@[0].0 < usize::MAX,
    ensures
        r == if line.ranges@.len() > 0 { line.ranges@[0].0 + 1 } else { 1 },
{
    if line.ranges.len() > 0 {
        line.ranges[0].0 + 1
    } else {
        1
    }
}

/// The column a line match is reported at, as a number.
pub open spec fn column_of(m: LineMatchView) -> nat {
    if m.ranges.len() > 0 { (m.ranges[0].0 + 1) as nat } else { 1 }
}

/// The vimgrep line of a match in a file: `path:line:column:content`.
pub open spec fn vimgrep_text(path: Seq<char>, m: LineMatchView) -> Seq<char> {
    path + ":"@ + ascii_chars(decimal_bytes(m.line_number as nat)) + ":"@ + ascii_chars(decimal_bytes(column_of(m)))
        + ":"@ + m.content
}

/// A vimgrep line is the path, the line number, the column and the text,
/// separated by `:`; the column is one past the start of the first match
/// range (counting from 1), or 1 when the line has no range.
pub proof fn lemma_vimgrep_fields(path: Seq<char>, m: LineMatchView)
    ensures
        vimgrep_text(path, m) == path + ":"@ + ascii_chars(decimal_bytes(m.line_number as nat)) + ":"@ + ascii_chars(
            decimal_bytes(if m.ranges.len() > 0 { (m.ranges[0].0 + 1) as nat } else { 1nat }),
        ) + ":"@ + m.content,
        m.ranges.len() > 0 ==> column_of(m) == m.ranges[0].0 + 1,
        m.ranges.len() == 0 ==> column_of(m) == 1,
{
}

/// The vimgrep lines of one file, in the order of its matches.
pub open spec fn file_output(f: FileMatchView) -> Seq<Seq<char>> {
    Seq::new(f.lines.len(), |j: int| vimgrep_text(f.display_path, f.lines[j]))
}

/// The vimgrep lines of the files, file after file.
pub open spec fn search_output(files: Seq<FileMatchView>) -> Seq<Seq<char>>
    decreases files.len(),
{
    if files.len() == 0 {
        Seq::empty()
    } else {
        search_output(files.drop_last()) + file_output(files.last())
    }
}

/// Every match's first range starts before `usize::MAX`, so its column fits.
pub open spec fn columns_fit(files: Seq<FileMatchView>) -> bool {
    forall|i: int, j: int|
        0 <= i < files.len() && 0 <= j < files[i].lines.len() && (#[trigger] files[i].lines[j]).ranges.len() > 0
            ==> files[i].lines[j].ranges[0].0 < usize::MAX
}

/// The vimgrep line of a match in the file at `path`.
pub fn vimgrep_line(path: &str, line: &LineMatch) -> (r: String)
    requires
        line.ranges@.len() > 0 ==> line.ranges@[0].0 < usize::MAX,
    ensures
        r@ == vimgrep_text(path@, line@),
        r@ == path@ + ":"@ + ascii_chars(decimal_bytes(line.line_number as nat)) + ":"@ + ascii_chars(
            decimal_bytes(if line.ranges@.len() > 0 { (line.ranges@[0].0 + 1) as nat } else { 1nat }),
        ) + ":"@ + line.content@,
{
    let mut out = path.to_owned();
    out.append(":");
    out.append(u32_to_decimal(line.line_number).as_str());
    out.append(":");
    out.append(usize_to_decimal(match_column(line)).as_str());
    out.append(":");
    out.append(line.content.as_str());
    out
}

/// Append the vimgrep lines of one file.
fn push_file_output(out: &mut Vec<String>, f: &FileMatch)
    requires
        forall|j: int| 0 <= j < f.lines@.len() && (#[trigger] f.lines@[j]).ranges@.len() > 0 ==> f.lines@[j].ranges@[0].0 < usize::MAX,
    ensures
        final(out)@.map_values(|s: String| s@) == old(out)@.map_values(|s: String| s@) + file_output(f@),
{
    let ghost start = old(out)@.map_values(|s: String| s@);
    let n = f.lines.len();
    let mut j: usize = 0;
    while j < n
        invariant
            n == f.lines@.len(),
            0 <= j <= n,
            forall|k: int| 0 <= k < f.lines@.len() && (#[trigger] f.lines@[k]).ranges@.len() > 0 ==> f.lines@[k].ranges@[0].0 < usize::MAX,
            out@.map_values(|s: String| s@) == start + file_output(f@).take(j as int),
        decreases n - j,
    {
        let text = vimgrep_line(f.display_path.as_str(), &f.lines[j]);
        let ghost before = out@;
        out.push(text);
        proof {
            assert(f@.lines[j as int] == f.lines@[j as int]@);
            assert(file_output(f@).take(j + 1) =~= file_output(f@).take(j as int).push(text@));
            assert(out@.map_values(|s: String| s@) =~= before.map_values(|s: String| s@).push(text@));
        }
        j += 1;
    }
    proof {
        assert(file_output(f@).take(n as int) =~= file_output(f@));
    }
}

/// The vimgrep lines of the files, file after file.
pub fn output_lines(files: &Vec<FileMatch>) -> (r: Vec<String>)
    requires
        columns_fit(file_views(files@)),
    ensures
        r@.map_values(|s: String| s@) == search_output(file_views(files@)),
{
    let ghost fv = file_views(files@);
    let mut out: Vec<String> = Vec::new();
    let n = files.len();
    let mut i: usize = 0;
    proof {
        assert(out@.map_values(|s: String| s@) =~= search_output(fv.take(0)));
    }
    while i < n
        invariant
            n == files@.len(),
            fv == file_views(files@),
            columns_fit(fv),
            0 <= i <= n,
            out@.map_values(|s: String| s@) == search_output(fv.take(i as int)),
        decreases n - i,
    {
        proof {
            assert forall|j: int| 0 <= j < files@[i as int].lines@.len() && (#[trigger] files@[i as int].lines@[j]).ranges@.len() > 0
                implies files@[i as int].lines@[j].ranges@[0].0 < usize::MAX by {
                assert(fv[i as int].lines[j] == files@[i as int].lines@[j]@);
            }
        }
        push_file_output(&mut out, &files[i]);
        proof {
            let t = fv.take(i + 1);
            assert(t.drop_last() =~= fv.take(i as int));
            assert(t.last() == files@[i as int]@);
        }
        i += 1;
    }
    proof {
        assert(fv.take(n as int) =~= fv);
    }
    out
}

/// What a search command prints, line by line, and how it ends.
pub struct SearchOutput {
    pub exit: ExitCode,
    pub lines: Vec<String>,
}

/// The texts of printed lines.
pub open spec fn texts(v: Seq<String>) -> Seq<Seq<char>> {
    v.map_values(|s: String| s@)
}

/// The language filter of the options, as text.
pub open spec fn opts_language(opts: &SearchCmdOptions) -> Option<Seq<char>> {
    match opts.language {
        Some(l) => Some(l@),
        None => None,
    }
}

/// The path glob of the options, as text.
pub open spec fn opts_glob(opts: &SearchCmdOptions) -> Option<Seq<char>> {
    match opts.path_glob {
        Some(g) => Some(g@),
        None => None,
    }
}

/// The options hold a path glob that does not compile.
pub open spec fn glob_rejected(opts: &SearchCmdOptions) -> bool {
    opts_glob(opts) matches Some(g) && !glob_compiles(g)
}

fn opt_str(o: &Option<String>) -> (r: Option<&str>)
    ensures
        opt_text(r) == match o { Some(s) => Some(s@), None => None::<Seq<char>> },
{
    match o {
        Some(s) => Some(s.as_str()),
        None => None,
    }
}

/// The output of a plain search once the engine has found `files` (in the
/// order it reports them).
///
/// Nothing found ends with [`ExitCode::NoResults`] and prints nothing, even
/// when the path glob is invalid. Otherwise an invalid glob is an error; else
/// the files that pass the path glob (matched against their repository path)
/// and the language filter are printed in vimgrep form (with their display
/// path). The search ends with [`ExitCode::Success`] when a file passed and
/// with [`ExitCode::NoResults`] when none did.
pub fn run_search(files: Vec<FileMatch>, opts: &SearchCmdOptions) -> (r: Result<SearchOutput, IndexError>)
    requires
        columns_fit(file_views(files@)),
    ensures
        files@.len() == 0 ==> (r matches Ok(o) && o.exit == ExitCode::NoResults && o.lines@.len() == 0),
        files@.len() > 0 ==> (r is Err <==> glob_rejected(opts)),
        r matches Err(e) ==> (opts_glob(opts) matches Some(g) && e matches IndexError::InvalidPathGlob(p) && p@ == g),
        files@.len() > 0 ==> (r matches Ok(o) ==> exists|kept: Seq<FileMatchView>| {
            &&& is_filtered(file_views(files@), kept, opts_glob(opts), opts_language(opts))
            &&& #[trigger] search_output(kept) == texts(o.lines@)
            &&& o.exit == if kept.len() == 0 { ExitCode::NoResults } else { ExitCode::Success }
        }),
{
    if files.len() == 0 {
        return Ok(SearchOutput { exit: ExitCode::NoResults, lines: Vec::new() });
    }
    let ghost fv = file_views(files@);
    let kept = match filter_files(files, opt_str(&opts.path_glob), opt_str(&opts.language)) {
        Ok(k) => k,
        Err(e) => return Err(e),
    };
    proof {
        lemma_filtered_columns_fit(fv, file_views(kept@), opts_glob(opts), opts_language(opts));
    }
    let lines = output_lines(&kept);
    let exit = if kept.len() == 0 { ExitCode::NoResults } else { ExitCode::Success };
    Ok(SearchOutput { exit, lines })
}

/// The output of a streaming search once the engine, given the query of
/// [`flags_to_query`], has found `files`.
///
/// An invalid path glob is an error, checked first; an unknown language is
/// an error too. Otherwise the files that pass the glob are printed in
/// vimgrep form; the search ends with [`ExitCode::Success`] when one passed
/// and with [`ExitCode::NoResults`] when none did.
pub fn run_search_streaming(files: Vec<FileMatch>, opts: &SearchCmdOptions) -> (r: Result<SearchOutput, IndexError>)
    requires
        columns_fit(file_views(files@)),
    ensures
        glob_rejected(opts) ==> (r matches Err(IndexError::InvalidPathGlob(p)) && opts_glob(opts) == Some(p@)),
        !glob_rejected(opts) ==> ((opts_language(opts) matches Some(name) && language_for_name(name) is None) <==> r is Err),
        !glob_rejected(opts) ==> (r matches Err(e) ==> (opts_language(opts) matches Some(name)
            && e matches IndexError::UnknownLanguage(s) && s@ == name)),
        r matches Ok(o) ==> exists|kept: Seq<FileMatchView>| {
            &&& is_filtered(file_views(files@), kept, opts_glob(opts), None)
            &&& #[trigger] search_output(kept) == texts(o.lines@)
            &&& o.exit == if kept.len() == 0 { ExitCode::NoResults } else { ExitCode::Success }
        },
{
    let glob = match compile_glob(opt_str(&opts.path_glob)) {
        Ok(g) => g,
        Err(e) => return Err(e),
    };
    match flags_to_query(&opts.pattern, opt_str(&opts.language)) {
        Ok(_) => {},
        Err(e) => return Err(e),
    }
    let ghost fv = file_views(files@);
    let kept = keep_passing(files, &glob, None);
    proof {
        lemma_filtered_columns_fit(fv, file_views(kept@), opts_glob(opts), None);
    }
    let lines = output_lines(&kept);
    let exit = if kept.len() == 0 { ExitCode::NoResults } else { ExitCode::Success };
    Ok(SearchOutput { exit, lines })
}

/// The output of a query-language search once the engine has found `files`:
/// nothing found ends with [`ExitCode::NoResults`]; otherwise every file's
/// matches are printed in vimgrep form and it ends with
/// [`ExitCode::Success`].
pub fn run_query_search(files: &Vec<FileMatch>) -> (r: SearchOutput)
    requires
        columns_fit(file_views(files@)),
    ensures
        r.exit == if files@.len() == 0 { ExitCode::NoResults } else { ExitCode::Success },
        texts(r.lines@) == search_output(file_views(files@)),
{
    if files.len() == 0 {
        let lines: Vec<String> = Vec::new();
        proof {
            assert(texts(lines@) =~= search_output(file_views(files@)));
        }
        return SearchOutput { exit: ExitCode::NoResults, lines };
    }
    SearchOutput { exit: ExitCode::Success, lines: output_lines(files) }
}

/// Filtering keeps a subsequence, so the columns of what is kept still fit.
proof fn lemma_filtered_columns_fit(files: Seq<FileMatchView>, kept: Seq<FileMatchView>, glob: Option<Seq<char>>, language: Option<Seq<char>>)
    requires
        columns_fit(files),
        is_filtered(files, kept, glob, language),
    ensures
        columns_fit(kept),
{
    let keep = choose|keep: Seq<bool>| {
        &&& keep.len() == files.len()
        &&& kept == #[trigger] select(files, keep)
        &&& forall|i: int| 0 <= i < keep.len() ==> (#[trigger] keep[i] ==> language_allows(files[i].language, language))
        &&& forall|i: int| 0 <= i < keep.len() && glob_decided(files[i], glob) ==> #[trigger] keep[i] == passes(files[i], glob, language)
    };
    lemma_select_members(files, keep);
    assert forall|i: int, j: int|
        0 <= i < kept.len() && 0 <= j < kept[i].lines.len() && (#[trigger] kept[i].lines[j]).ranges.len() > 0
            implies kept[i].lines[j].ranges[0].0 < usize::MAX by {
        assert(files.contains(kept[i]));
        let k = choose|k: int| 0 <= k < files.len() && files[k] == kept[i];
        assert(files[k].lines[j] == kept[i].lines[j]);
    }
}

/// Every element of a selection is an element of the original.
proof fn lemma_select_members(v: Seq<FileMatchView>, keep: Seq<bool>)
    ensures
        forall|i: int| 0 <= i < select(v, keep).len() ==> v.contains(#[trigger] select(v, keep)[i]),
    decreases v.len(),
{
    if v.len() > 0 && keep.len() > 0 {
        let p = v.drop_last();
        lemma_select_members(p, keep.drop_last());
        let rest = select(p, keep.drop_last());
        assert forall|i: int| 0 <= i < select(v, keep).len() implies v.contains(#[trigger] select(v, keep)[i]) by {
            if i < rest.len() {
                assert(p.contains(rest[i]));
                let j = choose|j: int| 0 <= j < p.len() && p[j] == rest[i];
                assert(v[j] == p[j]);
            } else {
                assert(select(v, keep)[i] == v[v.len() - 1]);
            }
        }
    }
}

/// The state of a streaming search's writer: the lines of the current file
/// still to be written, and whether a file has passed the path glob.
pub struct StreamState {
    pub pending: Vec<String>,
    pub has_results: bool,
}

/// What happens to the streaming writer.
pub enum StreamEvent {
    /// The engine sent a file; `passes_glob` is whether its repository path
    /// matches the path glob (true when there is none).
    File { file: FileMatch, passes_glob: bool },
    /// The last line was written (`true`) or the write failed (`false`).
    Written(bool),
    /// The engine sent every file.
    Finished,
}

/// What the streaming writer does next.
pub enum StreamAction {
    /// Write this line.
    Write(String),
    /// Wait for the engine's next file.
    AwaitFile,
    /// End the search with this exit code.
    Exit(ExitCode),
}

/// The mathematical content of a [`StreamState`].
pub struct StreamStateView {
    pub pending: Seq<Seq<char>>,
    pub has_results: bool,
}

/// The mathematical content of a [`StreamAction`].
pub enum StreamActionView {
    Write(Seq<char>),
    AwaitFile,
    Exit(ExitCode),
}

impl View for StreamState {
    type V = StreamStateView;

    open spec fn view(&self) -> StreamStateView {
        StreamStateView { pending: texts(self.pending@), has_results: self.has_results }
    }
}

impl View for StreamAction {
    type V = StreamActionView;

    open spec fn view(&self) -> StreamActionView {
        match self {
            StreamAction::Write(l) => StreamActionView::Write(l@),
            StreamAction::AwaitFile => StreamActionView::AwaitFile,
            StreamAction::Exit(c) => StreamActionView::Exit(*c),
        }
    }
}

/// Write the next pending line, or wait for a file when none is left.
pub open spec fn stream_next(pending: Seq<Seq<char>>, has_results: bool) -> (StreamStateView, StreamActionView) {
    if pending.len() == 0 {
        (StreamStateView { pending, has_results }, StreamActionView::AwaitFile)
    } else {
        (StreamStateView { pending: pending.drop_first(), has_results }, StreamActionView::Write(pending[0]))
    }
}

/// One step of the streaming writer. A file that passes the glob counts as a
/// result and its vimgrep lines are written one by one; a file that fails it
/// is skipped. A failed write drops the rest of the current file's lines.
/// When every file has been sent, the search ends with
/// [`ExitCode::Success`] if a file passed and [`ExitCode::NoResults`] if none
/// did.
pub open spec fn stream_transition(s: StreamStateView, e: StreamEvent) -> (StreamStateView, StreamActionView) {
    match e {
        StreamEvent::File { file, passes_glob } => if passes_glob {
            stream_next(s.pending + file_output(file@), true)
        } else {
            stream_next(s.pending, s.has_results)
        },
        StreamEvent::Written(ok) => if ok {
            stream_next(s.pending, s.has_results)
        } else {
            (StreamStateView { pending: Seq::empty(), has_results: s.has_results }, StreamActionView::AwaitFile)
        },
        StreamEvent::Finished => (
            s,
            StreamActionView::Exit(if s.has_results { ExitCode::Success } else { ExitCode::NoResults }),
        ),
    }
}

fn next_line(state: StreamState) -> (r: (StreamState, StreamAction))
    ensures
        (r.0@, r.1@) == stream_next(state@.pending, state@.has_results),
{
    let mut pending = state.pending;
    if pending.len() == 0 {
        (StreamState { pending, has_results: state.has_results }, StreamAction::AwaitFile)
    } else {
        let ghost before = pending@;
        let first = pending.remove(0);
        proof {
            assert(texts(pending@) =~= texts(before).drop_first());
        }
        (StreamState { pending, has_results: state.has_results }, StreamAction::Write(first))
    }
}

/// The streaming writer's decision for one event (see [`stream_transition`]).
pub fn stream_step(state: StreamState, event: StreamEvent) -> (r: (StreamState, StreamAction))
    requires
        event matches StreamEvent::File { file, .. } ==> forall|j: int|
            0 <= j < file.lines@.len() && (#[trigger] file.lines@[j]).ranges@.len() > 0 ==> file.lines@[j].ranges@[0].0 < usize::MAX,
    ensures
        (r.0@, r.1@) == stream_transition(state@, event),
{
    match event {
        StreamEvent::File { file, passes_glob } => {
            if passes_glob {
                let mut pending = state.pending;
                push_file_output(&mut pending, &file);
                next_line(StreamState { pending, has_results: true })
            } else {
                next_line(state)
            }
        },
        StreamEvent::Written(ok) => {
            if ok {
                next_line(state)
            } else {
                let pending: Vec<String> = Vec::new();
                proof {
                    assert(texts(pending@) =~= Seq::<Seq<char>>::empty());
                }
                (StreamState { pending, has_results: state.has_results }, StreamAction::AwaitFile)
            }
        },
        StreamEvent::Finished => {
            let exit = if state.has_results { ExitCode::Success } else { ExitCode::NoResults };
            (state, StreamAction::Exit(exit))
        },
    }
}

} // verus!
