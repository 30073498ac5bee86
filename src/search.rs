//! Regular-expression search over file names and contents, through the
//! `regex` crate.

use vstd::prelude::*;
use crate::text::{chars_of, push_str_chars, string_of};

verus! {

#[verifier::external_type_specification]
#[verifier::external_body]
pub struct ExRegex(regex::Regex);

/// Whether `regex::Regex::new` accepts the expression `pattern`.
pub uninterp spec fn regex_accepts(pattern: Seq<char>) -> bool;

/// Whether the expression `pattern` matches somewhere in `text`.
pub uninterp spec fn regex_finds(pattern: Seq<char>, text: Seq<char>) -> bool;

/// Relies on `regex::Regex::new`: compiles `pattern` when it is a valid
/// expression, else gives the error's message.
#[verifier::external_body]
fn new_regex(pattern: &str) -> (r: Result<regex::Regex, String>)
    ensures
        r is Ok <==> regex_accepts(pattern@),
{
    regex::Regex::new(pattern).map_err(|e| e.to_string())
}

/// A compiled expression together with the text it was compiled from.
#[derive(Debug)]
pub struct SearchPattern {
    source: String,
    re: regex::Regex,
}

/// Relies on `regex::Regex::is_match`: whether the expression of `p`
/// (compiled from `p`'s source by `SearchPattern::compile`, the only way to
/// build one) matches somewhere in `text`.
#[verifier::external_body]
fn regex_is_match(p: &SearchPattern, text: &str) -> (r: bool)
    ensures
        r == regex_finds(p.source(), text@),
{
    p.re.is_match(text)
}

impl SearchPattern {
    /// The expression's text.
    pub closed spec fn source(&self) -> Seq<char> {
        self.source@
    }

    /// Compiles `pattern`; fails with the compiler's message when it is not
    /// a valid expression.
    pub fn compile(pattern: &str) -> (r: Result<SearchPattern, String>)
        ensures
            r is Ok <==> regex_accepts(pattern@),
            r matches Ok(p) ==> p.source() == pattern@,
    {
        match new_regex(pattern) {
            Ok(re) => Ok(SearchPattern { source: string_of(&chars_of(pattern)), re }),
            Err(e) => Err(e),
        }
    }

    /// Whether the expression matches somewhere in `text`.
    pub fn is_match(&self, text: &str) -> (r: bool)
        ensures
            r == regex_finds(self.source(), text@),
    {
        regex_is_match(self, text)
    }
}

/// The expression the case-insensitive grep searches with: `pattern`, ignoring case.
pub open spec fn case_insensitive(pattern: Seq<char>) -> Seq<char> {
    "(?i)"@ + pattern
}

/// Compiles the case-insensitive grep's expression for `pattern`, which ignores case;
/// the error names the invalid pattern.
pub fn compile_case_insensitive(pattern: &str) -> (r: Result<SearchPattern, String>)
    ensures
        r is Ok <==> regex_accepts(case_insensitive(pattern@)),
        r matches Ok(p) ==> p.source() == case_insensitive(pattern@),
        r matches Err(e) ==> exists|m: Seq<char>| e@ == "Invalid regex pattern: "@ + m,
{
    let mut full: Vec<char> = Vec::new();
    push_str_chars(&mut full, "(?i)");
    push_str_chars(&mut full, pattern);
    let source = string_of(&full);
    match SearchPattern::compile(source.as_str()) {
        Ok(p) => Ok(p),
        Err(e) => {
            let mut m: Vec<char> = Vec::new();
            push_str_chars(&mut m, "Invalid regex pattern: ");
            push_str_chars(&mut m, e.as_str());
            assert(m@ == "Invalid regex pattern: "@ + e@);
            Err(string_of(&m))
        },
    }
}

/// A file counts as found when its name passes the name filter (if any)
/// and its contents match the expression.
pub open spec fn file_found(pattern: Seq<char>, name_filter: Option<Seq<char>>, name: Seq<char>, content: Seq<char>) -> bool {
    (match name_filter { Some(f) => regex_finds(f, name), None => true }) && regex_finds(pattern, content)
}

/// Whether the file `name` with contents `content` is a search hit.
pub fn file_matches(pattern: &SearchPattern, name_filter: Option<&SearchPattern>, name: &str, content: &str) -> (r: bool)
    ensures
        r == file_found(pattern.source(), match name_filter { Some(f) => Some(f.source()), None => None }, name@, content@),
{
    match name_filter {
        Some(f) => {
            if !f.is_match(name) {
                return false;
            }
        },
        None => {},
    }
    pattern.is_match(content)
}


#[verifier::external_type_specification]
#[verifier::external_body]
pub struct ExGlobPattern(glob::Pattern);

/// Whether `glob::Pattern::new` accepts the shell pattern `pattern`.
pub uninterp spec fn glob_accepts(pattern: Seq<char>) -> bool;

/// Whether the shell pattern `pattern` matches the whole of `name`.
pub uninterp spec fn glob_matches(pattern: Seq<char>, name: Seq<char>) -> bool;

/// Relies on `glob::Pattern::new`: compiles `pattern` when it is a valid
/// shell pattern, else gives the error's message.
#[verifier::external_body]
fn new_glob(pattern: &str) -> (r: Result<glob::Pattern, String>)
    ensures
        r is Ok <==> glob_accepts(pattern@),
{
    glob::Pattern::new(pattern).map_err(|e| e.to_string())
}

/// A compiled shell pattern for file names, with its text.
#[derive(Debug)]
pub struct NamePattern {
    source: String,
    pat: glob::Pattern,
}

/// Relies on `glob::Pattern::matches`: whether the pattern of `p` (compiled
/// from `p`'s source by `NamePattern::compile`, the only way to build one)
/// matches all of `name`.
#[verifier::external_body]
fn glob_is_match(p: &NamePattern, name: &str) -> (r: bool)
    ensures
        r == glob_matches(p.source(), name@),
{
    p.pat.matches(name)
}

impl NamePattern {
    /// The pattern's text.
    pub closed spec fn source(&self) -> Seq<char> {
        self.source@
    }

    /// Compiles `pattern`; fails with the compiler's message when it is not
    /// a valid shell pattern.
    pub fn compile(pattern: &str) -> (r: Result<NamePattern, String>)
        ensures
            r is Ok <==> glob_accepts(pattern@),
            r matches Ok(p) ==> p.source() == pattern@,
    {
        match new_glob(pattern) {
            Ok(pat) => Ok(NamePattern { source: string_of(&chars_of(pattern)), pat }),
            Err(e) => Err(e),
        }
    }

    /// Whether the pattern matches all of `name`.
    pub fn matches(&self, name: &str) -> (r: bool)
        ensures
            r == glob_matches(self.source(), name@),
    {
        glob_is_match(self, name)
    }
}

/// A file counts as found by the server's grep when its name matches the
/// shell pattern (if any) and its contents match the expression.
pub open spec fn server_file_found(pattern: Seq<char>, name_filter: Option<Seq<char>>, name: Seq<char>, content: Seq<char>) -> bool {
    (match name_filter { Some(f) => glob_matches(f, name), None => true }) && regex_finds(pattern, content)
}

/// Whether the file `name` with contents `content` is a hit of the server's
/// grep.
pub fn server_file_matches(pattern: &SearchPattern, name_filter: Option<&NamePattern>, name: &str, content: &str) -> (r: bool)
    ensures
        r == server_file_found(pattern.source(), match name_filter { Some(f) => Some(f.source()), None => None }, name@, content@),
{
    match name_filter {
        Some(f) => {
            if !f.matches(name) {
                return false;
            }
        },
        None => {},
    }
    pattern.is_match(content)
}

} // verus!
