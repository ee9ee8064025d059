//! Compiled regular expressions and the per-line test that rules are built from.

use vstd::prelude::*;

verus! {

#[verifier::external_type_specification]
#[verifier::external_body]
pub struct ExRegex(lazy_regex::regex::Regex);

#[verifier::external_type_specification]
#[verifier::external_body]
pub struct ExRegexError(lazy_regex::regex::Error);

/// Whether the regex engine accepts `pattern` (its syntax and its size limit).
pub uninterp spec fn regex_compiles(pattern: Seq<char>) -> bool;

/// Whether the regex compiled from `pattern` matches somewhere in `text`.
pub uninterp spec fn regex_is_match(pattern: Seq<char>, text: Seq<char>) -> bool;

/// Whether `c` has the Unicode `White_Space` property, the whitespace of `str::trim`.
pub open spec fn is_white_space(c: char) -> bool {
    ('\u{9}' <= c && c <= '\u{d}') || c == ' ' || c == '\u{85}' || c == '\u{a0}' || c
        == '\u{1680}' || ('\u{2000}' <= c && c <= '\u{200a}') || c == '\u{2028}' || c
        == '\u{2029}' || c == '\u{202f}' || c == '\u{205f}' || c == '\u{3000}'
}

/// The text without its leading whitespace.
pub open spec fn trimmed_start(text: Seq<char>) -> Seq<char>
    decreases text.len(),
{
    if text.len() > 0 && is_white_space(text[0]) {
        trimmed_start(text.drop_first())
    } else {
        text
    }
}

/// The text without its trailing whitespace.
pub open spec fn trimmed_end(text: Seq<char>) -> Seq<char>
    decreases text.len(),
{
    if text.len() > 0 && is_white_space(text.last()) {
        trimmed_end(text.drop_last())
    } else {
        text
    }
}

/// The text with its leading and trailing whitespace removed.
pub open spec fn trimmed(text: Seq<char>) -> Seq<char> {
    trimmed_end(trimmed_start(text))
}

/// Relies on `regex::Regex::new`: `Ok` exactly when the engine accepts the pattern.
#[verifier::external_body]
fn compile_regex(pattern: &str) -> (r: Result<lazy_regex::regex::Regex, lazy_regex::regex::Error>)
    ensures
        r is Ok <==> regex_compiles(pattern@),
{
    lazy_regex::regex::Regex::new(pattern)
}

/// Relies on `str::trim`: the slice without leading and trailing whitespace,
/// whitespace being the characters with the Unicode `White_Space` property.
#[verifier::external_body]
fn trim_line<'a>(text: &'a str) -> (r: &'a str)
    ensures
        r@ == trimmed(text@),
{
    text.trim()
}

/// A pattern that the regex engine rejected.
#[derive(Clone, Debug, PartialEq, Eq)]
pub struct RegexError {
    /// The pattern text that was handed to the engine.
    pub pattern: String,
}

/// A regular expression compiled once, together with the text it was compiled from.
///
/// The fields are private and `Matcher::new` is the only way to build one, so
/// `regex` is always the compilation of `pattern`.
#[derive(Debug)]
pub struct Matcher {
    pattern: String,
    regex: lazy_regex::regex::Regex,
}

impl View for Matcher {
    type V = Seq<char>;

    closed spec fn view(&self) -> Seq<char> {
        self.pattern@
    }
}

/// Whether a line, once trimmed, is matched by the regex compiled from `pattern`.
pub open spec fn line_matches(pattern: Seq<char>, line: Seq<char>) -> bool {
    regex_is_match(pattern, trimmed(line))
}

/// Relies on `regex::Regex::is_match`: whether the regex matches anywhere in `text`.
/// `m.regex` was compiled from `m.pattern` (see `Matcher`).
#[verifier::external_body]
fn regex_find(m: &Matcher, text: &str) -> (r: bool)
    ensures
        r == regex_is_match(m@, text@),
{
    m.regex.is_match(text)
}

impl Matcher {
    /// Compiles `pattern`; fails exactly when the regex engine rejects it.
    pub fn new(pattern: &str) -> (r: Result<Matcher, RegexError>)
        ensures
            r is Ok <==> regex_compiles(pattern@),
            r matches Ok(m) ==> m@ == pattern@,
            r matches Err(e) ==> e.pattern@ == pattern@,
    {
        match compile_regex(pattern) {
            Ok(regex) => Ok(Matcher { pattern: pattern.to_owned(), regex }),
            Err(_) => Err(RegexError { pattern: pattern.to_owned() }),
        }
    }

    /// The pattern text this matcher was compiled from.
    pub fn as_str(&self) -> (r: &str)
        ensures
            r@ == self@,
    {
        self.pattern.as_str()
    }

    /// Whether the line, with surrounding whitespace trimmed, is matched.
    pub fn matches_line(&self, line: &str) -> (r: bool)
        ensures
            r == line_matches(self@, line@),
    {
        regex_find(self, trim_line(line))
    }
}

} // verus!
