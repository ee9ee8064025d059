//! The surface syntax of rules and its parser.
//!
//! A rule is written as one of:
//! - a string literal, `"text"` or raw, `r"text"`, optionally followed by a
//!   flag suffix such as `i` or `im`;
//! - `any { lit, lit, ... }`, a disjunction of string literals;
//! - `sequence { lit, lit, ... }`, consecutive lines;
//! - `all { rule, rule, ... }`, a conjunction of nested rules.
//!
//! Keywords are case-sensitive; any other word is an error. Lists hold at
//! least one item and may end with a comma. Blanks (space, tab, newline,
//! carriage return) may stand between tokens.
//!
//! A quoted literal knows the escapes `\n \t \r \0 \\ \" \'` and no others
//! (no `\x..`, `\u{..}` or escaped line break); a raw literal holds its text
//! up to the next quote as it stands, and takes no `#` delimiters
//! (`r#"..."#` is not a literal). Write a regex's own backslashes in a raw
//! literal or doubled in a quoted one.

use vstd::prelude::*;
use vstd::std_specs::iter::IteratorSpec;

verus! {

/// What went wrong while reading or compiling a rule.
#[derive(Clone, Copy, Debug, PartialEq, Eq, Structural)]
pub enum ErrorKind {
    /// A string literal (or, where a rule may stand, a keyword) was expected.
    ExpectedLiteral,
    /// A word other than `any`, `all` or `sequence`.
    UnknownKeyword,
    /// A keyword not followed by `{`.
    ExpectedOpenBrace,
    /// An item of a list not followed by `,` or `}`.
    ExpectedCommaOrCloseBrace,
    /// A list with no items.
    EmptyList,
    /// A string literal with no closing quote.
    UnterminatedString,
    /// A backslash followed by a character that is not an escape.
    InvalidEscape,
    /// Text after a complete rule.
    TrailingInput,
    /// A literal whose pattern, with its flags, the regex engine rejects.
    InvalidRegex,
}

/// An error with the character offset in the source where it was found.
#[derive(Clone, Copy, Debug, PartialEq, Eq, Structural)]
pub struct CompileError {
    pub kind: ErrorKind,
    pub at: usize,
}

/// A string literal as written: its text, its flag suffix and its offset.
pub struct LiteralSyntax {
    pub pattern: Seq<char>,
    pub flags: Seq<char>,
    pub at: int,
}

/// A parsed rule.
pub enum Syntax {
    One(LiteralSyntax),
    Sequence(Seq<LiteralSyntax>),
    Any(Seq<LiteralSyntax>),
    All(Seq<Syntax>),
}

/// A string literal of a parsed rule.
#[derive(Debug)]
pub struct Literal {
    /// The text between the quotes, escapes resolved.
    pub pattern: String,
    /// The suffix after the closing quote (empty if none).
    pub flags: String,
    /// The offset of the literal's first character.
    pub at: usize,
}

impl View for Literal {
    type V = LiteralSyntax;

    open spec fn view(&self) -> LiteralSyntax {
        LiteralSyntax { pattern: self.pattern@, flags: self.flags@, at: self.at as int }
    }
}

/// A parsed rule, before its regexes are compiled.
#[derive(Debug)]
pub enum RegexPattern {
    One(Literal),
    Sequence(Vec<Literal>),
    Any(Vec<Literal>),
    All(Vec<RegexPattern>),
}

pub open spec fn literals_view(ls: Seq<Literal>) -> Seq<LiteralSyntax> {
    ls.map_values(|l: Literal| l@)
}

/// The parsed rule as a value of `Syntax`.
pub open spec fn syntax_of(p: RegexPattern) -> Syntax
    decreases p, 0int,
{
    match p {
        RegexPattern::One(l) => Syntax::One(l@),
        RegexPattern::Sequence(ls) => Syntax::Sequence(literals_view(ls@)),
        RegexPattern::Any(ls) => Syntax::Any(literals_view(ls@)),
        RegexPattern::All(ps) => Syntax::All(syntaxes_of(ps@)),
    }
}

pub open spec fn syntaxes_of(ps: Seq<RegexPattern>) -> Seq<Syntax>
    decreases ps, 1int,
{
    if ps.len() == 0 {
        seq![]
    } else {
        syntaxes_of(ps.drop_last()).push(syntax_of(ps.last()))
    }
}

impl View for RegexPattern {
    type V = Syntax;

    open spec fn view(&self) -> Syntax {
        syntax_of(*self)
    }
}

/// Every list in the parsed rule has at least one item.
pub open spec fn pattern_wf(p: RegexPattern) -> bool
    decreases p,
{
    match p {
        RegexPattern::One(_) => true,
        RegexPattern::Sequence(ls) => ls.len() > 0,
        RegexPattern::Any(ls) => ls.len() > 0,
        RegexPattern::All(ps) => ps.len() > 0 && forall|i: int|
            0 <= i < ps.len() ==> pattern_wf(#[trigger] ps@[i]),
    }
}

pub open spec fn is_blank(c: char) -> bool {
    c == ' ' || c == '\t' || c == '\n' || c == '\r'
}

pub open spec fn is_ident_start(c: char) -> bool {
    ('a' <= c && c <= 'z') || ('A' <= c && c <= 'Z') || c == '_'
}

pub open spec fn is_ident_char(c: char) -> bool {
    is_ident_start(c) || ('0' <= c && c <= '9')
}

/// The first offset at or after `i` that is not a blank.
pub open spec fn skip_blanks(s: Seq<char>, i: int) -> int
    decreases s.len() - i,
{
    if 0 <= i < s.len() && is_blank(s[i]) {
        skip_blanks(s, i + 1)
    } else {
        i
    }
}

/// The first offset at or after `i` that does not continue an identifier.
pub open spec fn ident_end(s: Seq<char>, i: int) -> int
    decreases s.len() - i,
{
    if 0 <= i < s.len() && is_ident_char(s[i]) {
        ident_end(s, i + 1)
    } else {
        i
    }
}

/// The first quote at or after `i`, or the end of the text.
pub open spec fn quote_at_or_after(s: Seq<char>, i: int) -> int
    decreases s.len() - i,
{
    if 0 <= i < s.len() && s[i] != '"' {
        quote_at_or_after(s, i + 1)
    } else {
        i
    }
}

pub proof fn lemma_scans_advance(s: Seq<char>, i: int)
    requires
        0 <= i <= s.len(),
    ensures
        i <= skip_blanks(s, i) <= s.len(),
        i <= ident_end(s, i) <= s.len(),
        i <= quote_at_or_after(s, i) <= s.len(),
    decreases s.len() - i,
{
    if i < s.len() {
        lemma_scans_advance(s, i + 1);
    }
}

/// A raw literal `r"..."` starts at `i`.
pub open spec fn starts_raw(s: Seq<char>, i: int) -> bool {
    0 <= i && i + 1 < s.len() && s[i] == 'r' && s[i + 1] == '"'
}

/// A string literal starts at `i`.
pub open spec fn starts_literal(s: Seq<char>, i: int) -> bool {
    (0 <= i < s.len() && s[i] == '"') || starts_raw(s, i)
}

/// The character that `\c` stands for.
pub open spec fn escaped(c: char) -> Option<char> {
    if c == 'n' {
        Some('\n')
    } else if c == 't' {
        Some('\t')
    } else if c == 'r' {
        Some('\r')
    } else if c == '0' {
        Some('\0')
    } else if c == '\\' || c == '"' || c == '\'' {
        Some(c)
    } else {
        None
    }
}

/// The rest of a quoted literal from `i`, after the text `acc` read so far:
/// the whole text and the offset after the closing quote. `start` is the
/// offset of the opening quote.
pub open spec fn quoted_body(s: Seq<char>, i: int, acc: Seq<char>, start: int) -> Result<
    (Seq<char>, int),
    (ErrorKind, int),
>
    decreases s.len() - i,
{
    if i < 0 || i >= s.len() {
        Err((ErrorKind::UnterminatedString, start))
    } else if s[i] == '"' {
        Ok((acc, i + 1))
    } else if s[i] == '\\' {
        if i + 1 >= s.len() {
            Err((ErrorKind::UnterminatedString, start))
        } else {
            match escaped(s[i + 1]) {
                Some(c) => quoted_body(s, i + 2, acc.push(c), start),
                None => Err((ErrorKind::InvalidEscape, i)),
            }
        }
    } else {
        quoted_body(s, i + 1, acc.push(s[i]), start)
    }
}

/// The end of a flag suffix that starts at `e` (`e` itself if there is none).
pub open spec fn suffix_end(s: Seq<char>, e: int) -> int {
    if 0 <= e < s.len() && is_ident_start(s[e]) {
        ident_end(s, e)
    } else {
        e
    }
}

/// The literal that starts at `i`, and the offset after it.
pub open spec fn parse_literal(s: Seq<char>, i: int) -> Result<(LiteralSyntax, int), (ErrorKind, int)> {
    let body = if starts_raw(s, i) {
        let q = quote_at_or_after(s, i + 2);
        if q < s.len() {
            Ok((s.subrange(i + 2, q), q + 1))
        } else {
            Err((ErrorKind::UnterminatedString, i))
        }
    } else if starts_literal(s, i) {
        quoted_body(s, i + 1, seq![], i)
    } else {
        Err((ErrorKind::ExpectedLiteral, i))
    };
    match body {
        Ok((text, e)) => {
            let f = suffix_end(s, e);
            Ok((LiteralSyntax { pattern: text, flags: s.subrange(e, f), at: i }, f))
        },
        Err(err) => Err(err),
    }
}

/// The items of a list of literals from `p` to its closing brace, after the
/// items `acc` read so far; and the offset after the brace.
///
/// An item always ends after `p`, so the test `p < r` never fails; it is
/// written out to show that the recursion ends.
pub open spec fn parse_literal_list(s: Seq<char>, p: int, acc: Seq<LiteralSyntax>) -> Result<
    (Seq<LiteralSyntax>, int),
    (ErrorKind, int),
>
    decreases s.len() - p,
{
    let q = skip_blanks(s, p);
    if 0 <= q < s.len() && s[q] == '}' {
        if acc.len() == 0 {
            Err((ErrorKind::EmptyList, q))
        } else {
            Ok((acc, q + 1))
        }
    } else {
        match parse_literal(s, q) {
            Err(err) => Err(err),
            Ok((l, e)) => {
                let r = skip_blanks(s, e);
                if 0 <= r < s.len() && s[r] == '}' {
                    Ok((acc.push(l), r + 1))
                } else if 0 <= r < s.len() && s[r] == ',' && p < r {
                    parse_literal_list(s, r + 1, acc.push(l))
                } else {
                    Err((ErrorKind::ExpectedCommaOrCloseBrace, r))
                }
            },
        }
    }
}

pub open spec fn is_any(w: Seq<char>) -> bool {
    w == seq!['a', 'n', 'y']
}

pub open spec fn is_all(w: Seq<char>) -> bool {
    w == seq!['a', 'l', 'l']
}

pub open spec fn is_sequence(w: Seq<char>) -> bool {
    w == seq!['s', 'e', 'q', 'u', 'e', 'n', 'c', 'e']
}

/// The rule that starts at or after `i` (after blanks), and the offset after it.
pub open spec fn parse_expr(s: Seq<char>, i: int) -> Result<(Syntax, int), (ErrorKind, int)>
    decreases s.len() - i, 0int,
{
    let j = skip_blanks(s, i);
    if starts_literal(s, j) {
        match parse_literal(s, j) {
            Ok((l, e)) => Ok((Syntax::One(l), e)),
            Err(err) => Err(err),
        }
    } else if 0 <= j < s.len() && is_ident_start(s[j]) {
        let k = ident_end(s, j);
        let w = s.subrange(j, k);
        let b = skip_blanks(s, k);
        if !(is_any(w) || is_all(w) || is_sequence(w)) {
            Err((ErrorKind::UnknownKeyword, j))
        } else if !(0 <= b < s.len() && s[b] == '{') {
            Err((ErrorKind::ExpectedOpenBrace, b))
        } else if is_all(w) {
            proof {
                lemma_scans_advance(s, i);
                lemma_scans_advance(s, j);
                lemma_scans_advance(s, k);
            }
            match parse_expr_list(s, b + 1, seq![]) {
                Ok((xs, e)) => Ok((Syntax::All(xs), e)),
                Err(err) => Err(err),
            }
        } else {
            match parse_literal_list(s, b + 1, seq![]) {
                Ok((ls, e)) => if is_any(w) {
                    Ok((Syntax::Any(ls), e))
                } else {
                    Ok((Syntax::Sequence(ls), e))
                },
                Err(err) => Err(err),
            }
        }
    } else {
        Err((ErrorKind::ExpectedLiteral, j))
    }
}

/// The items of a list of rules from `p` to its closing brace, after the items
/// `acc` read so far; and the offset after the brace.
///
/// As in `parse_literal_list`, the tests `p < r` and on the range of `p` never
/// fail on a call from `parse_rule`; they show that the recursion ends.
pub open spec fn parse_expr_list(s: Seq<char>, p: int, acc: Seq<Syntax>) -> Result<
    (Seq<Syntax>, int),
    (ErrorKind, int),
>
    decreases s.len() - p, 1int,
{
    let q = skip_blanks(s, p);
    if 0 <= q < s.len() && s[q] == '}' {
        if acc.len() == 0 {
            Err((ErrorKind::EmptyList, q))
        } else {
            Ok((acc, q + 1))
        }
    } else if p < 0 || p > s.len() {
        Err((ErrorKind::ExpectedLiteral, p))
    } else {
        proof {
            lemma_scans_advance(s, p);
        }
        match parse_expr(s, q) {
            Err(err) => Err(err),
            Ok((x, e)) => {
                let r = skip_blanks(s, e);
                if 0 <= r < s.len() && s[r] == '}' {
                    Ok((acc.push(x), r + 1))
                } else if 0 <= r < s.len() && s[r] == ',' && p < r {
                    parse_expr_list(s, r + 1, acc.push(x))
                } else {
                    Err((ErrorKind::ExpectedCommaOrCloseBrace, r))
                }
            },
        }
    }
}

/// The rule that the whole text spells.
pub open spec fn parse_rule(s: Seq<char>) -> Result<Syntax, (ErrorKind, int)> {
    match parse_expr(s, 0) {
        Ok((x, e)) => {
            let t = skip_blanks(s, e);
            if t < s.len() {
                Err((ErrorKind::TrailingInput, t))
            } else {
                Ok(x)
            }
        },
        Err(err) => Err(err),
    }
}


/// The characters of the text, in order.
pub(crate) fn chars_of(text: &str) -> (r: Vec<char>)
    ensures
        r@ == text@,
{
    let mut it = text.chars();
    let mut r: Vec<char> = Vec::new();
    proof {
        assert(it.remaining() == text@);
    }
    loop
        invariant
            r@ + it.remaining() == text@,
            it.decrease() is Some,
        decreases it.decrease()->0,
    {
        let ghost before = it.remaining();
        match it.next() {
            Some(c) => {
                r.push(c);
                assert(r@ + it.remaining() =~= text@) by {
                    assert(before == seq![c] + it.remaining());
                }
            },
            None => {
                assert(it.remaining().len() == 0);
                assert(r@ =~= text@);
                return r;
            },
        }
    }
}

/// Relies on collecting characters into a `String`: the same characters in order.
#[verifier::external_body]
pub(crate) fn string_of(cs: &Vec<char>) -> (r: String)
    ensures
        r@ == cs@,
{
    cs.iter().collect()
}

/// Whether a result of the parser is the given spec result.
pub open spec fn agrees<A: View>(r: Result<(A, usize), CompileError>, v: Result<(A::V, int), (ErrorKind, int)>) -> bool {
    match r {
        Ok((a, e)) => v == Ok::<(A::V, int), (ErrorKind, int)>((a@, e as int)),
        Err(err) => v == Err::<(A::V, int), (ErrorKind, int)>((err.kind, err.at as int)),
    }
}

fn blank(c: char) -> (r: bool)
    ensures
        r == is_blank(c),
{
    c == ' ' || c == '\t' || c == '\n' || c == '\r'
}

fn ident_start(c: char) -> (r: bool)
    ensures
        r == is_ident_start(c),
{
    ('a' <= c && c <= 'z') || ('A' <= c && c <= 'Z') || c == '_'
}

fn ident_char(c: char) -> (r: bool)
    ensures
        r == is_ident_char(c),
{
    ident_start(c) || ('0' <= c && c <= '9')
}

fn skip_blanks_from(s: &Vec<char>, i: usize) -> (r: usize)
    requires
        i <= s@.len(),
    ensures
        r == skip_blanks(s@, i as int),
        i <= r <= s@.len(),
{
    let mut j = i;
    while j < s.len() && blank(s[j])
        invariant
            i <= j <= s@.len(),
            skip_blanks(s@, j as int) == skip_blanks(s@, i as int),
        decreases s@.len() - j,
    {
        j += 1;
    }
    j
}

fn ident_end_from(s: &Vec<char>, i: usize) -> (r: usize)
    requires
        i <= s@.len(),
    ensures
        r == ident_end(s@, i as int),
        i <= r <= s@.len(),
{
    let mut j = i;
    while j < s.len() && ident_char(s[j])
        invariant
            i <= j <= s@.len(),
            ident_end(s@, j as int) == ident_end(s@, i as int),
        decreases s@.len() - j,
    {
        j += 1;
    }
    j
}

fn quote_from(s: &Vec<char>, i: usize) -> (r: usize)
    requires
        i <= s@.len(),
    ensures
        r == quote_at_or_after(s@, i as int),
        i <= r <= s@.len(),
{
    let mut j = i;
    while j < s.len() && s[j] != '"'
        invariant
            i <= j <= s@.len(),
            quote_at_or_after(s@, j as int) == quote_at_or_after(s@, i as int),
        decreases s@.len() - j,
    {
        j += 1;
    }
    j
}

/// The characters of `s` from `a` to `b`.
fn copy_range(s: &Vec<char>, a: usize, b: usize) -> (r: Vec<char>)
    requires
        a <= b <= s@.len(),
    ensures
        r@ == s@.subrange(a as int, b as int),
{
    let mut r: Vec<char> = Vec::new();
    let mut j = a;
    while j < b
        invariant
            a <= j <= b <= s@.len(),
            r@ == s@.subrange(a as int, j as int),
        decreases b - j,
    {
        r.push(s[j]);
        j += 1;
    }
    r
}

fn escape_of(c: char) -> (r: Option<char>)
    ensures
        r == escaped(c),
{
    if c == 'n' {
        Some('\n')
    } else if c == 't' {
        Some('\t')
    } else if c == 'r' {
        Some('\r')
    } else if c == '0' {
        Some('\0')
    } else if c == '\\' || c == '"' || c == '\'' {
        Some(c)
    } else {
        None
    }
}

/// Reads a quoted literal's text from `i` to its closing quote.
fn read_quoted(s: &Vec<char>, i: usize, start: usize) -> (r: Result<(Vec<char>, usize), CompileError>)
    requires
        i <= s@.len(),
    ensures
        agrees(r, quoted_body(s@, i as int, seq![], start as int)),
        r matches Ok((_, e)) ==> i < e <= s@.len(),
{
    let n = s.len();
    let mut acc: Vec<char> = Vec::new();
    let mut j = i;
    while j < n
        invariant
            n == s@.len(),
            i <= j <= n,
            quoted_body(s@, j as int, acc@, start as int) == quoted_body(s@, i as int, seq![], start as int),
        decreases n - j,
    {
        let c = s[j];
        if c == '"' {
            return Ok((acc, j + 1));
        } else if c == '\\' {
            if j + 1 >= n {
                return Err(CompileError { kind: ErrorKind::UnterminatedString, at: start });
            }
            match escape_of(s[j + 1]) {
                Some(e) => {
                    acc.push(e);
                    j += 2;
                },
                None => {
                    return Err(CompileError { kind: ErrorKind::InvalidEscape, at: j });
                },
            }
        } else {
            acc.push(c);
            j += 1;
        }
    }
    Err(CompileError { kind: ErrorKind::UnterminatedString, at: start })
}

/// Reads the literal that starts at `i`.
fn read_literal(s: &Vec<char>, i: usize) -> (r: Result<(Literal, usize), CompileError>)
    requires
        i <= s@.len(),
    ensures
        agrees(r, parse_literal(s@, i as int)),
        r matches Ok((_, e)) ==> i < e <= s@.len(),
{
    let n = s.len();
    let body = if n - i > 1 && s[i] == 'r' && s[i + 1] == '"' {
        let q = quote_from(s, i + 2);
        if q < n {
            Ok((copy_range(s, i + 2, q), q + 1))
        } else {
            Err(CompileError { kind: ErrorKind::UnterminatedString, at: i })
        }
    } else if i < n && s[i] == '"' {
        read_quoted(s, i + 1, i)
    } else {
        Err(CompileError { kind: ErrorKind::ExpectedLiteral, at: i })
    };
    match body {
        Ok((text, e)) => {
            let f = if e < n && ident_start(s[e]) {
                ident_end_from(s, e)
            } else {
                e
            };
            let flags = copy_range(s, e, f);
            let lit = Literal { pattern: string_of(&text), flags: string_of(&flags), at: i };
            Ok((lit, f))
        },
        Err(err) => Err(err),
    }
}

/// Reads a list of literals from `p0` to its closing brace.
fn read_literal_list(s: &Vec<char>, p0: usize) -> (r: Result<(Vec<Literal>, usize), CompileError>)
    requires
        p0 <= s@.len(),
    ensures
        match r {
            Ok((ls, e)) => {
                &&& parse_literal_list(s@, p0 as int, seq![]) == Ok::<(Seq<LiteralSyntax>, int), (ErrorKind, int)>((literals_view(ls@), e as int))
                &&& ls@.len() > 0
                &&& e <= s@.len()
            },
            Err(err) => parse_literal_list(s@, p0 as int, seq![]) == Err::<(Seq<LiteralSyntax>, int), (ErrorKind, int)>((err.kind, err.at as int)),
        },
{
    let n = s.len();
    let mut acc: Vec<Literal> = Vec::new();
    let mut p = p0;
    assert(literals_view(acc@) =~= seq![]);
    loop
        invariant
            n == s@.len(),
            p <= n,
            parse_literal_list(s@, p as int, literals_view(acc@)) == parse_literal_list(s@, p0 as int, seq![]),
        decreases n - p,
    {
        let q = skip_blanks_from(s, p);
        if q < n && s[q] == '}' {
            if acc.len() == 0 {
                return Err(CompileError { kind: ErrorKind::EmptyList, at: q });
            }
            return Ok((acc, q + 1));
        }
        match read_literal(s, q) {
            Err(err) => {
                return Err(err);
            },
            Ok((l, e)) => {
                let r = skip_blanks_from(s, e);
                let ghost before = acc@;
                if r < n && s[r] == '}' {
                    acc.push(l);
                    proof {
                        assert(literals_view(acc@) =~= literals_view(before).push(l@));
                    }
                    return Ok((acc, r + 1));
                } else if r < n && s[r] == ',' && p < r {
                    acc.push(l);
                    proof {
                        assert(literals_view(acc@) =~= literals_view(before).push(l@));
                    }
                    p = r + 1;
                } else {
                    return Err(CompileError { kind: ErrorKind::ExpectedCommaOrCloseBrace, at: r });
                }
            },
        }
    }
}


/// The views of a list of parsed rules, one by one.
pub proof fn lemma_syntaxes_of(ps: Seq<RegexPattern>)
    ensures
        syntaxes_of(ps).len() == ps.len(),
        forall|i: int| 0 <= i < ps.len() ==> #[trigger] syntaxes_of(ps)[i] == syntax_of(ps[i]),
    decreases ps.len(),
{
    if ps.len() > 0 {
        lemma_syntaxes_of(ps.drop_last());
    }
}

/// Whether the characters of `s` from `j` to `k` are the word `w`.
fn word_is(s: &Vec<char>, j: usize, k: usize, w: &Vec<char>) -> (r: bool)
    requires
        j <= k <= s@.len(),
    ensures
        r == (s@.subrange(j as int, k as int) == w@),
{
    if k - j != w.len() {
        proof {
            assert(s@.subrange(j as int, k as int).len() != w@.len());
        }
        return false;
    }
    let mut t: usize = 0;
    while t < w.len()
        invariant
            k - j == w@.len(),
            j <= k <= s@.len(),
            t <= w@.len(),
            forall|u: int| 0 <= u < t ==> s@[j + u] == w@[u],
        decreases w@.len() - t,
    {
        if s[j + t] != w[t] {
            proof {
                assert(s@.subrange(j as int, k as int)[t as int] != w@[t as int]);
            }
            return false;
        }
        t += 1;
    }
    proof {
        assert(s@.subrange(j as int, k as int) =~= w@);
    }
    true
}

/// Reads the rule that starts at or after `i`.
fn read_expr(s: &Vec<char>, i: usize) -> (r: Result<(RegexPattern, usize), CompileError>)
    requires
        i <= s@.len(),
    ensures
        agrees(r, parse_expr(s@, i as int)),
        r matches Ok((p, e)) ==> e <= s@.len() && pattern_wf(p),
    decreases s@.len() - i, 0int,
{
    let n = s.len();
    let j = skip_blanks_from(s, i);
    if (j < n && s[j] == '"') || (n - j > 1 && s[j] == 'r' && s[j + 1] == '"') {
        match read_literal(s, j) {
            Ok((l, e)) => Ok((RegexPattern::One(l), e)),
            Err(err) => Err(err),
        }
    } else if j < n && ident_start(s[j]) {
        let k = ident_end_from(s, j);
        let b = skip_blanks_from(s, k);
        let any = word_is(s, j, k, &vec!['a', 'n', 'y']);
        let all = word_is(s, j, k, &vec!['a', 'l', 'l']);
        let sequence = word_is(s, j, k, &vec!['s', 'e', 'q', 'u', 'e', 'n', 'c', 'e']);
        if !(any || all || sequence) {
            Err(CompileError { kind: ErrorKind::UnknownKeyword, at: j })
        } else if !(b < n && s[b] == '{') {
            Err(CompileError { kind: ErrorKind::ExpectedOpenBrace, at: b })
        } else if all {
            match read_expr_list(s, b + 1) {
                Ok((ps, e)) => {
                    Ok((RegexPattern::All(ps), e))
                },
                Err(err) => Err(err),
            }
        } else {
            match read_literal_list(s, b + 1) {
                Ok((ls, e)) => {
                    if any {
                        Ok((RegexPattern::Any(ls), e))
                    } else {
                        Ok((RegexPattern::Sequence(ls), e))
                    }
                },
                Err(err) => Err(err),
            }
        }
    } else {
        Err(CompileError { kind: ErrorKind::ExpectedLiteral, at: j })
    }
}

/// Reads a list of rules from `p0` to its closing brace.
fn read_expr_list(s: &Vec<char>, p0: usize) -> (r: Result<(Vec<RegexPattern>, usize), CompileError>)
    requires
        p0 <= s@.len(),
    ensures
        match r {
            Ok((ps, e)) => {
                &&& parse_expr_list(s@, p0 as int, seq![]) == Ok::<(Seq<Syntax>, int), (ErrorKind, int)>((syntaxes_of(ps@), e as int))
                &&& ps@.len() > 0
                &&& forall|k: int| 0 <= k < ps@.len() ==> pattern_wf(#[trigger] ps@[k])
                &&& e <= s@.len()
            },
            Err(err) => parse_expr_list(s@, p0 as int, seq![]) == Err::<(Seq<Syntax>, int), (ErrorKind, int)>((err.kind, err.at as int)),
        },
    decreases s@.len() - p0, 1int,
{
    let n = s.len();
    let mut acc: Vec<RegexPattern> = Vec::new();
    let mut p = p0;
    assert(syntaxes_of(acc@) =~= seq![]);
    loop
        invariant
            n == s@.len(),
            p0 <= p <= n,
            parse_expr_list(s@, p as int, syntaxes_of(acc@)) == parse_expr_list(s@, p0 as int, seq![]),
            forall|k: int| 0 <= k < acc@.len() ==> pattern_wf(#[trigger] acc@[k]),
        decreases n - p,
    {
        let q = skip_blanks_from(s, p);
        if q < n && s[q] == '}' {
            if acc.len() == 0 {
                return Err(CompileError { kind: ErrorKind::EmptyList, at: q });
            }
            return Ok((acc, q + 1));
        }
        match read_expr(s, q) {
            Err(err) => {
                return Err(err);
            },
            Ok((x, e)) => {
                let r = skip_blanks_from(s, e);
                let ghost before = acc@;
                let ghost xv = x@;
                if r < n && s[r] == '}' {
                    acc.push(x);
                    proof {
                        assert(acc@.drop_last() =~= before);
                    }
                    return Ok((acc, r + 1));
                } else if r < n && s[r] == ',' && p < r {
                    acc.push(x);
                    proof {
                        assert(acc@.drop_last() =~= before);
                    }
                    p = r + 1;
                } else {
                    return Err(CompileError { kind: ErrorKind::ExpectedCommaOrCloseBrace, at: r });
                }
            },
        }
    }
}

/// Parses the text of a rule; the result is exactly what the grammar
/// (`parse_rule`) gives, and every list of a parsed rule has an item.
pub fn parse(text: &str) -> (r: Result<RegexPattern, CompileError>)
    ensures
        match parse_rule(text@) {
            Ok(x) => r matches Ok(p) && p@ == x && pattern_wf(p),
            Err((kind, at)) => r == Err::<RegexPattern, CompileError>(CompileError { kind, at: at as usize }),
        },
{
    let s = chars_of(text);
    let n = s.len();
    match read_expr(&s, 0) {
        Ok((p, e)) => {
            let t = skip_blanks_from(&s, e);
            if t < n {
                Err(CompileError { kind: ErrorKind::TrailingInput, at: t })
            } else {
                Ok(p)
            }
        },
        Err(err) => Err(err),
    }
}

} // verus!
