use doc_search_dsl::{composed_text, parse, rule, CompileError, ErrorKind, Literal, Matcher, RegexPattern, Rule};
use std::sync::Arc;

fn count(text: &str, lines: &[&str]) -> usize {
    rule(text).unwrap().occurances(lines)
}

fn one(pattern: &str) -> Rule {
    Rule::One(Arc::new(Matcher::new(pattern).unwrap()))
}

fn error_of(text: &str) -> CompileError {
    match rule(text) {
        Ok(_) => panic!("expected an error"),
        Err(e) => e,
    }
}

#[test]
fn anchored_literal_matches_one_line() {
    assert_eq!(count(r#""^ABC$""#, &["ABC", "xyz"]), 1);
}

#[test]
fn sequence_counts_windows_in_order() {
    let lines = ["A", "B", "C"];
    assert_eq!(count(r#"sequence { "A", "B" }"#, &lines), 1);
    assert_eq!(count(r#"sequence { "B", "A" }"#, &lines), 0);
}

#[test]
fn case_insensitive_flag() {
    let lines = ["hi", "HI"];
    assert_eq!(count(r#""hi""#, &lines), 1);
    assert_eq!(count(r#""hi"i"#, &lines), 2);
}

#[test]
fn conjunction_takes_the_minimum() {
    let lines = ["ax", "ay", "b1", "b2", "b3"];
    assert_eq!(count(r#""a""#, &lines), 2);
    assert_eq!(count(r#""b""#, &lines), 3);
    assert_eq!(count(r#"all { "a", "b" }"#, &lines), 2);
    let built = Rule::And(vec![one("a"), one("b")]);
    assert_eq!(built.occurances(&lines), 2);
}

#[test]
fn disjunction_takes_the_sum() {
    let lines = ["ax", "ay", "b1", "b2", "b3"];
    assert_eq!(count(r#"any { "a", "b" }"#, &lines), 5);
    let built = Rule::Or(vec![one("a"), one("b")]);
    assert_eq!(built.occurances(&lines), 5);
}

#[test]
fn disjunction_does_not_deduplicate() {
    assert_eq!(count(r#"any { "a", "a" }"#, &["a"]), 2);
}

#[test]
fn lines_are_trimmed() {
    assert_eq!(count(r#""^ABC$""#, &["  ABC\t", "ABC  x"]), 1);
}

#[test]
fn lines_are_trimmed_of_unicode_whitespace() {
    assert_eq!(count(r#""^ABC$""#, &["\u{3000}ABC\u{a0}", "\u{2003}ABC\u{85}", "\u{200b}ABC"]), 2);
}

#[test]
fn single_sequence_counts_like_a_literal() {
    let lines = ["a", "b", "a", "c"];
    assert_eq!(count(r#"sequence { "a" }"#, &lines), 2);
    assert_eq!(count(r#""a""#, &lines), 2);
}

#[test]
fn literal_count_ignores_line_order() {
    assert_eq!(count(r#""a""#, &["a", "b", "a"]), count(r#""a""#, &["b", "a", "a"]));
}

#[test]
fn empty_document_and_long_sequence_count_zero() {
    let empty: [&str; 0] = [];
    assert_eq!(count(r#""a""#, &empty), 0);
    assert_eq!(count(r#"sequence { "a", "b" }"#, &empty), 0);
    assert_eq!(count(r#"sequence { "a", "a", "a" }"#, &["a", "a"]), 0);
    assert_eq!(count(r#"any { "a" }"#, &empty), 0);
    assert_eq!(count(r#"all { "a" }"#, &empty), 0);
}

#[test]
fn overlapping_windows_each_count() {
    assert_eq!(count(r#"sequence { "a", "a" }"#, &["a", "a", "a"]), 2);
}

#[test]
fn evaluation_is_repeatable() {
    let r = rule(r#"all { "a", any { "b", "c" }, sequence { "a", "b" } }"#).unwrap();
    let lines = ["a", "b", "c", "a", "b"];
    let first = r.occurances(&lines);
    assert_eq!(first, r.occurances(&lines));
    assert_eq!(first, 2);
}

#[test]
fn nested_all_and_trailing_comma() {
    let lines = ["x1", "y1", "y2", "z"];
    assert_eq!(count("all {\n  \"x\",\n  all { \"y\", \"z\", },\n}", &lines), 1);
}

#[test]
fn narrow_literal_syntax_is_rejected() {
    assert_eq!(error_of(r#""\x41""#), CompileError { kind: ErrorKind::InvalidEscape, at: 1 });
    assert_eq!(error_of(r##"any { r#"a"# }"##), CompileError { kind: ErrorKind::ExpectedLiteral, at: 6 });
}

#[test]
fn raw_literal_keeps_backslashes() {
    assert_eq!(count(r#"r"\d+""#, &["a1", "b", "22"]), 2);
}

#[test]
fn escapes_in_quoted_literal() {
    assert_eq!(count(r#""a\\.b""#, &["a.b", "axb"]), 1);
}

#[test]
fn poem_example() {
    let content = [
        "Once upon a midnight dreary, while I pondered, weak and weary,",
        "Over many a quaint and curious volume of forgotten lore—",
        "While I nodded, nearly napping, suddenly there came a tapping,",
        "As of some one gently rapping, rapping at my chamber door.",
        "''Tis some visitor,' I muttered, 'tapping at my chamber door—",
        "Only this and nothing more.'",
    ];
    assert_eq!(count(r#"all { "nodded", "WHILE", "nothing" }"#, &content), 0);
    assert_eq!(count(r#"all { "nodded", "WHILE"i, "nothing" }"#, &content), 1);
}

#[test]
fn error_expected_literal() {
    assert_eq!(error_of(r#"any { all { "a" } }"#), CompileError { kind: ErrorKind::ExpectedLiteral, at: 6 });
    assert_eq!(error_of(""), CompileError { kind: ErrorKind::ExpectedLiteral, at: 0 });
}

#[test]
fn error_unknown_keyword() {
    assert_eq!(error_of(r#"none { "a" }"#), CompileError { kind: ErrorKind::UnknownKeyword, at: 0 });
}

#[test]
fn error_seq_is_not_a_keyword() {
    assert_eq!(error_of(r#"seq { "a" }"#), CompileError { kind: ErrorKind::UnknownKeyword, at: 0 });
    assert_eq!(error_of(r#"ALL { "a" }"#), CompileError { kind: ErrorKind::UnknownKeyword, at: 0 });
}

#[test]
fn error_expected_open_brace() {
    assert_eq!(error_of(r#"all "a""#), CompileError { kind: ErrorKind::ExpectedOpenBrace, at: 4 });
}

#[test]
fn error_expected_comma() {
    assert_eq!(
        error_of(r#"all { "a" "b" }"#),
        CompileError { kind: ErrorKind::ExpectedCommaOrCloseBrace, at: 10 }
    );
}

#[test]
fn error_empty_list() {
    assert_eq!(error_of("any { }"), CompileError { kind: ErrorKind::EmptyList, at: 6 });
    assert_eq!(error_of("all {}"), CompileError { kind: ErrorKind::EmptyList, at: 5 });
}

#[test]
fn error_unterminated_string() {
    assert_eq!(error_of(r#""abc"#), CompileError { kind: ErrorKind::UnterminatedString, at: 0 });
}

#[test]
fn error_invalid_escape() {
    assert_eq!(error_of(r#""\d""#), CompileError { kind: ErrorKind::InvalidEscape, at: 1 });
}

#[test]
fn error_trailing_input() {
    assert_eq!(error_of(r#""a" "b""#), CompileError { kind: ErrorKind::TrailingInput, at: 4 });
}

#[test]
fn error_invalid_regex() {
    assert_eq!(error_of(r#""a(""#), CompileError { kind: ErrorKind::InvalidRegex, at: 0 });
    assert_eq!(error_of(r#"all { "ok", "(" }"#), CompileError { kind: ErrorKind::InvalidRegex, at: 12 });
    assert_eq!(error_of(r#""a"q"#), CompileError { kind: ErrorKind::InvalidRegex, at: 0 });
}

#[test]
fn flags_compose_into_inline_group() {
    let lit = Literal { pattern: "hi".to_string(), flags: "im".to_string(), at: 0 };
    assert_eq!(composed_text(&lit), "(?im)hi");
    let bare = Literal { pattern: "hi".to_string(), flags: String::new(), at: 0 };
    assert_eq!(composed_text(&bare), "hi");
}

#[test]
fn parse_builds_the_tree() {
    match parse(r#"all { "a"i, any { "b", "c" }, sequence { "d" } }"#).unwrap() {
        RegexPattern::All(children) => {
            assert_eq!(children.len(), 3);
            match &children[0] {
                RegexPattern::One(l) => {
                    assert_eq!(l.pattern, "a");
                    assert_eq!(l.flags, "i");
                    assert_eq!(l.at, 6);
                }
                _ => panic!("expected a literal"),
            }
            assert!(matches!(&children[1], RegexPattern::Any(ls) if ls.len() == 2));
            assert!(matches!(&children[2], RegexPattern::Sequence(ls) if ls.len() == 1));
        }
        _ => panic!("expected all"),
    }
}

#[test]
fn matcher_reports_its_pattern() {
    let m = Matcher::new("^x+$").unwrap();
    assert_eq!(m.as_str(), "^x+$");
    assert!(m.matches_line("  xxx "));
    assert!(!m.matches_line("xy"));
    assert!(Matcher::new("(").is_err());
}

#[test]
fn weight_counts_leaves() {
    assert_eq!(rule(r#""a""#).unwrap().checked_weight(), Some(1));
    assert_eq!(rule(r#"sequence { "a", "b", "c" }"#).unwrap().checked_weight(), Some(1));
    assert_eq!(rule(r#"all { "a", any { "b", "c" }, sequence { "a", "b" } }"#).unwrap().checked_weight(), Some(4));
}
