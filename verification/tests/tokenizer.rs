//! Tokenizer behaviour on whole directive strings.

use stock_directive::{Token, TokenKind, Tokenizer};

fn kinds(input: &str) -> Vec<Token> {
    let mut tokenizer = Tokenizer::new(input);
    let mut out = Vec::new();
    loop {
        let t = tokenizer.next();
        let eof = t.is_eof();
        out.push(t);
        if eof {
            return out;
        }
    }
}

#[test]
fn test_simple_command() {
    let mut tokenizer = Tokenizer::new("ma:20");
    assert!(matches!(tokenizer.next().kind, TokenKind::Normal(s) if s == "ma"));
    assert!(matches!(tokenizer.next().kind, TokenKind::Special(s) if s == ":"));
    assert!(matches!(tokenizer.next().kind, TokenKind::Normal(s) if s == "20"));
}

#[test]
fn test_command_with_series() {
    let mut tokenizer = Tokenizer::new("ma:20@close");
    assert!(matches!(tokenizer.next().kind, TokenKind::Normal(s) if s == "ma"));
    assert!(matches!(tokenizer.next().kind, TokenKind::Special(s) if s == ":"));
    assert!(matches!(tokenizer.next().kind, TokenKind::Normal(s) if s == "20"));
    assert!(matches!(tokenizer.next().kind, TokenKind::Special(s) if s == "@"));
    assert!(matches!(tokenizer.next().kind, TokenKind::Normal(s) if s == "close"));
}

#[test]
fn test_operator() {
    let mut tokenizer = Tokenizer::new("a // b");
    assert!(matches!(tokenizer.next().kind, TokenKind::Normal(s) if s == "a"));
    assert!(matches!(tokenizer.next().kind, TokenKind::Special(s) if s == "//"));
    assert!(matches!(tokenizer.next().kind, TokenKind::Normal(s) if s == "b"));
}

#[test]
fn test_tokenize_ends_with_eof() {
    let toks = kinds("ma:20");
    assert_eq!(toks.len(), 4);
    assert!(matches!(&toks[0].kind, TokenKind::Normal(s) if s == "ma"));
    assert!(matches!(&toks[1].kind, TokenKind::Special(s) if s == ":"));
    assert!(matches!(&toks[2].kind, TokenKind::Normal(s) if s == "20"));
    assert!(toks[3].is_eof());
}

#[test]
fn test_operator_run_not_split() {
    // `//` does not end in a unary character, so the run stays whole.
    let toks = kinds("a // b");
    assert_eq!(toks.len(), 4);
    assert!(matches!(&toks[1].kind, TokenKind::Special(s) if s == "//"));
    assert!(toks[3].is_eof());
}

#[test]
fn test_operator_run_split_on_trailing_unary() {
    // `+-` ends in `-`, so the run splits into `+` then `-`.
    let toks = kinds("a+-b");
    assert_eq!(toks.len(), 5);
    assert!(matches!(&toks[0].kind, TokenKind::Normal(s) if s == "a"));
    assert!(matches!(&toks[1].kind, TokenKind::Special(s) if s == "+"));
    assert!(matches!(&toks[2].kind, TokenKind::Special(s) if s == "-"));
    assert!(matches!(&toks[3].kind, TokenKind::Normal(s) if s == "b"));
    assert!(toks[4].is_eof());
}

#[test]
fn test_operator_run_split_ge_minus() {
    let toks = kinds("a>=-b");
    assert!(matches!(&toks[1].kind, TokenKind::Special(s) if s == ">="));
    assert!(matches!(&toks[2].kind, TokenKind::Special(s) if s == "-"));
}

#[test]
fn test_eof_repeats_when_polled_again() {
    let mut tokenizer = Tokenizer::new("x");
    assert!(matches!(tokenizer.next().kind, TokenKind::Normal(s) if s == "x"));
    assert!(tokenizer.next().is_eof());
    assert!(tokenizer.next().is_eof());
}

#[test]
fn test_locations_count_lines_and_columns() {
    let mut tokenizer = Tokenizer::new("ma \n close");
    let t1 = tokenizer.next();
    assert_eq!((t1.loc.line, t1.loc.col), (1, 1));
    let t2 = tokenizer.next();
    assert_eq!((t2.loc.line, t2.loc.col), (2, 2));
    assert!(matches!(t2.kind, TokenKind::Normal(s) if s == "close"));
}

#[test]
fn test_punctuation_stands_alone() {
    let toks = kinds("(a,b):c@d");
    let texts: Vec<Option<&str>> = toks.iter().map(|t| t.value()).collect();
    assert_eq!(
        texts,
        vec![
            Some("("),
            Some("a"),
            Some(","),
            Some("b"),
            Some(")"),
            Some(":"),
            Some("c"),
            Some("@"),
            Some("d"),
            None
        ]
    );
}
