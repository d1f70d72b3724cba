//! Canonical rendering and the parse–stringify round trip.

use stock_directive::{directive_stringify, ExpressionNode, Parser};

fn parse(input: &str) -> ExpressionNode {
    let mut parser = Parser::new(input);
    parser.parse().unwrap()
}

#[test]
fn test_stringify_command() {
    assert_eq!(parse("ma:20@close").stringify(), "ma:20@close");
}

#[test]
fn test_stringify_command_with_sub() {
    assert_eq!(parse("kdj.k:9,3@high,low,close").stringify(), "kdj.k:9,3@high,low,close");
}

#[test]
fn test_stringify_drops_whitespace() {
    assert_eq!(parse("close > ma : 20").stringify(), "close>ma:20");
}

#[test]
fn test_stringify_keeps_empty_slots() {
    assert_eq!(parse("ma:,20@,close").stringify(), "ma:,20@,close");
}

#[test]
fn test_stringify_folded_negative_scalar() {
    // A parsed `-5` and a parsed `- 5` both render as `-5`.
    assert_eq!(parse("-5").stringify(), "-5");
    assert_eq!(parse("- 5").stringify(), "-5");
}

#[test]
fn test_stringify_unary() {
    assert_eq!(parse("-close").stringify(), "-close");
    assert_eq!(parse("~flag").stringify(), "~flag");
}

#[test]
fn test_stringify_nested_series_directive() {
    assert_eq!(parse("ma:5@(close+open)").stringify(), "ma:5@(close+open)");
}

#[test]
fn test_stringify_float_arguments() {
    assert_eq!(parse("boll:20,2.5").stringify(), "boll:20,2.5");
    assert_eq!(parse("ma:-0.5").stringify(), "ma:-0.5");
}

#[test]
fn test_directive_stringify_free_function() {
    let tree = parse("ma:20");
    assert_eq!(directive_stringify(&tree), "ma:20");
}

#[test]
fn test_round_trip_reparse_is_structurally_equal() {
    // For a directive accepted by the grammar, reparsing the rendering of
    // its tree gives the tree back, up to source positions and constant
    // folding.
    let inputs = [
        "ma:20",
        "ma:20@close",
        "kdj.k:9,3@high,low,close",
        "close > ma:20",
        "a-b-c",
        "a + b*c // d",
        "-5",
        "- 5",
        "-close",
        "~flag",
        "ma:,20@,close",
        "ma:5@(close+open),low",
        "boll.upper : 20 , 2.5 @ close",
        "a >= -b",
        "style:candle,hollow",
        "a != b == c",
        "x \\ y >< z",
    ];
    for input in inputs {
        let first = parse(input);
        let rendered = first.stringify();
        let second = parse(&rendered);
        assert!(
            first.structural_eq(&second),
            "round trip changed the tree for {:?}: rendered {:?}",
            input,
            rendered
        );
        // The rendering is canonical: rendering the reparse changes nothing.
        assert_eq!(second.stringify(), rendered);
    }
}

#[test]
fn test_round_trip_limit_parentheses_against_precedence() {
    // The rendering never writes parentheses around a binary operand: it
    // relies on the fixed precedence table. A parenthesized group that
    // binds looser than its surroundings therefore does not survive a
    // round trip.
    let first = parse("(a|b)^c");
    let rendered = first.stringify();
    assert_eq!(rendered, "a|b^c");
    let second = parse(&rendered);
    assert!(!first.structural_eq(&second));
}

#[test]
fn test_clone_is_deep_and_equal() {
    let tree = parse("kdj.k:9,3@high,(close+open)");
    let copy = tree.clone();
    assert!(tree.structural_eq(&copy));
    assert_eq!(copy.stringify(), tree.stringify());
}

#[test]
fn test_structural_eq_ignores_positions_only() {
    let a = parse("ma:20@close");
    let b = parse("  ma:20@close");
    assert!(a.structural_eq(&b));
    let c = parse("ma:21@close");
    assert!(!a.structural_eq(&c));
    let d = parse("ma:20@open");
    assert!(!a.structural_eq(&d));
}
