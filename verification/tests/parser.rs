//! Parser behaviour: trees, errors, and the canonical rendering.

use stock_directive::{
    parse_directive, DirectiveError, ExpressionNode, Parser, Primitive, SeriesArgumentNode,
    SyntaxMessage,
};

fn parse(input: &str) -> Result<ExpressionNode, DirectiveError> {
    let mut parser = Parser::new(input);
    parser.parse()
}

#[test]
fn test_parse_simple_command() {
    let mut parser = Parser::new("ma:20");
    let result = parser.parse().unwrap();
    if let ExpressionNode::Command(cmd) = result {
        assert_eq!(cmd.name, "ma");
        assert_eq!(cmd.args.len(), 1);
    } else {
        panic!("Expected Command node");
    }
}

#[test]
fn test_parse_command_with_sub() {
    let mut parser = Parser::new("kdj.k:9,3");
    let result = parser.parse().unwrap();
    if let ExpressionNode::Command(cmd) = result {
        assert_eq!(cmd.name, "kdj");
        assert_eq!(cmd.sub, Some("k".to_string()));
        assert_eq!(cmd.args.len(), 2);
    } else {
        panic!("Expected Command node");
    }
}

#[test]
fn test_parse_command_with_series() {
    let mut parser = Parser::new("ma:20@close");
    let result = parser.parse().unwrap();
    if let ExpressionNode::Command(cmd) = result {
        assert_eq!(cmd.name, "ma");
        assert_eq!(cmd.series.len(), 1);
    } else {
        panic!("Expected Command node");
    }
}

#[test]
fn test_parse_expression() {
    let mut parser = Parser::new("close > ma:20");
    let result = parser.parse().unwrap();
    if let ExpressionNode::Binary { operator, .. } = result {
        assert_eq!(operator.name, ">");
    } else {
        panic!("Expected Binary expression");
    }
}

#[test]
fn test_sub_name_and_integer_arguments() {
    let result = parse("kdj.k:9,3").unwrap();
    let cmd = match result {
        ExpressionNode::Command(cmd) => cmd,
        other => panic!("expected a command, got {:?}", other),
    };
    assert_eq!(cmd.name, "kdj");
    assert_eq!(cmd.sub, Some("k".to_string()));
    assert_eq!(cmd.args.len(), 2);
    assert!(matches!(cmd.args[0].value, Some(Primitive::Int(9))));
    assert!(matches!(cmd.args[1].value, Some(Primitive::Int(3))));
    assert!(cmd.series.is_empty());
}

#[test]
fn test_comparison_of_two_commands() {
    let result = parse("close > ma:20").unwrap();
    let (operator, left, right) = match result {
        ExpressionNode::Binary { operator, left, right, .. } => (operator, left, right),
        other => panic!("expected a binary expression, got {:?}", other),
    };
    assert_eq!(operator.name, ">");
    assert_eq!(operator.priority, 4);
    match *left {
        ExpressionNode::Command(ref cmd) => {
            assert_eq!(cmd.name, "close");
            assert!(cmd.args.is_empty());
        }
        ref other => panic!("expected a command on the left, got {:?}", other),
    }
    match *right {
        ExpressionNode::Command(ref cmd) => {
            assert_eq!(cmd.name, "ma");
            assert_eq!(cmd.args.len(), 1);
            assert!(matches!(cmd.args[0].value, Some(Primitive::Int(20))));
        }
        ref other => panic!("expected a command on the right, got {:?}", other),
    }
}

#[test]
fn test_left_associativity_at_equal_priority() {
    let result = parse("a-b-c").unwrap();
    let (operator, left, right) = match result {
        ExpressionNode::Binary { operator, left, right, .. } => (operator, left, right),
        other => panic!("expected a binary expression, got {:?}", other),
    };
    assert_eq!(operator.name, "-");
    match *left {
        ExpressionNode::Binary { ref operator, ref left, ref right, .. } => {
            assert_eq!(operator.name, "-");
            assert!(matches!(**left, ExpressionNode::Command(ref c) if c.name == "a"));
            assert!(matches!(**right, ExpressionNode::Command(ref c) if c.name == "b"));
        }
        ref other => panic!("expected the left operand to be a-b, got {:?}", other),
    }
    assert!(matches!(*right, ExpressionNode::Command(ref c) if c.name == "c"));
}

#[test]
fn test_precedence_across_levels() {
    // `*` binds tighter than `+`, so a+b*c is a+(b*c).
    let result = parse("a+b*c").unwrap();
    let (operator, left, right) = match result {
        ExpressionNode::Binary { operator, left, right, .. } => (operator, left, right),
        other => panic!("expected a binary expression, got {:?}", other),
    };
    assert_eq!(operator.name, "+");
    assert!(matches!(*left, ExpressionNode::Command(ref c) if c.name == "a"));
    assert!(matches!(
        *right,
        ExpressionNode::Binary { ref operator, .. } if operator.name == "*"
    ));
}

#[test]
fn test_negative_literal_folds_to_scalar() {
    let result = parse("-5").unwrap();
    match result {
        ExpressionNode::Scalar(s) => assert!(matches!(s.value, Primitive::Int(-5))),
        other => panic!("expected a folded scalar, got {:?}", other),
    }
}

#[test]
fn test_unary_minus_on_command() {
    let result = parse("-close").unwrap();
    match result {
        ExpressionNode::Unary { operator, expression, .. } => {
            assert_eq!(operator.name, "-");
            assert_eq!(operator.priority, 9);
            assert!(matches!(*expression, ExpressionNode::Command(ref c) if c.name == "close"));
        }
        other => panic!("expected a unary expression, got {:?}", other),
    }
}

#[test]
fn test_bitwise_not_on_command() {
    let result = parse("~flag").unwrap();
    match result {
        ExpressionNode::Unary { operator, .. } => assert_eq!(operator.name, "~"),
        other => panic!("expected a unary expression, got {:?}", other),
    }
}

#[test]
fn test_bitwise_not_of_literal_is_refused() {
    let err = parse("~5").unwrap_err();
    match err {
        DirectiveError::SyntaxError { message, .. } => {
            assert!(matches!(message, SyntaxMessage::UnexpectedToken(t) if t == "5"));
        }
        other => panic!("expected a syntax error, got {:?}", other),
    }
}

#[test]
fn test_series_column() {
    let result = parse("ma:20@close").unwrap();
    let cmd = match result {
        ExpressionNode::Command(cmd) => cmd,
        other => panic!("expected a command, got {:?}", other),
    };
    assert_eq!(cmd.series.len(), 1);
    assert!(matches!(&cmd.series[0], SeriesArgumentNode::Column(_, name) if name == "close"));
}

#[test]
fn test_series_nested_directive() {
    let result = parse("ma:5@(close+open)").unwrap();
    let cmd = match result {
        ExpressionNode::Command(cmd) => cmd,
        other => panic!("expected a command, got {:?}", other),
    };
    assert_eq!(cmd.series.len(), 1);
    match &cmd.series[0] {
        SeriesArgumentNode::Directive(_, inner) => {
            assert!(matches!(
                **inner,
                ExpressionNode::Binary { ref operator, .. } if operator.name == "+"
            ));
        }
        other => panic!("expected a nested directive, got {:?}", other),
    }
}

#[test]
fn test_empty_argument_slot() {
    let result = parse("ma:,20").unwrap();
    let cmd = match result {
        ExpressionNode::Command(cmd) => cmd,
        other => panic!("expected a command, got {:?}", other),
    };
    assert_eq!(cmd.args.len(), 2);
    assert!(cmd.args[0].value.is_none());
    assert!(matches!(cmd.args[1].value, Some(Primitive::Int(20))));
}

#[test]
fn test_empty_series_slot() {
    let result = parse("kdj@,close").unwrap();
    let cmd = match result {
        ExpressionNode::Command(cmd) => cmd,
        other => panic!("expected a command, got {:?}", other),
    };
    assert_eq!(cmd.series.len(), 2);
    assert!(matches!(cmd.series[0], SeriesArgumentNode::Empty(_)));
    assert!(matches!(&cmd.series[1], SeriesArgumentNode::Column(_, name) if name == "close"));
}

#[test]
fn test_float_argument_keeps_its_text() {
    let result = parse("ma:1.5").unwrap();
    let cmd = match result {
        ExpressionNode::Command(cmd) => cmd,
        other => panic!("expected a command, got {:?}", other),
    };
    assert!(matches!(&cmd.args[0].value, Some(Primitive::Float(t)) if t == "1.5"));
}

#[test]
fn test_negative_float_argument() {
    let result = parse("ma:-0.5").unwrap();
    let cmd = match result {
        ExpressionNode::Command(cmd) => cmd,
        other => panic!("expected a command, got {:?}", other),
    };
    assert!(matches!(&cmd.args[0].value, Some(Primitive::Float(t)) if t == "-0.5"));
}

#[test]
fn test_bare_word_argument() {
    let result = parse("style:candle").unwrap();
    let cmd = match result {
        ExpressionNode::Command(cmd) => cmd,
        other => panic!("expected a command, got {:?}", other),
    };
    assert!(matches!(&cmd.args[0].value, Some(Primitive::String(w)) if w == "candle"));
}

#[test]
fn test_negative_argument_with_pushback() {
    // The `-` before a bare word is no number sign: it must be restored
    // and read as an operator.
    let result = parse("a - b").unwrap();
    assert!(matches!(
        result,
        ExpressionNode::Binary { ref operator, .. } if operator.name == "-"
    ));
    let result = parse("ma:-3").unwrap();
    let cmd = match result {
        ExpressionNode::Command(cmd) => cmd,
        other => panic!("expected a command, got {:?}", other),
    };
    assert!(matches!(cmd.args[0].value, Some(Primitive::Int(-3))));
}

#[test]
fn test_name_with_several_dots_splits_at_the_first() {
    let result = parse("a.b.c").unwrap();
    let cmd = match result {
        ExpressionNode::Command(cmd) => cmd,
        other => panic!("expected a command, got {:?}", other),
    };
    assert_eq!(cmd.name, "a");
    assert_eq!(cmd.sub, Some("b.c".to_string()));
}

#[test]
fn test_name_with_trailing_dot_has_empty_sub() {
    let result = parse("a.").unwrap();
    let cmd = match result {
        ExpressionNode::Command(cmd) => cmd,
        other => panic!("expected a command, got {:?}", other),
    };
    assert_eq!(cmd.name, "a");
    assert_eq!(cmd.sub, Some(String::new()));
}

#[test]
fn test_missing_closing_parenthesis() {
    let err = parse("(ma:20").unwrap_err();
    match err {
        DirectiveError::SyntaxError { message, .. } => match message {
            SyntaxMessage::Expected { expected, got } => {
                assert_eq!(expected, ")");
                assert_eq!(got, None);
            }
            other => panic!("expected a message naming ')', got {:?}", other),
        },
        other => panic!("expected a syntax error, got {:?}", other),
    }
}

#[test]
fn test_trailing_tokens_are_refused() {
    let err = parse("ma:20 extra").unwrap_err();
    match err {
        DirectiveError::SyntaxError { message, .. } => {
            assert!(matches!(message, SyntaxMessage::ExpectedEof { got } if got == "extra"));
        }
        other => panic!("expected a syntax error, got {:?}", other),
    }
}

#[test]
fn test_empty_input_is_unexpected_eof() {
    let err = parse("").unwrap_err();
    match err {
        DirectiveError::SyntaxError { line, column, message } => {
            assert_eq!((line, column), (1, 1));
            assert!(matches!(message, SyntaxMessage::UnexpectedEof));
        }
        other => panic!("expected a syntax error, got {:?}", other),
    }
}

#[test]
fn test_operator_in_command_position_is_refused() {
    let err = parse("ma:20 + *").unwrap_err();
    match err {
        DirectiveError::SyntaxError { message, .. } => {
            assert!(matches!(message, SyntaxMessage::UnexpectedToken(t) if t == "*"));
        }
        other => panic!("expected a syntax error, got {:?}", other),
    }
}

#[test]
fn test_error_location_points_at_the_offending_token() {
    let err = parse("ma:20 extra").unwrap_err();
    match err {
        DirectiveError::SyntaxError { line, column, .. } => {
            assert_eq!((line, column), (1, 7));
        }
        other => panic!("expected a syntax error, got {:?}", other),
    }
}

#[test]
fn test_directive_may_span_lines() {
    let result = parse("close >\nma:20").unwrap();
    assert!(matches!(
        result,
        ExpressionNode::Binary { ref operator, .. } if operator.name == ">"
    ));
}

#[test]
fn test_parse_directive_trims_surrounding_whitespace() {
    let result = parse_directive("  ma:20  ").unwrap();
    let cmd = match result {
        ExpressionNode::Command(cmd) => cmd,
        other => panic!("expected a command, got {:?}", other),
    };
    assert_eq!(cmd.name, "ma");
}

#[test]
fn test_rendered_message_names_expected_token() {
    let err = parse("(ma:20").unwrap_err();
    assert_eq!(err.message(), "Syntax error at line 1, column 7: expected ')', got EOF");
}

#[test]
fn test_rendered_message_for_trailing_tokens() {
    let err = parse("ma:20 extra").unwrap_err();
    assert_eq!(err.message(), "Syntax error at line 1, column 7: expected EOF, got 'extra'");
}

#[test]
fn test_rendered_message_for_unexpected_token() {
    let err = parse("~5").unwrap_err();
    assert_eq!(err.message(), "Syntax error at line 1, column 2: unexpected token '5'");
}

#[test]
fn test_rendered_message_for_unexpected_eof() {
    let err = parse("").unwrap_err();
    assert_eq!(err.message(), "Syntax error at line 1, column 1: unexpected EOF");
}

#[test]
fn test_rendered_messages_of_collaborator_errors() {
    assert_eq!(
        DirectiveError::UnknownCommand("sma".to_string()).message(),
        "Unknown command: sma"
    );
    assert_eq!(
        DirectiveError::ValueError("bad period".to_string()).message(),
        "Value error: bad period"
    );
    assert_eq!(
        DirectiveError::InvalidArgument("period must be positive".to_string()).message(),
        "Invalid argument: period must be positive"
    );
}

#[test]
fn test_integer_too_large_for_i64_reads_as_word() {
    let result = parse("ma:99999999999999999999").unwrap();
    let cmd = match result {
        ExpressionNode::Command(cmd) => cmd,
        other => panic!("expected a command, got {:?}", other),
    };
    assert!(matches!(
        &cmd.args[0].value,
        Some(Primitive::String(w)) if w == "99999999999999999999"
    ));
}
