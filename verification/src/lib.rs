//! Parser for the compact directive language of derived stock-data columns.
//!
//! A directive such as `ma:20@close` or `close > ma:20` names a derived
//! column: a command with positional arguments and series selectors, or an
//! operator expression over such commands. This crate tokenizes a directive
//! string, parses it into an abstract syntax tree with a fixed operator
//! precedence table, and renders a parsed tree back to its canonical text.

pub mod errors;
pub mod grammar;
pub mod indicators;
pub mod laws;
pub mod parser;
pub mod stringify;
pub mod tokenizer;
pub mod types;

pub use errors::{DirectiveError, DirectiveResult, IndicatorError, IndicatorResult,
    SyntaxMessage};
pub use indicators::calc_repeat;
pub use parser::{get_operator_info, get_unary_operator_info, OperatorInfo, Parser,
    parse_directive};
pub use stringify::directive_stringify;
pub use tokenizer::{Loc, Token, TokenKind, Tokenizer};
pub use types::{
    ArgumentNode, CommandNode, ExpressionNode, OperatorNode, Primitive, ScalarNode,
    SeriesArgumentNode,
};
