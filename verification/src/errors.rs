//! Error types for directive parsing.
//!
//! Parsing fails fast with a single [`DirectiveError::SyntaxError`] carrying
//! the 1-based line and column of the offending token and a structured
//! message naming what was expected and what stood there. The other
//! variants belong to the downstream collaborators (command registries)
//! that consume a parsed directive; the parser itself never produces them,
//! so callers can tell the two taxonomies apart.

use vstd::prelude::*;
use vstd::string::*;

verus! {

/// What a syntax error has to say: the expected and actual tokens.
#[derive(Debug, Clone)]
pub enum SyntaxMessage {
    /// The input ended where a construct still had to begin.
    UnexpectedEof,
    /// A token that no rule of the grammar accepts here.
    UnexpectedToken(String),
    /// A specific token was required; `got` is `None` at end of input.
    Expected { expected: String, got: Option<String> },
    /// The expression was complete but trailing input remained.
    ExpectedEof { got: String },
}

/// Mathematical image of a [`SyntaxMessage`].
pub enum MessageModel {
    UnexpectedEof,
    UnexpectedToken(Seq<char>),
    Expected { expected: Seq<char>, got: Option<Seq<char>> },
    ExpectedEof(Seq<char>),
}

impl View for SyntaxMessage {
    type V = MessageModel;

    open spec fn view(&self) -> MessageModel {
        match self {
            SyntaxMessage::UnexpectedEof => MessageModel::UnexpectedEof,
            SyntaxMessage::UnexpectedToken(s) => MessageModel::UnexpectedToken(s@),
            SyntaxMessage::Expected { expected, got } => MessageModel::Expected {
                expected: expected@,
                got: match got {
                    Some(g) => Some(g@),
                    None => None,
                },
            },
            SyntaxMessage::ExpectedEof { got } => MessageModel::ExpectedEof(got@),
        }
    }
}

/// Mathematical image of a syntax error: position and message.
pub struct ErrorModel {
    pub line: int,
    pub col: int,
    pub message: MessageModel,
}

/// Errors that can come out of directive handling.
#[derive(Debug, Clone)]
pub enum DirectiveError {
    /// The directive text does not follow the grammar.
    SyntaxError { line: usize, column: usize, message: SyntaxMessage },
    /// A value was unusable where a directive was evaluated.
    ValueError(String),
    /// A command name that no registry entry answers to.
    UnknownCommand(String),
    /// An argument that a command's schema rejects.
    InvalidArgument(String),
}

/// Mathematical image of a [`DirectiveError`].
pub enum DirectiveErrorModel {
    SyntaxError(ErrorModel),
    ValueError(Seq<char>),
    UnknownCommand(Seq<char>),
    InvalidArgument(Seq<char>),
}

impl View for DirectiveError {
    type V = DirectiveErrorModel;

    open spec fn view(&self) -> DirectiveErrorModel {
        match self {
            DirectiveError::SyntaxError { line, column, message } =>
                DirectiveErrorModel::SyntaxError(ErrorModel {
                    line: *line as int,
                    col: *column as int,
                    message: message@,
                }),
            DirectiveError::ValueError(s) => DirectiveErrorModel::ValueError(s@),
            DirectiveError::UnknownCommand(s) => DirectiveErrorModel::UnknownCommand(s@),
            DirectiveError::InvalidArgument(s) => DirectiveErrorModel::InvalidArgument(s@),
        }
    }
}

pub type DirectiveResult<T> = Result<T, DirectiveError>;

/// Errors that can come out of indicator calculation: the taxonomy of the
/// numeric kernels a directive ultimately names, kept apart from the
/// parser's own.
#[derive(Debug, Clone)]
pub enum IndicatorError {
    /// A window length the kernel cannot work with.
    InvalidPeriod(String),
    /// Fewer input elements than the kernel needs.
    ArrayTooShort { expected: usize, got: usize },
    /// An argument the kernel's schema rejects.
    InvalidArgument(String),
}

/// Mathematical image of an [`IndicatorError`].
pub enum IndicatorErrorModel {
    InvalidPeriod(Seq<char>),
    ArrayTooShort { expected: int, got: int },
    InvalidArgument(Seq<char>),
}

impl View for IndicatorError {
    type V = IndicatorErrorModel;

    open spec fn view(&self) -> IndicatorErrorModel {
        match self {
            IndicatorError::InvalidPeriod(s) => IndicatorErrorModel::InvalidPeriod(s@),
            IndicatorError::ArrayTooShort { expected, got } =>
                IndicatorErrorModel::ArrayTooShort {
                    expected: *expected as int,
                    got: *got as int,
                },
            IndicatorError::InvalidArgument(s) => IndicatorErrorModel::InvalidArgument(s@),
        }
    }
}

pub type IndicatorResult<T> = Result<T, IndicatorError>;

// ---------------------------------------------------------------------------
// Human-readable rendering
// ---------------------------------------------------------------------------

/// The text of a syntax message: what was expected and what stood there.
pub open spec fn spec_message_text(m: MessageModel) -> Seq<char> {
    match m {
        MessageModel::UnexpectedEof => "unexpected EOF"@,
        MessageModel::UnexpectedToken(t) => "unexpected token '"@ + t + "'"@,
        MessageModel::Expected { expected, got } => "expected '"@ + expected + "', got "@
            + (match got {
            Some(g) => "'"@ + g + "'"@,
            None => "EOF"@,
        }),
        MessageModel::ExpectedEof(t) => "expected EOF, got '"@ + t + "'"@,
    }
}

/// The whole rendered error: kind, position, and message.
pub open spec fn spec_error_message(e: DirectiveErrorModel) -> Seq<char> {
    match e {
        DirectiveErrorModel::SyntaxError(m) => "Syntax error at line "@
            + crate::stringify::spec_digits_of(m.line as nat) + ", column "@
            + crate::stringify::spec_digits_of(m.col as nat) + ": "@ + spec_message_text(
            m.message,
        ),
        DirectiveErrorModel::ValueError(s) => "Value error: "@ + s,
        DirectiveErrorModel::UnknownCommand(s) => "Unknown command: "@ + s,
        DirectiveErrorModel::InvalidArgument(s) => "Invalid argument: "@ + s,
    }
}

impl DirectiveError {
    /// The human-readable text of this error, naming the position and the
    /// expected and actual tokens.
    pub fn message(&self) -> (r: String)
        ensures
            r@ == spec_error_message(self@),
    {
        let mut out = String::new();
        match self {
            DirectiveError::SyntaxError { line, column, message } => {
                out.append("Syntax error at line ");
                let lt = crate::stringify::usize_to_string(*line);
                out.append(lt.as_str());
                out.append(", column ");
                let ct = crate::stringify::usize_to_string(*column);
                out.append(ct.as_str());
                out.append(": ");
                match message {
                    SyntaxMessage::UnexpectedEof => {
                        out.append("unexpected EOF");
                    },
                    SyntaxMessage::UnexpectedToken(t) => {
                        out.append("unexpected token '");
                        out.append(t.as_str());
                        out.append("'");
                    },
                    SyntaxMessage::Expected { expected, got } => {
                        out.append("expected '");
                        out.append(expected.as_str());
                        out.append("', got ");
                        match got {
                            Some(g) => {
                                out.append("'");
                                out.append(g.as_str());
                                out.append("'");
                            },
                            None => {
                                out.append("EOF");
                            },
                        }
                    },
                    SyntaxMessage::ExpectedEof { got } => {
                        out.append("expected EOF, got '");
                        out.append(got.as_str());
                        out.append("'");
                    },
                }
            },
            DirectiveError::ValueError(s) => {
                out.append("Value error: ");
                out.append(s.as_str());
            },
            DirectiveError::UnknownCommand(s) => {
                out.append("Unknown command: ");
                out.append(s.as_str());
            },
            DirectiveError::InvalidArgument(s) => {
                out.append("Invalid argument: ");
                out.append(s.as_str());
            },
        }
        proof {
            assert(out@ =~= spec_error_message(self@));
        }
        out
    }
}

/// The rendered text of an indicator error.
pub open spec fn spec_indicator_message(e: IndicatorErrorModel) -> Seq<char> {
    match e {
        IndicatorErrorModel::InvalidPeriod(s) => "Invalid period: "@ + s,
        IndicatorErrorModel::ArrayTooShort { expected, got } =>
            "Array too short: expected at least "@ + crate::stringify::spec_digits_of(
                expected as nat,
            ) + " elements, got "@ + crate::stringify::spec_digits_of(got as nat),
        IndicatorErrorModel::InvalidArgument(s) => "Invalid argument: "@ + s,
    }
}

impl IndicatorError {
    /// The human-readable text of this error.
    pub fn message(&self) -> (r: String)
        ensures
            r@ == spec_indicator_message(self@),
    {
        let mut out = String::new();
        match self {
            IndicatorError::InvalidPeriod(s) => {
                out.append("Invalid period: ");
                out.append(s.as_str());
            },
            IndicatorError::ArrayTooShort { expected, got } => {
                out.append("Array too short: expected at least ");
                let et = crate::stringify::usize_to_string(*expected);
                out.append(et.as_str());
                out.append(" elements, got ");
                let gt = crate::stringify::usize_to_string(*got);
                out.append(gt.as_str());
            },
            IndicatorError::InvalidArgument(s) => {
                out.append("Invalid argument: ");
                out.append(s.as_str());
            },
        }
        proof {
            assert(out@ =~= spec_indicator_message(self@));
        }
        out
    }
}

} // verus!
