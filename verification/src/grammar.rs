//! The directive grammar, stated mathematically.
//!
//! Everything here is specification: a precedence-climbing parser over a
//! token sequence, written as total spec functions. The executable parser
//! in [`crate::parser`] is proved to return exactly what these functions
//! say, for every input. The grammar:
//!
//! * an expression at priority `p` is a chain of expressions at priority
//!   `p + 1` joined left-associatively by operators of exactly priority `p`;
//! * a primary expression is a unary `-` or `~` application, a nonnegative
//!   numeric literal (folded with a preceding `-` into one scalar), a
//!   parenthesized expression, or a command;
//! * a command is one `Normal` token, split at its first `.` into name and
//!   sub-name, then `:` arguments and `@` series, both comma-separated.

use vstd::prelude::*;
use crate::tokenizer::TokenModel;
use crate::types::{ArgumentModel, CommandModel, ExprModel, OperatorModel, PrimitiveModel,
    SeriesModel};
use crate::errors::{ErrorModel, MessageModel};

verus! {

// ---------------------------------------------------------------------------
// Operator table
// ---------------------------------------------------------------------------

/// The fixed binary operator priority table; higher binds tighter.
pub open spec fn spec_operator_priority(name: Seq<char>) -> Option<int> {
    if name.len() == 1 {
        let c = name[0];
        if c == '|' {
            Some(1int)
        } else if c == '^' {
            Some(2int)
        } else if c == '&' {
            Some(3int)
        } else if c == '<' || c == '>' {
            Some(4int)
        } else if c == '\\' {
            Some(6int)
        } else if c == '+' || c == '-' {
            Some(7int)
        } else if c == '*' || c == '/' {
            Some(8int)
        } else {
            None
        }
    } else if name.len() == 2 {
        let c0 = name[0];
        let c1 = name[1];
        if (c0 == '<' && c1 == '=') || (c0 == '>' && c1 == '=') {
            Some(4int)
        } else if (c0 == '=' && c1 == '=') || (c0 == '!' && c1 == '=') {
            Some(5int)
        } else if (c0 == '/' && c1 == '/') || (c0 == '>' && c1 == '<') {
            Some(6int)
        } else {
            None
        }
    } else {
        None
    }
}

/// The unary operators `-` and `~`, which bind tighter than every binary
/// operator.
pub open spec fn spec_unary_priority(name: Seq<char>) -> Option<int> {
    if name.len() == 1 && (name[0] == '-' || name[0] == '~') {
        Some(9int)
    } else {
        None
    }
}

// ---------------------------------------------------------------------------
// Numeric literals and command names
// ---------------------------------------------------------------------------

pub open spec fn spec_is_digit(c: char) -> bool {
    48 <= c as u32 && c as u32 <= 57
}

pub open spec fn spec_digit_val(c: char) -> int {
    c as u32 - 48
}

pub open spec fn spec_all_digits(s: Seq<char>) -> bool {
    forall|i: int| 0 <= i < s.len() ==> spec_is_digit(#[trigger] s[i])
}

/// Value of a digit string read in base ten.
pub open spec fn spec_digits_val(s: Seq<char>) -> int
    decreases s.len(),
{
    if s.len() == 0 {
        0
    } else {
        spec_digits_val(s.drop_last()) * 10 + spec_digit_val(s.last())
    }
}

/// Index of the first `.` in `s`, or `s.len()` if there is none.
pub open spec fn spec_first_dot(s: Seq<char>) -> int
    decreases s.len(),
{
    if s.len() == 0 {
        0
    } else if s[0] == '.' {
        0
    } else {
        1 + spec_first_dot(s.skip(1))
    }
}

pub proof fn lemma_first_dot(s: Seq<char>)
    ensures
        0 <= spec_first_dot(s) <= s.len(),
        spec_first_dot(s) < s.len() ==> s[spec_first_dot(s)] == '.',
        forall|j: int| 0 <= j < spec_first_dot(s) ==> s[j] != '.',
    decreases s.len(),
{
    if s.len() > 0 && s[0] != '.' {
        lemma_first_dot(s.skip(1));
        assert forall|j: int| 0 <= j < spec_first_dot(s) implies s[j] != '.' by {
            if j >= 1 {
                assert(s.skip(1)[j - 1] != '.');
            }
        }
    }
}

/// A scan that saw no dot through index `k` and then a dot (or the end)
/// has found the first dot.
pub proof fn lemma_first_dot_scan(s: Seq<char>, k: int)
    requires
        0 <= k <= s.len(),
        forall|j: int| 0 <= j < k ==> s[j] != '.',
        k == s.len() || s[k] == '.',
    ensures
        spec_first_dot(s) == k,
    decreases k,
{
    if k > 0 {
        lemma_first_dot_scan(s.skip(1), k - 1);
    }
}

/// A nonnegative integer literal: one or more digits and nothing else.
pub open spec fn spec_is_int_literal(s: Seq<char>) -> bool {
    s.len() > 0 && spec_all_digits(s)
}

/// A nonnegative float literal: optional digits, one `.`, then one or more
/// digits, and nothing else.
pub open spec fn spec_is_float_literal(s: Seq<char>) -> bool {
    let k = spec_first_dot(s);
    &&& k < s.len()
    &&& k + 1 < s.len()
    &&& spec_all_digits(s.take(k))
    &&& spec_all_digits(s.skip(k + 1))
}

/// What a token's text denotes as a nonnegative number, if anything.
/// An integer literal whose value does not fit in `i64` denotes nothing
/// and is read as a bare word instead.
pub open spec fn spec_read_number(text: Seq<char>) -> Option<PrimitiveModel> {
    if spec_is_float_literal(text) {
        Some(PrimitiveModel::Float(text))
    } else if spec_is_int_literal(text) && spec_digits_val(text) <= i64::MAX {
        Some(PrimitiveModel::Int(spec_digits_val(text)))
    } else {
        None
    }
}

/// Negating a folded literal: an integer is negated, a float literal gains
/// a leading minus sign, anything else stands as it is.
pub open spec fn spec_negate(p: PrimitiveModel) -> PrimitiveModel {
    match p {
        PrimitiveModel::Int(i) => PrimitiveModel::Int(-i),
        PrimitiveModel::Float(s) => PrimitiveModel::Float(seq!['-'] + s),
        other => other,
    }
}

/// A command token's text split at its first `.`: the part before is the
/// command name, the part after (possibly empty) is the sub-name; with no
/// dot there is no sub-name.
pub open spec fn spec_split_name(text: Seq<char>) -> (Seq<char>, Option<Seq<char>>) {
    let k = spec_first_dot(text);
    if k < text.len() {
        (text.take(k), Some(text.skip(k + 1)))
    } else {
        (text, None)
    }
}

// ---------------------------------------------------------------------------
// Tokens as the parser sees them
// ---------------------------------------------------------------------------

/// The token reads as the text `s` (any non-`Eof` token qualifies).
pub open spec fn tm_is(t: TokenModel, s: Seq<char>) -> bool {
    !t.eof && t.text == s
}

pub open spec fn err_at(t: TokenModel, m: MessageModel) -> ErrorModel {
    ErrorModel { line: t.line, col: t.col, message: m }
}

/// The error value of branches that no well-formed token sequence reaches:
/// every stream of [`crate::tokenizer::spec_tokens`] ends in an `Eof`
/// token, so the parser never runs off the end of its input.
pub open spec fn err_none() -> ErrorModel {
    ErrorModel { line: 0, col: 0, message: MessageModel::UnexpectedEof }
}

/// What a token denotes as a nonnegative number: `Eof` and `Special`
/// tokens denote nothing.
pub open spec fn spec_detect_positive_number(t: TokenModel) -> Option<PrimitiveModel> {
    if t.eof || t.special {
        None
    } else {
        spec_read_number(t.text)
    }
}

/// A signed number at the head of the token sequence: an optional `-`
/// immediately followed by a nonnegative literal, negated if the `-` is
/// there. Yields the value and how many tokens it covers; a `-` with no
/// number after it yields nothing and covers nothing.
pub open spec fn spec_detect_number(toks: Seq<TokenModel>) -> Option<(PrimitiveModel, int)> {
    if toks.len() >= 1 && tm_is(toks[0], seq!['-']) {
        if toks.len() >= 2 {
            match spec_detect_positive_number(toks[1]) {
                Some(v) => Some((spec_negate(v), 2int)),
                None => None,
            }
        } else {
            None
        }
    } else if toks.len() >= 1 {
        match spec_detect_positive_number(toks[0]) {
            Some(v) => Some((v, 1int)),
            None => None,
        }
    } else {
        None
    }
}

// ---------------------------------------------------------------------------
// The parser
// ---------------------------------------------------------------------------

/// Parse an expression no looser than priority `p`: a left-associative
/// chain of priority-`p` operator applications over operands parsed at
/// priority `p + 1`; above the tightest binary priority, a primary
/// expression. Returns the tree and the unconsumed tokens.
pub open spec fn spec_parse_expression(toks: Seq<TokenModel>, p: int) -> Result<
    (ExprModel, Seq<TokenModel>),
    ErrorModel,
>
    decreases toks.len(), (if p < 9 { 20 - p } else { 11int }),
{
    if p > 8 {
        spec_parse_primary(toks)
    } else {
        match spec_parse_expression(toks, p + 1) {
            Ok((left, rest)) => {
                if rest.len() <= toks.len() {
                    spec_parse_binary_rest(left, rest, p)
                } else {
                    Ok((left, rest))
                }
            },
            Err(e) => Err(e),
        }
    }
}

/// Fold `left OP right OP right ...` while the next token is an operator of
/// exactly priority `p`.
pub open spec fn spec_parse_binary_rest(left: ExprModel, toks: Seq<TokenModel>, p: int) -> Result<
    (ExprModel, Seq<TokenModel>),
    ErrorModel,
>
    decreases toks.len(), 0int,
{
    if toks.len() >= 1 && !toks[0].eof && toks[0].special && spec_operator_priority(
        toks[0].text,
    ) == Some(p) {
        let op = toks[0];
        match spec_parse_expression(toks.skip(1), p + 1) {
            Ok((right, rest2)) => {
                let combined = ExprModel::Binary {
                    line: left.line(),
                    col: left.col(),
                    operator: OperatorModel { line: op.line, col: op.col, name: op.text, priority: p },
                    left: Box::new(left),
                    right: Box::new(right),
                };
                if rest2.len() < toks.len() {
                    spec_parse_binary_rest(combined, rest2, p)
                } else {
                    Ok((combined, rest2))
                }
            },
            Err(e) => Err(e),
        }
    } else {
        Ok((left, toks))
    }
}

/// A primary expression: a unary operator application, a scalar literal,
/// or a primary directive. A `-` directly before a literal folds into a
/// negative scalar; `~` directly before a literal is a syntax error.
pub open spec fn spec_parse_primary(toks: Seq<TokenModel>) -> Result<
    (ExprModel, Seq<TokenModel>),
    ErrorModel,
>
    decreases toks.len(), 10int,
{
    if toks.len() == 0 {
        Err(err_none())
    } else {
        let t = toks[0];
        if t.eof {
            Err(err_at(t, MessageModel::UnexpectedEof))
        } else if spec_unary_priority(t.text) == Some(9int) {
            let toks1 = toks.skip(1);
            let num = if toks1.len() >= 1 {
                spec_detect_positive_number(toks1[0])
            } else {
                None
            };
            if t.text == seq!['-'] && num is Some {
                Ok(
                    (
                        ExprModel::Scalar {
                            line: t.line,
                            col: t.col,
                            value: spec_negate(num->Some_0),
                        },
                        toks1.skip(1),
                    ),
                )
            } else if t.text == seq!['~'] && num is Some {
                Err(err_at(toks1[0], MessageModel::UnexpectedToken(toks1[0].text)))
            } else {
                match spec_parse_primary_directive(toks1) {
                    Ok((inner, rest)) => Ok(
                        (
                            ExprModel::Unary {
                                line: t.line,
                                col: t.col,
                                operator: OperatorModel {
                                    line: t.line,
                                    col: t.col,
                                    name: t.text,
                                    priority: 9,
                                },
                                expression: Box::new(inner),
                            },
                            rest,
                        ),
                    ),
                    Err(e) => Err(e),
                }
            }
        } else {
            match spec_detect_positive_number(t) {
                Some(v) => Ok(
                    (ExprModel::Scalar { line: t.line, col: t.col, value: v }, toks.skip(1)),
                ),
                None => spec_parse_primary_directive(toks),
            }
        }
    }
}

/// A parenthesized expression or a command.
pub open spec fn spec_parse_primary_directive(toks: Seq<TokenModel>) -> Result<
    (ExprModel, Seq<TokenModel>),
    ErrorModel,
>
    decreases toks.len(), 9int,
{
    if toks.len() >= 1 && tm_is(toks[0], seq!['(']) {
        spec_parse_wrapped(toks)
    } else {
        spec_parse_command(toks)
    }
}

/// `( expression )`: the inner tree stands for the whole, and the closing
/// parenthesis is required.
pub open spec fn spec_parse_wrapped(toks: Seq<TokenModel>) -> Result<
    (ExprModel, Seq<TokenModel>),
    ErrorModel,
>
    decreases toks.len(), 7int,
{
    if toks.len() == 0 {
        Err(err_none())
    } else {
        match spec_parse_expression(toks.skip(1), 1) {
            Ok((inner, rest)) => {
                if rest.len() >= 1 && tm_is(rest[0], seq![')']) {
                    Ok((inner, rest.skip(1)))
                } else if rest.len() >= 1 {
                    Err(
                        err_at(
                            rest[0],
                            MessageModel::Expected {
                                expected: seq![')'],
                                got: if rest[0].eof {
                                    None
                                } else {
                                    Some(rest[0].text)
                                },
                            },
                        ),
                    )
                } else {
                    Err(err_none())
                }
            },
            Err(e) => Err(e),
        }
    }
}

/// A command: one `Normal` token as its name (split at the first `.`),
/// then `:` and comma-separated arguments if a `:` follows, then `@` and
/// comma-separated series if an `@` follows.
pub open spec fn spec_parse_command(toks: Seq<TokenModel>) -> Result<
    (ExprModel, Seq<TokenModel>),
    ErrorModel,
>
    decreases toks.len(), 8int,
{
    if toks.len() == 0 {
        Err(err_none())
    } else {
        let t = toks[0];
        if t.eof {
            Err(err_at(t, MessageModel::UnexpectedEof))
        } else if t.special {
            Err(err_at(t, MessageModel::UnexpectedToken(t.text)))
        } else {
            let name_sub = spec_split_name(t.text);
            let toks1 = toks.skip(1);
            let argsr = if toks1.len() >= 1 && tm_is(toks1[0], seq![':']) {
                spec_parse_args(toks1.skip(1))
            } else {
                (Seq::<ArgumentModel>::empty(), toks1)
            };
            let args = argsr.0;
            let rest_a = argsr.1;
            if rest_a.len() >= 1 && rest_a.len() <= toks.len() && tm_is(rest_a[0], seq!['@']) {
                match spec_parse_series(rest_a.skip(1)) {
                    Ok((series, rest_s)) => Ok(
                        (
                            ExprModel::Command(
                                CommandModel {
                                    line: t.line,
                                    col: t.col,
                                    name: name_sub.0,
                                    sub: name_sub.1,
                                    args,
                                    series,
                                },
                            ),
                            rest_s,
                        ),
                    ),
                    Err(e) => Err(e),
                }
            } else {
                Ok(
                    (
                        ExprModel::Command(
                            CommandModel {
                                line: t.line,
                                col: t.col,
                                name: name_sub.0,
                                sub: name_sub.1,
                                args,
                                series: Seq::empty(),
                            },
                        ),
                        rest_a,
                    ),
                )
            }
        }
    }
}

/// Comma-separated argument slots. A slot is a signed number, or a bare
/// word, or nothing; a missing slot directly before a `,` is recorded as an
/// explicitly empty slot. The list ends where no `,` follows. This never
/// fails.
pub open spec fn spec_parse_args(toks: Seq<TokenModel>) -> (Seq<ArgumentModel>, Seq<TokenModel>)
    decreases toks.len(), 1int,
{
    if toks.len() == 0 {
        (Seq::empty(), toks)
    } else if toks[0].eof {
        (Seq::empty(), toks)
    } else {
        let t = toks[0];
        match spec_detect_number(toks) {
            Some((v, c)) => {
                let arg = ArgumentModel { line: t.line, col: t.col, value: Some(v) };
                let rest = toks.skip(c);
                if rest.len() >= 1 && tm_is(rest[0], seq![',']) {
                    let r2 = spec_parse_args(rest.skip(1));
                    (seq![arg] + r2.0, r2.1)
                } else {
                    (seq![arg], rest)
                }
            },
            None => {
                if !t.special {
                    let arg = ArgumentModel {
                        line: t.line,
                        col: t.col,
                        value: Some(PrimitiveModel::Str(t.text)),
                    };
                    let rest = toks.skip(1);
                    if rest.len() >= 1 && tm_is(rest[0], seq![',']) {
                        let r2 = spec_parse_args(rest.skip(1));
                        (seq![arg] + r2.0, r2.1)
                    } else {
                        (seq![arg], rest)
                    }
                } else {
                    if tm_is(t, seq![',']) {
                        let arg = ArgumentModel { line: t.line, col: t.col, value: None };
                        let r2 = spec_parse_args(toks.skip(1));
                        (seq![arg] + r2.0, r2.1)
                    } else {
                        (Seq::empty(), toks)
                    }
                }
            },
        }
    }
}

/// Comma-separated series slots. A slot is a parenthesized nested
/// directive, or a bare column name, or nothing; a missing slot directly
/// before a `,` is an explicitly empty slot. Fails only inside a nested
/// directive.
pub open spec fn spec_parse_series(toks: Seq<TokenModel>) -> Result<
    (Seq<SeriesModel>, Seq<TokenModel>),
    ErrorModel,
>
    decreases toks.len(), 8int,
{
    if toks.len() == 0 {
        Ok((Seq::empty(), toks))
    } else {
        let t = toks[0];
        if tm_is(t, seq!['(']) {
            match spec_parse_wrapped(toks) {
                Ok((inner, rest)) => {
                    let slot = SeriesModel::Directive {
                        line: t.line,
                        col: t.col,
                        expr: Box::new(inner),
                    };
                    if rest.len() >= 1 && rest.len() <= toks.len() && tm_is(rest[0], seq![',']) {
                        match spec_parse_series(rest.skip(1)) {
                            Ok((more, rest2)) => Ok((seq![slot] + more, rest2)),
                            Err(e) => Err(e),
                        }
                    } else {
                        Ok((seq![slot], rest))
                    }
                },
                Err(e) => Err(e),
            }
        } else if !t.special && !t.eof {
            let slot = SeriesModel::Column { line: t.line, col: t.col, name: t.text };
            let rest = toks.skip(1);
            if rest.len() >= 1 && tm_is(rest[0], seq![',']) {
                match spec_parse_series(rest.skip(1)) {
                    Ok((more, rest2)) => Ok((seq![slot] + more, rest2)),
                    Err(e) => Err(e),
                }
            } else {
                Ok((seq![slot], rest))
            }
        } else {
            if tm_is(t, seq![',']) {
                let slot = SeriesModel::Empty { line: t.line, col: t.col };
                match spec_parse_series(toks.skip(1)) {
                    Ok((more, rest2)) => Ok((seq![slot] + more, rest2)),
                    Err(e) => Err(e),
                }
            } else {
                Ok((Seq::empty(), toks))
            }
        }
    }
}

/// A whole directive: one expression covering the entire token stream;
/// trailing tokens before the `Eof` are a syntax error naming them.
pub open spec fn spec_parse_tokens(toks: Seq<TokenModel>) -> Result<ExprModel, ErrorModel> {
    match spec_parse_expression(toks, 1) {
        Ok((e, rest)) => {
            if rest.len() == 0 || rest[0].eof {
                Ok(e)
            } else {
                Err(err_at(rest[0], MessageModel::ExpectedEof(rest[0].text)))
            }
        },
        Err(e) => Err(e),
    }
}

/// What parsing the character sequence `s` yields: the tokens of `s`, fed
/// to the expression grammar.
pub open spec fn spec_parse_directive(s: Seq<char>) -> Result<ExprModel, ErrorModel> {
    spec_parse_tokens(crate::tokenizer::spec_tokens(s, 1, 1))
}

} // verus!
