//! Proved laws relating the parser and the stringifier.
//!
//! The canonical rendering is built to reparse to the tree it came from:
//! commands, argument lists and series lists print token for token, and
//! binary chains rely on the fixed precedence table. The general statement
//! fails where a parenthesized group binds looser than its surroundings
//! (the rendering writes no parentheses around binary operands), and for
//! the one integer whose negation does not fit in `i64`. Here the law is
//! proved for the directives where constant folding makes the round trip
//! subtle — scalar integers and scalar floats, where `-5` parses to one
//! folded negative scalar, renders as `-5`, and parses back to the same
//! value — for bare commands, the directives a column name makes, for
//! unary applications over bare commands, where nothing folds, and for one
//! binary application over two bare commands, at every operator priority.

use vstd::prelude::*;
use crate::tokenizer::{spec_is_space, spec_is_special_single, spec_is_special_operator,
    spec_tokens, tok_eof, tok_normal, tok_special, op_run_len, TokenModel};
use crate::types::{CommandModel, ExprModel, OperatorModel, PrimitiveModel, spec_similar};
use crate::grammar::{spec_all_digits, spec_digits_val, spec_first_dot, spec_is_digit,
    spec_is_float_literal, spec_operator_priority,
    spec_parse_binary_rest, spec_parse_command, spec_parse_directive, spec_parse_expression,
    spec_parse_primary, spec_parse_primary_directive, spec_parse_tokens, spec_read_number,
    spec_unary_priority, spec_negate, spec_detect_positive_number, tm_is};
use crate::stringify::{spec_digit_char, spec_digits_of, spec_int_text, spec_stringify,
    spec_stringify_command};

verus! {

proof fn lemma_digit_is_plain(c: char)
    requires
        spec_is_digit(c),
    ensures
        !spec_is_space(c),
        !spec_is_special_single(c),
        !spec_is_special_operator(c),
        c != '.',
        c != '-',
        c != '~',
{
}

proof fn lemma_digits_of_shape(n: nat)
    ensures
        spec_digits_of(n).len() >= 1,
        spec_all_digits(spec_digits_of(n)),
    decreases n,
{
    if n >= 10 {
        lemma_digits_of_shape(n / 10);
        let d = spec_digits_of(n / 10);
        assert forall|i: int| 0 <= i < d.push(spec_digit_char(n % 10)).len() implies
            spec_is_digit(#[trigger] d.push(spec_digit_char(n % 10))[i]) by {
            if i < d.len() {
                assert(d.push(spec_digit_char(n % 10))[i] == d[i]);
            }
        }
    }
}

/// Reading the decimal rendering of `n` back as a number gives `n`.
proof fn lemma_digits_val_of_digits(n: nat)
    ensures
        spec_digits_val(spec_digits_of(n)) == n,
    decreases n,
{
    if n < 10 {
        assert(spec_digits_val(Seq::<char>::empty()) == 0);
        assert(spec_digits_of(n).drop_last() =~= Seq::<char>::empty());
        assert(spec_digits_of(n).last() == spec_digit_char(n));
    } else {
        lemma_digits_val_of_digits(n / 10);
        let d = spec_digits_of(n / 10);
        assert(d.push(spec_digit_char(n % 10)).drop_last() =~= d);
    }
}

/// A character that can stand inside one `Normal` word: not layout, not
/// punctuation, not an operator character.
pub open spec fn spec_is_plain_char(c: char) -> bool {
    !spec_is_space(c) && !spec_is_special_single(c) && !spec_is_special_operator(c)
}

/// A run of plain characters makes exactly one `Normal` token.
proof fn lemma_tokens_of_word(s: Seq<char>, line: int, col: int)
    requires
        s.len() >= 1,
        forall|j: int| 0 <= j < s.len() ==> spec_is_plain_char(#[trigger] s[j]),
    ensures
        spec_tokens(s, line, col) == seq![
            tok_normal(s, line, col),
            tok_eof(line, col + s.len()),
        ],
{
    assert forall|j: int| 0 <= j < s.skip(1).len() implies (!spec_is_space(
        #[trigger] s.skip(1)[j],
    ) && !spec_is_special_single(s.skip(1)[j]) && !spec_is_special_operator(
        s.skip(1)[j],
    )) by {
        assert(s.skip(1)[j] == s[j + 1]);
    }
    crate::tokenizer::lemma_normal_run_is_scan(s.skip(1), s.len() - 1);
    assert(s.take(s.len() as int) =~= s);
    assert(s.skip(s.len() as int) =~= Seq::<char>::empty());
    assert(spec_tokens(Seq::<char>::empty(), line, col + s.len() as int) =~= seq![
        tok_eof(line, col + s.len() as int),
    ]);
    assert(spec_tokens(s, line, col) =~= seq![
        tok_normal(s, line, col),
        tok_eof(line, col + s.len()),
    ]);
}

/// A digit string makes exactly one `Normal` token.
proof fn lemma_tokens_of_digits(s: Seq<char>, line: int, col: int)
    requires
        s.len() >= 1,
        spec_all_digits(s),
    ensures
        spec_tokens(s, line, col) == seq![
            tok_normal(s, line, col),
            tok_eof(line, col + s.len()),
        ],
{
    assert forall|j: int| 0 <= j < s.len() implies spec_is_plain_char(#[trigger] s[j]) by {
        lemma_digit_is_plain(s[j]);
    }
    lemma_tokens_of_word(s, line, col);
}

/// One operator character directly before a plain word makes a lone
/// `Special` token and then the word: the operator run does not merge with
/// the word.
proof fn lemma_tokens_of_op_word(c: char, s: Seq<char>, line: int, col: int)
    requires
        spec_is_special_operator(c),
        s.len() >= 1,
        forall|j: int| 0 <= j < s.len() ==> spec_is_plain_char(#[trigger] s[j]),
    ensures
        spec_tokens(seq![c] + s, line, col) == seq![
            tok_special(seq![c], line, col),
            tok_normal(s, line, col + 1),
            tok_eof(line, col + 1 + s.len()),
        ],
{
    let t = seq![c] + s;
    assert(t[0] == c);
    assert(t.skip(1) =~= s);
    assert(op_run_len(s) == 0);
    assert(t.take(1) =~= seq![c]);
    lemma_tokens_of_word(s, line, col + 1);
    assert(spec_tokens(t, line, col) =~= seq![
        tok_special(seq![c], line, col),
        tok_normal(s, line, col + 1),
        tok_eof(line, col + 1 + s.len()),
    ]);
}

/// Digit text reads as the integer it renders, as long as the value fits.
proof fn lemma_read_number_of_digits(s: Seq<char>)
    requires
        s.len() >= 1,
        spec_all_digits(s),
        spec_digits_val(s) <= i64::MAX,
    ensures
        spec_read_number(s) == Some(PrimitiveModel::Int(spec_digits_val(s))),
{
    assert forall|j: int| 0 <= j < s.len() implies s[j] != '.' by {
        lemma_digit_is_plain(s[j]);
    }
    crate::grammar::lemma_first_dot_scan(s, s.len() as int);
    assert(!(spec_first_dot(s) < s.len()));
}

/// When everything after a primary expression is the final `Eof`, the
/// whole precedence climb returns that primary unchanged.
proof fn lemma_expr_of_primary_at_eof(
    toks: Seq<TokenModel>,
    p: int,
    e: ExprModel,
    rest: Seq<TokenModel>,
)
    requires
        1 <= p <= 9,
        spec_parse_primary(toks) == Ok::<(ExprModel, Seq<TokenModel>), crate::errors::ErrorModel>(
            (e, rest),
        ),
        rest.len() >= 1,
        rest[0].eof,
        rest.len() <= toks.len(),
    ensures
        spec_parse_expression(toks, p) == Ok::<
            (ExprModel, Seq<TokenModel>),
            crate::errors::ErrorModel,
        >((e, rest)),
    decreases 9 - p,
{
    if p <= 8 {
        lemma_expr_of_primary_at_eof(toks, p + 1, e, rest);
        assert(spec_parse_binary_rest(e, rest, p) == Ok::<
            (ExprModel, Seq<TokenModel>),
            crate::errors::ErrorModel,
        >((e, rest)));
    }
}

/// The round trip, for scalar integers: rendering a scalar integer tree
/// and parsing the rendering yields a structurally equal tree. The one
/// integer left out is `i64::MIN`: its rendering names a magnitude that no
/// nonnegative `i64` literal can hold, so the reparse does not fold it
/// back into a scalar.
pub proof fn lemma_round_trip_scalar_int(i: int, line: int, col: int)
    requires
        i64::MIN < i <= i64::MAX,
    ensures
        ({
            let e = ExprModel::Scalar { line, col, value: PrimitiveModel::Int(i) };
            let reparsed = spec_parse_directive(spec_stringify(e));
            &&& reparsed is Ok
            &&& spec_similar(e, reparsed->Ok_0)
        }),
{
    let e = ExprModel::Scalar { line, col, value: PrimitiveModel::Int(i) };
    let text = spec_stringify(e);
    assert(text == spec_int_text(i));
    if i >= 0 {
        let d = spec_digits_of(i as nat);
        lemma_digits_of_shape(i as nat);
        lemma_digits_val_of_digits(i as nat);
        lemma_tokens_of_digits(d, 1, 1);
        let toks = spec_tokens(text, 1, 1);
        let t0 = toks[0];
        assert(!t0.eof && !t0.special && t0.text == d);
        assert(spec_unary_priority(d) is None) by {
            if d.len() == 1 {
                lemma_digit_is_plain(d[0]);
            }
        }
        lemma_read_number_of_digits(d);
        let scalar = ExprModel::Scalar { line: 1, col: 1, value: PrimitiveModel::Int(i) };
        let rest = toks.skip(1);
        assert(rest =~= seq![tok_eof(1, 1 + d.len() as int)]);
        assert(spec_parse_primary(toks) == Ok::<
            (ExprModel, Seq<TokenModel>),
            crate::errors::ErrorModel,
        >((scalar, rest)));
        lemma_expr_of_primary_at_eof(toks, 1, scalar, rest);
        assert(spec_parse_tokens(toks) == Ok::<ExprModel, crate::errors::ErrorModel>(scalar));
    } else {
        let m = (-i) as nat;
        let d = spec_digits_of(m);
        lemma_digits_of_shape(m);
        lemma_digits_val_of_digits(m);
        assert(spec_digits_val(d) <= i64::MAX);
        assert forall|j: int| 0 <= j < d.len() implies spec_is_plain_char(#[trigger] d[j]) by {
            lemma_digit_is_plain(d[j]);
        }
        lemma_tokens_of_op_word('-', d, 1, 1);
        assert(text == seq!['-'] + d);
        let toks = spec_tokens(text, 1, 1);
        let t0 = toks[0];
        assert(t0.text == seq!['-']);
        assert(spec_unary_priority(t0.text) == Some(9int));
        let toks1 = toks.skip(1);
        assert(toks1 =~= seq![tok_normal(d, 1, 2), tok_eof(1, 2 + d.len() as int)]);
        lemma_read_number_of_digits(d);
        assert(spec_detect_positive_number(toks1[0]) == Some(PrimitiveModel::Int(m as int)));
        assert(spec_negate(PrimitiveModel::Int(m as int)) == PrimitiveModel::Int(i));
        let scalar = ExprModel::Scalar { line: 1, col: 1, value: PrimitiveModel::Int(i) };
        let rest = toks1.skip(1);
        assert(rest =~= seq![tok_eof(1, 2 + d.len() as int)]);
        assert(spec_parse_primary(toks) == Ok::<
            (ExprModel, Seq<TokenModel>),
            crate::errors::ErrorModel,
        >((scalar, rest)));
        assert(rest.len() <= toks.len());
        lemma_expr_of_primary_at_eof(toks, 1, scalar, rest);
        assert(spec_parse_tokens(toks) == Ok::<ExprModel, crate::errors::ErrorModel>(scalar));
    }
}

/// The round trip, for scalar floats: a float literal, negated or not,
/// renders as its own text and parses back to the same value. This is the
/// other face of constant folding: a parsed `-1.5` is one scalar whose
/// text carries the sign, and the reparse folds it the same way.
pub proof fn lemma_round_trip_scalar_float(frac: Seq<char>, neg: bool, line: int, col: int)
    requires
        spec_is_float_literal(frac),
    ensures
        ({
            let text = if neg {
                seq!['-'] + frac
            } else {
                frac
            };
            let e = ExprModel::Scalar { line, col, value: PrimitiveModel::Float(text) };
            let reparsed = spec_parse_directive(spec_stringify(e));
            &&& reparsed is Ok
            &&& spec_similar(e, reparsed->Ok_0)
        }),
{
    let k = spec_first_dot(frac);
    crate::grammar::lemma_first_dot(frac);
    assert forall|j: int| 0 <= j < frac.len() implies spec_is_plain_char(
        #[trigger] frac[j],
    ) by {
        if j < k {
            assert(spec_is_digit(frac.take(k)[j]));
            lemma_digit_is_plain(frac[j]);
        } else if j == k {
            assert(frac[j] == '.');
        } else {
            assert(spec_is_digit(frac.skip(k + 1)[j - k - 1]));
            lemma_digit_is_plain(frac[j]);
        }
    }
    assert(frac.len() >= 2);
    let value_text = if neg {
        seq!['-'] + frac
    } else {
        frac
    };
    let e = ExprModel::Scalar { line, col, value: PrimitiveModel::Float(value_text) };
    let text = spec_stringify(e);
    assert(text == value_text);
    if neg {
        lemma_tokens_of_op_word('-', frac, 1, 1);
        let toks = spec_tokens(text, 1, 1);
        let t0 = toks[0];
        assert(t0.text == seq!['-']);
        assert(spec_unary_priority(t0.text) == Some(9int));
        let toks1 = toks.skip(1);
        assert(toks1 =~= seq![tok_normal(frac, 1, 2), tok_eof(1, 2 + frac.len() as int)]);
        assert(spec_read_number(frac) == Some(PrimitiveModel::Float(frac)));
        assert(spec_detect_positive_number(toks1[0]) == Some(PrimitiveModel::Float(frac)));
        assert(spec_negate(PrimitiveModel::Float(frac)) == PrimitiveModel::Float(value_text));
        let scalar = ExprModel::Scalar { line: 1, col: 1, value: PrimitiveModel::Float(value_text) };
        let rest = toks1.skip(1);
        assert(rest =~= seq![tok_eof(1, 2 + frac.len() as int)]);
        assert(spec_parse_primary(toks) == Ok::<
            (ExprModel, Seq<TokenModel>),
            crate::errors::ErrorModel,
        >((scalar, rest)));
        assert(rest.len() <= toks.len());
        lemma_expr_of_primary_at_eof(toks, 1, scalar, rest);
        assert(spec_parse_tokens(toks) == Ok::<ExprModel, crate::errors::ErrorModel>(scalar));
    } else {
        lemma_tokens_of_word(frac, 1, 1);
        let toks = spec_tokens(text, 1, 1);
        let t0 = toks[0];
        assert(!t0.eof && !t0.special && t0.text == frac);
        assert(spec_unary_priority(frac) is None);
        assert(spec_read_number(frac) == Some(PrimitiveModel::Float(frac)));
        let scalar = ExprModel::Scalar { line: 1, col: 1, value: PrimitiveModel::Float(frac) };
        let rest = toks.skip(1);
        assert(rest =~= seq![tok_eof(1, 1 + frac.len() as int)]);
        assert(spec_parse_primary(toks) == Ok::<
            (ExprModel, Seq<TokenModel>),
            crate::errors::ErrorModel,
        >((scalar, rest)));
        lemma_expr_of_primary_at_eof(toks, 1, scalar, rest);
        assert(spec_parse_tokens(toks) == Ok::<ExprModel, crate::errors::ErrorModel>(scalar));
    }
}

/// A plain word, an operator run, and a second plain word tokenize as
/// exactly three tokens, as long as the run does not end in a unary
/// operator character while being longer than one character (no operator
/// of the priority table does).
proof fn lemma_tokens_of_word_op_word(w1: Seq<char>, op: Seq<char>, w2: Seq<char>, line: int, col: int)
    requires
        w1.len() >= 1,
        forall|j: int| 0 <= j < w1.len() ==> spec_is_plain_char(#[trigger] w1[j]),
        op.len() >= 1,
        forall|j: int| 0 <= j < op.len() ==> spec_is_special_operator(#[trigger] op[j]),
        op.len() == 1 || !crate::tokenizer::spec_is_unary_char(op[op.len() - 1]),
        w2.len() >= 1,
        forall|j: int| 0 <= j < w2.len() ==> spec_is_plain_char(#[trigger] w2[j]),
    ensures
        spec_tokens(w1 + op + w2, line, col) == seq![
            tok_normal(w1, line, col),
            tok_special(op, line, col + w1.len()),
            tok_normal(w2, line, col + w1.len() + op.len()),
            tok_eof(line, col + w1.len() + op.len() + w2.len()),
        ],
{
    let t = w1 + op + w2;
    assert(t.len() == w1.len() + op.len() + w2.len());
    assert forall|j: int| 0 <= j < t.len() implies #[trigger] t[j] == (if j < w1.len() {
        w1[j]
    } else if j < w1.len() + op.len() {
        op[j - w1.len()]
    } else {
        w2[j - w1.len() - op.len()]
    }) by {
        if j < w1.len() {
            assert((w1 + op)[j] == w1[j]);
        } else if j < w1.len() + op.len() {
            assert((w1 + op)[j] == op[j - w1.len()]);
        }
    }
    // The leading word is one maximal `Normal` run.
    assert(spec_is_plain_char(t[0]));
    crate::tokenizer::lemma_normal_run_is_scan(t.skip(1), w1.len() - 1);
    assert(t.take(w1.len() as int) =~= w1);
    // Then the operator run, maximal and unsplit.
    let t2 = t.skip(w1.len() as int);
    assert(t2.len() == op.len() + w2.len());
    assert forall|j: int| 0 <= j < t2.len() implies #[trigger] t2[j] == (if j < op.len() {
        op[j]
    } else {
        w2[j - op.len()]
    }) by {
        assert(t2[j] == t[j + w1.len()]);
    }
    assert(spec_is_special_operator(t2[0]));
    crate::tokenizer::lemma_op_run_is_scan(t2.skip(1), op.len() - 1);
    assert(t2.take(op.len() as int) =~= op);
    // Then the trailing word alone.
    let t3 = t2.skip(op.len() as int);
    assert(t3 =~= w2);
    lemma_tokens_of_word(w2, line, col + w1.len() + op.len());
    let n2 = 1 + crate::tokenizer::op_run_len(t2.skip(1)) as int;
    assert(n2 == op.len());
    if n2 > 1 {
        assert(t2.take(n2)[n2 - 1] == op[op.len() - 1]);
        assert(!crate::tokenizer::spec_is_unary_char(t2.take(n2)[n2 - 1]));
    }
    assert(spec_tokens(t2, line, col + w1.len()) =~= seq![
        tok_special(op, line, col + w1.len()),
        tok_normal(w2, line, col + w1.len() + op.len()),
        tok_eof(line, col + w1.len() + op.len() + w2.len()),
    ]);
    assert(spec_tokens(t, line, col) =~= seq![
        tok_normal(w1, line, col),
        tok_special(op, line, col + w1.len()),
        tok_normal(w2, line, col + w1.len() + op.len()),
        tok_eof(line, col + w1.len() + op.len() + w2.len()),
    ]);
}

/// A lone `Normal` word, directly before the final `Eof`, parses as a
/// bare command: no sub-name, no arguments, no series.
proof fn lemma_directive_of_bare_name(t: TokenModel, t2: TokenModel)
    requires
        !t.eof,
        !t.special,
        t.text.len() >= 1,
        forall|j: int| 0 <= j < t.text.len() ==> t.text[j] != '.',
        t.text != seq!['('],
        t2.eof,
    ensures
        spec_parse_primary_directive(seq![t, t2]) == Ok::<
            (ExprModel, Seq<TokenModel>),
            crate::errors::ErrorModel,
        >(
            (
                ExprModel::Command(
                    CommandModel {
                        line: t.line,
                        col: t.col,
                        name: t.text,
                        sub: None,
                        args: Seq::empty(),
                        series: Seq::empty(),
                    },
                ),
                seq![t2],
            ),
        ),
{
    let toks = seq![t, t2];
    assert(!crate::grammar::tm_is(toks[0], seq!['(']));
    crate::grammar::lemma_first_dot_scan(t.text, t.text.len() as int);
    let toks1 = toks.skip(1);
    assert(toks1 =~= seq![t2]);
    assert(spec_parse_command(toks) == Ok::<
        (ExprModel, Seq<TokenModel>),
        crate::errors::ErrorModel,
    >(
        (
            ExprModel::Command(
                CommandModel {
                    line: t.line,
                    col: t.col,
                    name: t.text,
                    sub: None,
                    args: Seq::empty(),
                    series: Seq::empty(),
                },
            ),
            seq![t2],
        ),
    ));
}

/// The round trip, for a unary application over a bare command: `-close`
/// or `~flag` renders as the operator text before the name, and parses
/// back to a structurally equal unary application, since no literal
/// follows the operator and nothing folds.
pub proof fn lemma_round_trip_unary_command(op: char, name: Seq<char>, line: int, col: int)
    requires
        op == '-' || op == '~',
        spec_is_bare_name(name),
        spec_read_number(name) is None,
    ensures
        ({
            let e = ExprModel::Unary {
                line,
                col,
                operator: OperatorModel { line, col, name: seq![op], priority: 9 },
                expression: Box::new(
                    ExprModel::Command(
                        CommandModel {
                            line,
                            col,
                            name,
                            sub: None,
                            args: Seq::empty(),
                            series: Seq::empty(),
                        },
                    ),
                ),
            };
            let reparsed = spec_parse_directive(spec_stringify(e));
            &&& reparsed is Ok
            &&& spec_similar(e, reparsed->Ok_0)
        }),
{
    let inner = CommandModel {
        line,
        col,
        name,
        sub: None,
        args: Seq::empty(),
        series: Seq::empty(),
    };
    let e = ExprModel::Unary {
        line,
        col,
        operator: OperatorModel { line, col, name: seq![op], priority: 9 },
        expression: Box::new(ExprModel::Command(inner)),
    };
    let text = spec_stringify(e);
    assert(spec_stringify_command(inner) =~= name);
    assert(spec_stringify(ExprModel::Command(inner)) == spec_stringify_command(inner));
    assert(text == seq![op] + name);
    lemma_tokens_of_op_word(op, name, 1, 1);
    let toks = spec_tokens(text, 1, 1);
    let t0 = toks[0];
    assert(t0 == tok_special(seq![op], 1, 1));
    assert(spec_unary_priority(seq![op]) == Some(9int));
    let toks1 = toks.skip(1);
    let tname = tok_normal(name, 1, 2);
    let teof = tok_eof(1, 2 + name.len() as int);
    assert(toks1 =~= seq![tname, teof]);
    assert(spec_detect_positive_number(toks1[0]) is None);
    assert(name != seq!['(']) by {
        if name == seq!['('] {
            assert(spec_is_special_single(name[0]));
        }
    }
    lemma_directive_of_bare_name(tname, teof);
    let parsed_inner = ExprModel::Command(
        CommandModel {
            line: 1,
            col: 2,
            name,
            sub: None,
            args: Seq::empty(),
            series: Seq::empty(),
        },
    );
    let parsed = ExprModel::Unary {
        line: 1,
        col: 1,
        operator: OperatorModel { line: 1, col: 1, name: seq![op], priority: 9 },
        expression: Box::new(parsed_inner),
    };
    let rest = seq![teof];
    assert(spec_parse_primary(toks) == Ok::<
        (ExprModel, Seq<TokenModel>),
        crate::errors::ErrorModel,
    >((parsed, rest)));
    assert(rest.len() <= toks.len());
    lemma_expr_of_primary_at_eof(toks, 1, parsed, rest);
    assert(spec_parse_tokens(toks) == Ok::<ExprModel, crate::errors::ErrorModel>(parsed));
    assert(spec_parse_directive(text) == Ok::<ExprModel, crate::errors::ErrorModel>(parsed));
    assert(crate::types::spec_similar_series_seq(Seq::empty(), Seq::empty()));
    assert(crate::types::spec_similar_command(inner, parsed_inner->Command_0));
    assert(spec_similar(ExprModel::Command(inner), parsed_inner));
    assert(spec_similar(e, parsed));
}

/// The round trip, for a bare command: a command with no sub-name, no
/// arguments and no series renders as its name alone, and that name parses
/// back to a structurally equal command. The name must be what a parsed
/// command's bare name can be: one nonempty `Normal` word without a dot
/// that the grammar does not read as a number.
pub proof fn lemma_round_trip_bare_command(name: Seq<char>, line: int, col: int)
    requires
        spec_is_bare_name(name),
        spec_read_number(name) is None,
    ensures
        ({
            let e = ExprModel::Command(
                CommandModel {
                    line,
                    col,
                    name,
                    sub: None,
                    args: Seq::empty(),
                    series: Seq::empty(),
                },
            );
            let reparsed = spec_parse_directive(spec_stringify(e));
            &&& reparsed is Ok
            &&& spec_similar(e, reparsed->Ok_0)
        }),
{
    let c = CommandModel {
        line,
        col,
        name,
        sub: None,
        args: Seq::empty(),
        series: Seq::empty(),
    };
    let e = ExprModel::Command(c);
    let text = spec_stringify(e);
    assert(spec_stringify_command(c) =~= name);
    assert(text == spec_stringify_command(c));
    lemma_tokens_of_word(name, 1, 1);
    let toks = spec_tokens(name, 1, 1);
    let t0 = toks[0];
    assert(!t0.eof && !t0.special && t0.text == name);
    assert(spec_unary_priority(name) is None) by {
        if name.len() == 1 && (name[0] == '-' || name[0] == '~') {
            assert(spec_is_special_operator(name[0]));
        }
    }
    assert(!crate::grammar::tm_is(t0, seq!['('])) by {
        if name == seq!['('] {
            assert(spec_is_special_single(name[0]));
        }
    }
    crate::grammar::lemma_first_dot_scan(name, name.len() as int);
    let parsed = ExprModel::Command(
        CommandModel {
            line: 1,
            col: 1,
            name,
            sub: None,
            args: Seq::empty(),
            series: Seq::empty(),
        },
    );
    let rest = toks.skip(1);
    assert(rest =~= seq![tok_eof(1, 1 + name.len() as int)]);
    assert(spec_parse_primary(toks) == Ok::<
        (ExprModel, Seq<TokenModel>),
        crate::errors::ErrorModel,
    >((parsed, rest)));
    lemma_expr_of_primary_at_eof(toks, 1, parsed, rest);
    assert(spec_parse_tokens(toks) == Ok::<ExprModel, crate::errors::ErrorModel>(parsed));
    assert(spec_parse_directive(text) == Ok::<ExprModel, crate::errors::ErrorModel>(parsed));
    assert(crate::types::spec_similar_series_seq(Seq::empty(), Seq::empty()));
    assert(crate::types::spec_similar_command(c, parsed->Command_0));
    assert(spec_similar(e, parsed));
}

/// The text of an operator in the priority table: one or two operator
/// characters, never ending in a unary operator character when two.
proof fn lemma_operator_text_shape(opname: Seq<char>)
    requires
        spec_operator_priority(opname) is Some,
    ensures
        1 <= opname.len() <= 2,
        forall|j: int| 0 <= j < opname.len() ==> spec_is_special_operator(
            #[trigger] opname[j]),
        opname.len() == 1 || !crate::tokenizer::spec_is_unary_char(opname[opname.len() - 1]),
        1 <= spec_operator_priority(opname)->Some_0 <= 8,
{
    assert forall|j: int| 0 <= j < opname.len() implies spec_is_special_operator(
        #[trigger] opname[j]) by {
        if opname.len() == 1 {
            assert(j == 0);
        } else {
            assert(j == 0 || j == 1);
        }
    }
}

/// What a bare command name can be: one nonempty word of plain characters.
pub open spec fn spec_is_bare_name(name: Seq<char>) -> bool {
    &&& name.len() >= 1
    &&& (forall|j: int| 0 <= j < name.len() ==> spec_is_plain_char(#[trigger] name[j]))
    &&& (forall|j: int| 0 <= j < name.len() ==> name[j] != '.')
}

/// A bare-name token with anything after it that is neither `:` nor `@`
/// parses as a primary expression: the bare command.
proof fn lemma_primary_of_bare_name(t: TokenModel, rest: Seq<TokenModel>)
    requires
        !t.eof,
        !t.special,
        spec_is_bare_name(t.text),
        spec_read_number(t.text) is None,
        rest.len() >= 1,
        !tm_is(rest[0], seq![':']),
        !tm_is(rest[0], seq!['@']),
    ensures
        spec_parse_primary(seq![t] + rest) == Ok::<
            (ExprModel, Seq<TokenModel>),
            crate::errors::ErrorModel,
        >(
            (
                ExprModel::Command(
                    CommandModel {
                        line: t.line,
                        col: t.col,
                        name: t.text,
                        sub: None,
                        args: Seq::empty(),
                        series: Seq::empty(),
                    },
                ),
                rest,
            ),
        ),
{
    let toks = seq![t] + rest;
    assert(toks[0] == t);
    assert(toks.skip(1) =~= rest);
    assert(spec_unary_priority(t.text) is None) by {
        if t.text.len() == 1 && (t.text[0] == '-' || t.text[0] == '~') {
            assert(spec_is_special_operator(t.text[0]));
        }
    }
    assert(!tm_is(toks[0], seq!['('])) by {
        if t.text == seq!['('] {
            assert(spec_is_special_single(t.text[0]));
        }
    }
    crate::grammar::lemma_first_dot_scan(t.text, t.text.len() as int);
    assert(spec_parse_command(toks) == Ok::<
        (ExprModel, Seq<TokenModel>),
        crate::errors::ErrorModel,
    >(
        (
            ExprModel::Command(
                CommandModel {
                    line: t.line,
                    col: t.col,
                    name: t.text,
                    sub: None,
                    args: Seq::empty(),
                    series: Seq::empty(),
                },
            ),
            rest,
        ),
    ));
}

/// Below its own priority, an operator stops the climb: the left operand
/// passes through every tighter level untouched.
proof fn lemma_expr_left_passthrough(
    toks: Seq<TokenModel>,
    r: int,
    e: ExprModel,
    rest: Seq<TokenModel>,
    p_op: int,
)
    requires
        spec_parse_primary(toks) == Ok::<(ExprModel, Seq<TokenModel>), crate::errors::ErrorModel>(
            (e, rest),
        ),
        rest.len() >= 1,
        rest.len() <= toks.len(),
        rest[0].special,
        !rest[0].eof,
        spec_operator_priority(rest[0].text) == Some(p_op),
        p_op < r <= 9,
    ensures
        spec_parse_expression(toks, r) == Ok::<
            (ExprModel, Seq<TokenModel>),
            crate::errors::ErrorModel,
        >((e, rest)),
    decreases 9 - r,
{
    if r <= 8 {
        lemma_expr_left_passthrough(toks, r + 1, e, rest, p_op);
        assert(spec_parse_binary_rest(e, rest, r) == Ok::<
            (ExprModel, Seq<TokenModel>),
            crate::errors::ErrorModel,
        >((e, rest)));
    }
}

/// The climb over one binary application of two bare commands, from any
/// level at or below the operator's priority.
proof fn lemma_expr_of_bare_binary(
    t1: TokenModel,
    top: TokenModel,
    t2: TokenModel,
    teof: TokenModel,
    q: int,
    p_op: int,
)
    requires
        !t1.eof,
        !t1.special,
        spec_is_bare_name(t1.text),
        spec_read_number(t1.text) is None,
        top.special,
        !top.eof,
        spec_operator_priority(top.text) == Some(p_op),
        1 <= p_op <= 8,
        !t2.eof,
        !t2.special,
        spec_is_bare_name(t2.text),
        spec_read_number(t2.text) is None,
        teof.eof,
        1 <= q <= p_op,
    ensures
        ({
            let cmd1 = ExprModel::Command(
                CommandModel {
                    line: t1.line,
                    col: t1.col,
                    name: t1.text,
                    sub: None,
                    args: Seq::empty(),
                    series: Seq::empty(),
                },
            );
            let cmd2 = ExprModel::Command(
                CommandModel {
                    line: t2.line,
                    col: t2.col,
                    name: t2.text,
                    sub: None,
                    args: Seq::empty(),
                    series: Seq::empty(),
                },
            );
            let folded = ExprModel::Binary {
                line: t1.line,
                col: t1.col,
                operator: OperatorModel {
                    line: top.line,
                    col: top.col,
                    name: top.text,
                    priority: p_op,
                },
                left: Box::new(cmd1),
                right: Box::new(cmd2),
            };
            spec_parse_expression(seq![t1, top, t2, teof], q) == Ok::<
                (ExprModel, Seq<TokenModel>),
                crate::errors::ErrorModel,
            >((folded, seq![teof]))
        }),
    decreases p_op - q,
{
    let toks = seq![t1, top, t2, teof];
    let rest1 = seq![top, t2, teof];
    let cmd1 = ExprModel::Command(
        CommandModel {
            line: t1.line,
            col: t1.col,
            name: t1.text,
            sub: None,
            args: Seq::empty(),
            series: Seq::empty(),
        },
    );
    let cmd2 = ExprModel::Command(
        CommandModel {
            line: t2.line,
            col: t2.col,
            name: t2.text,
            sub: None,
            args: Seq::empty(),
            series: Seq::empty(),
        },
    );
    let folded = ExprModel::Binary {
        line: t1.line,
        col: t1.col,
        operator: OperatorModel {
            line: top.line,
            col: top.col,
            name: top.text,
            priority: p_op,
        },
        left: Box::new(cmd1),
        right: Box::new(cmd2),
    };
    if q < p_op {
        lemma_expr_of_bare_binary(t1, top, t2, teof, q + 1, p_op);
        assert(spec_parse_binary_rest(folded, seq![teof], q) == Ok::<
            (ExprModel, Seq<TokenModel>),
            crate::errors::ErrorModel,
        >((folded, seq![teof])));
    } else {
        assert(!tm_is(rest1[0], seq![':'])) by {
            if top.text == seq![':'] {
                assert(spec_operator_priority(seq![':']) is None);
            }
        }
        assert(!tm_is(rest1[0], seq!['@'])) by {
            if top.text == seq!['@'] {
                assert(spec_operator_priority(seq!['@']) is None);
            }
        }
        assert(seq![t1] + rest1 =~= toks);
        lemma_primary_of_bare_name(t1, rest1);
        lemma_expr_left_passthrough(toks, q + 1, cmd1, rest1, p_op);
        assert(rest1.skip(1) =~= seq![t2, teof]);
        assert(seq![t2] + seq![teof] =~= seq![t2, teof]);
        lemma_primary_of_bare_name(t2, seq![teof]);
        lemma_expr_of_primary_at_eof(seq![t2, teof], q + 1, cmd2, seq![teof]);
        assert(cmd1.line() == t1.line && cmd1.col() == t1.col);
        assert(spec_parse_binary_rest(cmd1, rest1, q) == Ok::<
            (ExprModel, Seq<TokenModel>),
            crate::errors::ErrorModel,
        >((folded, seq![teof]))) by {
            assert(spec_parse_binary_rest(folded, seq![teof], q) == Ok::<
                (ExprModel, Seq<TokenModel>),
                crate::errors::ErrorModel,
            >((folded, seq![teof])));
        }
    }
}

/// The round trip, for one binary application over two bare commands:
/// `close > ma` renders as the two names around the bare operator text and
/// parses back to a structurally equal application, whatever the
/// operator's priority.
pub proof fn lemma_round_trip_binary_commands(
    opname: Seq<char>,
    name1: Seq<char>,
    name2: Seq<char>,
    line: int,
    col: int,
)
    requires
        spec_operator_priority(opname) is Some,
        spec_is_bare_name(name1),
        spec_read_number(name1) is None,
        spec_is_bare_name(name2),
        spec_read_number(name2) is None,
    ensures
        ({
            let p_op = spec_operator_priority(opname)->Some_0;
            let e = ExprModel::Binary {
                line,
                col,
                operator: OperatorModel { line, col, name: opname, priority: p_op },
                left: Box::new(
                    ExprModel::Command(
                        CommandModel {
                            line,
                            col,
                            name: name1,
                            sub: None,
                            args: Seq::empty(),
                            series: Seq::empty(),
                        },
                    ),
                ),
                right: Box::new(
                    ExprModel::Command(
                        CommandModel {
                            line,
                            col,
                            name: name2,
                            sub: None,
                            args: Seq::empty(),
                            series: Seq::empty(),
                        },
                    ),
                ),
            };
            let reparsed = spec_parse_directive(spec_stringify(e));
            &&& reparsed is Ok
            &&& spec_similar(e, reparsed->Ok_0)
        }),
{
    let p_op = spec_operator_priority(opname)->Some_0;
    lemma_operator_text_shape(opname);
    let inner1 = CommandModel {
        line,
        col,
        name: name1,
        sub: None,
        args: Seq::empty(),
        series: Seq::empty(),
    };
    let inner2 = CommandModel {
        line,
        col,
        name: name2,
        sub: None,
        args: Seq::empty(),
        series: Seq::empty(),
    };
    let e = ExprModel::Binary {
        line,
        col,
        operator: OperatorModel { line, col, name: opname, priority: p_op },
        left: Box::new(ExprModel::Command(inner1)),
        right: Box::new(ExprModel::Command(inner2)),
    };
    let text = spec_stringify(e);
    assert(spec_stringify_command(inner1) =~= name1);
    assert(spec_stringify_command(inner2) =~= name2);
    assert(spec_stringify(ExprModel::Command(inner1)) == spec_stringify_command(inner1));
    assert(spec_stringify(ExprModel::Command(inner2)) == spec_stringify_command(inner2));
    assert(text == name1 + opname + name2);
    lemma_tokens_of_word_op_word(name1, opname, name2, 1, 1);
    let toks = spec_tokens(text, 1, 1);
    let t1 = tok_normal(name1, 1, 1);
    let top = tok_special(opname, 1, 1 + name1.len() as int);
    let t2 = tok_normal(name2, 1, 1 + name1.len() as int + opname.len() as int);
    let teof = tok_eof(
        1,
        1 + name1.len() as int + opname.len() as int + name2.len() as int,
    );
    assert(toks == seq![t1, top, t2, teof]);
    lemma_expr_of_bare_binary(t1, top, t2, teof, 1, p_op);
    let parsed_1 = ExprModel::Command(
        CommandModel {
            line: t1.line,
            col: t1.col,
            name: name1,
            sub: None,
            args: Seq::empty(),
            series: Seq::empty(),
        },
    );
    let parsed_2 = ExprModel::Command(
        CommandModel {
            line: t2.line,
            col: t2.col,
            name: name2,
            sub: None,
            args: Seq::empty(),
            series: Seq::empty(),
        },
    );
    let parsed = ExprModel::Binary {
        line: t1.line,
        col: t1.col,
        operator: OperatorModel {
            line: top.line,
            col: top.col,
            name: opname,
            priority: p_op,
        },
        left: Box::new(parsed_1),
        right: Box::new(parsed_2),
    };
    assert(spec_parse_tokens(toks) == Ok::<ExprModel, crate::errors::ErrorModel>(parsed));
    assert(spec_parse_directive(text) == Ok::<ExprModel, crate::errors::ErrorModel>(parsed));
    assert(crate::types::spec_similar_series_seq(Seq::empty(), Seq::empty()));
    assert(crate::types::spec_similar_command(inner1, parsed_1->Command_0));
    assert(crate::types::spec_similar_command(inner2, parsed_2->Command_0));
    assert(spec_similar(ExprModel::Command(inner1), parsed_1));
    assert(spec_similar(ExprModel::Command(inner2), parsed_2));
    assert(spec_similar(e, parsed));
}

} // verus!
