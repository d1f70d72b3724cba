//! Recursive-descent, precedence-climbing parser for directive syntax.
//!
//! [`Parser::parse`] is proved to return, for every input, exactly what the
//! mathematical grammar in [`crate::grammar`] says: the same tree on
//! success, the same located error on failure.

use vstd::prelude::*;
use vstd::string::*;
use crate::tokenizer::{Loc, Token, TokenKind, Tokenizer, TokenModel, spec_tokens,
    lemma_spec_tokens_shape};
use crate::types::{ArgumentModel, ArgumentNode, CommandModel, CommandNode, ExpressionNode,
    ExprModel, OperatorModel, OperatorNode, Primitive, PrimitiveModel, ScalarNode,
    SeriesArgumentNode, view_series_seq};
use crate::errors::{DirectiveError, DirectiveErrorModel, DirectiveResult, ErrorModel,
    MessageModel, SyntaxMessage};
use crate::grammar::{err_at, spec_detect_number, spec_detect_positive_number,
    spec_first_dot, spec_is_digit, spec_is_float_literal, spec_is_int_literal, spec_negate,
    spec_operator_priority, spec_parse_args, spec_parse_binary_rest, spec_parse_command,
    spec_parse_directive, spec_parse_expression, spec_parse_primary,
    spec_parse_primary_directive, spec_parse_series, spec_parse_tokens, spec_parse_wrapped,
    spec_read_number, spec_split_name, spec_unary_priority, spec_all_digits, spec_digits_val,
    lemma_first_dot, lemma_first_dot_scan, tm_is};

verus! {

/// A binary or unary operator's place in the fixed priority table.
#[derive(Debug, Clone, Copy)]
pub struct OperatorInfo {
    pub priority: i32,
}

/// Priority of a binary operator, straight from the fixed table.
pub fn get_operator_info(name: &str) -> (r: Option<OperatorInfo>)
    ensures
        match r {
            Some(info) => spec_operator_priority(name@) == Some(info.priority as int),
            None => spec_operator_priority(name@) is None,
        },
{
    let n = name.unicode_len();
    if n == 1 {
        let c = name.get_char(0);
        if c == '|' {
            Some(OperatorInfo { priority: 1 })
        } else if c == '^' {
            Some(OperatorInfo { priority: 2 })
        } else if c == '&' {
            Some(OperatorInfo { priority: 3 })
        } else if c == '<' || c == '>' {
            Some(OperatorInfo { priority: 4 })
        } else if c == '\\' {
            Some(OperatorInfo { priority: 6 })
        } else if c == '+' || c == '-' {
            Some(OperatorInfo { priority: 7 })
        } else if c == '*' || c == '/' {
            Some(OperatorInfo { priority: 8 })
        } else {
            None
        }
    } else if n == 2 {
        let c0 = name.get_char(0);
        let c1 = name.get_char(1);
        if (c0 == '<' && c1 == '=') || (c0 == '>' && c1 == '=') {
            Some(OperatorInfo { priority: 4 })
        } else if (c0 == '=' && c1 == '=') || (c0 == '!' && c1 == '=') {
            Some(OperatorInfo { priority: 5 })
        } else if (c0 == '/' && c1 == '/') || (c0 == '>' && c1 == '<') {
            Some(OperatorInfo { priority: 6 })
        } else {
            None
        }
    } else {
        None
    }
}

/// Priority of a unary operator (`-` or `~`).
pub fn get_unary_operator_info(name: &str) -> (r: Option<OperatorInfo>)
    ensures
        match r {
            Some(info) => spec_unary_priority(name@) == Some(info.priority as int),
            None => spec_unary_priority(name@) is None,
        },
{
    let n = name.unicode_len();
    if n == 1 {
        let c = name.get_char(0);
        if c == '-' || c == '~' {
            Some(OperatorInfo { priority: 9 })
        } else {
            None
        }
    } else {
        None
    }
}

/// A one-character string, for the handful of characters the grammar ever
/// has to name in a message.
fn char_string(c: char) -> (r: String)
    requires
        c == '(' || c == ')' || c == ':' || c == ',' || c == '@' || c == '-' || c == '~',
    ensures
        r@ == seq![c],
{
    proof {
        reveal_strlit("(");
        reveal_strlit(")");
        reveal_strlit(":");
        reveal_strlit(",");
        reveal_strlit("@");
        reveal_strlit("-");
        reveal_strlit("~");
    }
    let s = if c == '(' {
        "("
    } else if c == ')' {
        ")"
    } else if c == ':' {
        ":"
    } else if c == ',' {
        ","
    } else if c == '@' {
        "@"
    } else if c == '-' {
        "-"
    } else {
        "~"
    };
    proof {
        assert(s@ =~= seq![c]);
    }
    String::from_str(s)
}

// ---------------------------------------------------------------------------
// Scanning a token's text as a number
// ---------------------------------------------------------------------------

proof fn lemma_digits_val_nonneg(s: Seq<char>)
    requires
        spec_all_digits(s),
    ensures
        spec_digits_val(s) >= 0,
    decreases s.len(),
{
    if s.len() > 0 {
        assert(spec_all_digits(s.drop_last()));
        lemma_digits_val_nonneg(s.drop_last());
    }
}

/// The value of a digit string is at least the value of any of its
/// prefixes.
proof fn lemma_digits_val_prefix_le(s: Seq<char>, k: int)
    requires
        spec_all_digits(s),
        0 <= k <= s.len(),
    ensures
        spec_digits_val(s.take(k)) <= spec_digits_val(s),
    decreases s.len(),
{
    if k == s.len() {
        assert(s.take(k) =~= s);
    } else {
        assert(spec_all_digits(s.drop_last()));
        assert(s.take(k) =~= s.drop_last().take(k));
        lemma_digits_val_prefix_le(s.drop_last(), k);
        lemma_digits_val_nonneg(s.drop_last());
    }
}

/// Index of the first `.` of `text`, or its length if it has none.
fn find_dot(text: &str) -> (r: usize)
    ensures
        r == spec_first_dot(text@),
{
    let n = text.unicode_len();
    let mut i: usize = 0;
    while i < n && text.get_char(i) != '.'
        invariant
            0 <= i <= n,
            n == text@.len(),
            forall|j: int| 0 <= j < i ==> text@[j] != '.',
        decreases n - i,
    {
        i = i + 1;
    }
    proof {
        lemma_first_dot_scan(text@, i as int);
    }
    i
}

fn is_digit_char(c: char) -> (r: bool)
    ensures
        r == spec_is_digit(c),
{
    c as u32 >= 48 && c as u32 <= 57
}

/// Are the characters of `text` in `[from, to)` all digits?
fn all_digits_in(text: &str, from: usize, to: usize) -> (r: bool)
    requires
        from <= to <= text@.len(),
    ensures
        r == (forall|j: int| from <= j < to ==> spec_is_digit(#[trigger] text@[j])),
{
    let mut i: usize = from;
    while i < to && is_digit_char(text.get_char(i))
        invariant
            from <= i <= to <= text@.len(),
            forall|j: int| from <= j < i ==> spec_is_digit(#[trigger] text@[j]),
        decreases to - i,
    {
        i = i + 1;
    }
    if i == to {
        true
    } else {
        proof {
            assert(!spec_is_digit(text@[i as int]));
        }
        false
    }
}

/// Read `text` as the digits of a nonnegative `i64`; `None` when some
/// character is not a digit, the text is empty, or the value does not fit.
fn parse_int_digits(text: &str) -> (r: Option<i64>)
    requires
        spec_all_digits(text@),
        text@.len() >= 1,
    ensures
        match r {
            Some(v) => v >= 0 && v as int == spec_digits_val(text@) && spec_digits_val(text@)
                <= i64::MAX,
            None => spec_digits_val(text@) > i64::MAX,
        },
{
    let n = text.unicode_len();
    let mut acc: u64 = 0;
    let mut i: usize = 0;
    while i < n
        invariant
            0 <= i <= n,
            n == text@.len(),
            spec_all_digits(text@),
            acc as int == spec_digits_val(text@.take(i as int)),
            acc <= i64::MAX as u64,
        decreases n - i,
    {
        let c = text.get_char(i);
        proof {
            assert(spec_is_digit(text@[i as int]));
        }
        let d: u64 = (c as u32 - 48) as u64;
        if acc > (i64::MAX as u64 - d) / 10 {
            proof {
                assert(acc * 10 + d > i64::MAX) by (nonlinear_arith)
                    requires
                        acc > (i64::MAX as u64 - d) / 10,
                        d <= 9,
                ;
                assert(text@.take(i as int + 1).drop_last() =~= text@.take(i as int));
                assert(spec_digits_val(text@.take(i as int + 1)) == acc * 10 + d);
                lemma_digits_val_prefix_le(text@, i as int + 1);
            }
            return None;
        }
        proof {
            assert(acc * 10 + d <= i64::MAX) by (nonlinear_arith)
                requires
                    acc <= (i64::MAX as u64 - d) / 10,
                    d <= 9,
            ;
            assert(text@.take(i as int + 1).drop_last() =~= text@.take(i as int));
        }
        acc = acc * 10 + d;
        i = i + 1;
    }
    proof {
        assert(text@.take(n as int) =~= text@);
    }
    Some(acc as i64)
}

/// Read a token's text as a nonnegative numeric literal: digits with a dot
/// and fraction make a float (kept as text), plain digits that fit make an
/// `i64`, anything else is not a number.
fn read_numeric(text: &str) -> (r: Option<Primitive>)
    ensures
        match r {
            Some(p) => spec_read_number(text@) == Some(p@) && (p@ matches
                crate::types::PrimitiveModel::Int(i) ==> 0 <= i <= i64::MAX),
            None => spec_read_number(text@) is None,
        },
{
    let n = text.unicode_len();
    let dot = find_dot(text);
    proof {
        lemma_first_dot(text@);
    }
    if dot < n {
        if dot + 1 >= n {
            proof {
                assert(!spec_is_digit('.'));
            }
            return None;
        }
        if all_digits_in(text, 0, dot) && all_digits_in(text, dot + 1, n) {
            proof {
                assert forall|j: int| 0 <= j < text@.take(dot as int).len() implies
                    spec_is_digit(#[trigger] text@.take(dot as int)[j]) by {
                    assert(text@.take(dot as int)[j] == text@[j]);
                }
                assert forall|j: int| 0 <= j < text@.skip(dot as int + 1).len() implies
                    spec_is_digit(#[trigger] text@.skip(dot as int + 1)[j]) by {
                    assert(text@.skip(dot as int + 1)[j] == text@[j + dot + 1]);
                }
            }
            Some(Primitive::Float(String::from_str(text)))
        } else {
            proof {
                if spec_is_float_literal(text@) {
                    assert(spec_all_digits(text@.take(dot as int)));
                    assert(spec_all_digits(text@.skip(dot as int + 1)));
                    assert forall|j: int| 0 <= j < dot implies spec_is_digit(
                        #[trigger] text@[j]) by {
                        assert(text@.take(dot as int)[j] == text@[j]);
                    }
                    assert forall|j: int| dot + 1 <= j < n implies spec_is_digit(
                        #[trigger] text@[j]) by {
                        assert(text@.skip(dot as int + 1)[j - dot - 1] == text@[j]);
                    }
                }
                if spec_is_int_literal(text@) {
                    assert(spec_is_digit(text@[dot as int]));
                    assert(!spec_is_digit('.'));
                }
            }
            None
        }
    } else {
        if n == 0 {
            return None;
        }
        if all_digits_in(text, 0, n) {
            match parse_int_digits(text) {
                Some(v) => Some(Primitive::Int(v)),
                None => None,
            }
        } else {
            None
        }
    }
}

// ---------------------------------------------------------------------------
// The parser state
// ---------------------------------------------------------------------------

/// Parser over the token stream of one directive string.
///
/// The whole stream is read ahead of time; the cursor walks forward one
/// token per step and can step back once, which is all the backtracking the
/// grammar needs (a `-` read as a number sign that turned out not to be
/// one).
pub struct Parser {
    tokens: Vec<Token>,
    pos: usize,
}

impl Parser {
    /// All tokens of the input, as models.
    closed spec fn toks(self) -> Seq<TokenModel> {
        self.tokens@.map_values(|t: Token| t@)
    }

    /// The cursor is inside the stream, the stream ends with its only
    /// `Eof`, and every other token has text.
    pub closed spec fn wf(self) -> bool {
        &&& self.pos < self.tokens.len()
        &&& self.toks().len() >= 1
        &&& self.toks().last().eof
        &&& forall|j: int| 0 <= j < self.toks().len() - 1 ==> !(#[trigger] self.toks()[j]).eof
            && self.toks()[j].text.len() >= 1
    }

    /// The tokens not yet consumed, beginning with the current token.
    pub closed spec fn rest(self) -> Seq<TokenModel> {
        self.toks().skip(self.pos as int)
    }

    pub fn new(input: &str) -> (p: Parser)
        requires
            input@.len() < usize::MAX,
        ensures
            p.wf(),
            p.rest() == spec_tokens(input@, 1, 1),
    {
        let ghost full = spec_tokens(input@, 1, 1);
        proof {
            lemma_spec_tokens_shape(input@, 1, 1);
        }
        let mut tokenizer = Tokenizer::new(input);
        let mut tokens: Vec<Token> = Vec::new();
        let mut t = tokenizer.next();
        proof {
            if t@.eof {
                assert(full.len() == 1);
                assert(Seq::<TokenModel>::empty() + seq![t@]
                    + Seq::<TokenModel>::empty() =~= full);
            } else {
                assert(Seq::<TokenModel>::empty() + seq![t@] + tokenizer.stream() =~= full);
            }
        }
        while !t.is_eof()
            invariant
                full == spec_tokens(input@, 1, 1),
                tokenizer.wf(),
                tokens@.map_values(|tk: Token| tk@) + seq![t@] + (if t@.eof {
                    Seq::<TokenModel>::empty()
                } else {
                    tokenizer.stream()
                }) == full,
                forall|j: int| 0 <= j < tokens@.len() ==> !(#[trigger] tokens@[j])@.eof,
            decreases tokenizer.stream().len() + (if t@.eof { 0int } else { 1int }),
        {
            let ghost pre = tokens@.map_values(|tk: Token| tk@);
            let ghost s_old = tokenizer.stream();
            tokens.push(t);
            proof {
                assert(tokens@.map_values(|tk: Token| tk@) =~= pre + seq![t@]);
            }
            t = tokenizer.next();
            proof {
                lemma_spec_tokens_shape(input@, 1, 1);
                let map2 = tokens@.map_values(|tk: Token| tk@);
                if t@.eof {
                    // The suffix that begins with this `Eof` is the final
                    // token of the stream, so nothing follows it.
                    assert(s_old == full.skip(pre.len() as int + 1)) by {
                        assert(pre + seq![map2[pre.len() as int]] + s_old == full);
                        assert(s_old =~= full.skip(pre.len() as int + 1));
                    }
                    if pre.len() + 1 < full.len() - 1 {
                        assert(!spec_tokens(input@, 1, 1)[pre.len() as int + 1].eof);
                    }
                    assert(s_old.len() == 1);
                    assert(map2 + seq![t@] + Seq::<TokenModel>::empty() =~= full);
                } else {
                    assert(seq![t@] + tokenizer.stream() =~= s_old);
                    assert(map2 + seq![t@] + tokenizer.stream() =~= full);
                }
            }
        }
        tokens.push(t);
        proof {
            assert(tokens@.map_values(|tk: Token| tk@) =~= full);
        }
        let p = Parser { tokens, pos: 0 };
        proof {
            assert(p.rest() =~= full);
        }
        p
    }

    fn cur_is_eof(&self) -> (r: bool)
        requires
            self.wf(),
        ensures
            r == self.rest()[0].eof,
    {
        self.tokens[self.pos].is_eof()
    }

    fn cur_is_special(&self) -> (r: bool)
        requires
            self.wf(),
        ensures
            r == self.rest()[0].special,
    {
        self.tokens[self.pos].is_special()
    }

    fn cur_loc(&self) -> (l: Loc)
        requires
            self.wf(),
        ensures
            l.line as int == self.rest()[0].line,
            l.col as int == self.rest()[0].col,
    {
        self.tokens[self.pos].loc
    }

    /// A copy of the current token's text.
    fn cur_text(&self) -> (s: String)
        requires
            self.wf(),
            !self.rest()[0].eof,
        ensures
            s@ == self.rest()[0].text,
    {
        match &self.tokens[self.pos].kind {
            TokenKind::Normal(s) => s.clone(),
            TokenKind::Special(s) => s.clone(),
            TokenKind::Eof => {
                proof {
                    assert(false);
                }
                String::new()
            },
        }
    }

    /// Step to the next token; at the final `Eof` the cursor stays put, so
    /// polling past the end keeps yielding `Eof`.
    fn next_token(&mut self)
        requires
            old(self).wf(),
        ensures
            final(self).wf(),
            final(self).tokens == old(self).tokens,
            final(self).toks() == old(self).toks(),
            old(self).rest()[0].eof ==> *final(self) == *old(self),
            !old(self).rest()[0].eof ==> final(self).pos == old(self).pos + 1
                && final(self).rest() == old(self).rest().skip(1),
    {
        if self.pos + 1 < self.tokens.len() {
            self.pos = self.pos + 1;
            proof {
                assert(self.toks().skip(self.pos as int)
                    =~= self.toks().skip(self.pos as int - 1).skip(1));
            }
        } else {
            proof {
                assert(old(self).rest()[0] == old(self).toks().last());
            }
        }
    }

    /// Step back one token: the single-token pushback that re-reads a `-`
    /// after it turned out not to begin a number.
    fn look_back(&mut self)
        requires
            old(self).wf(),
            old(self).pos >= 1,
        ensures
            final(self).wf(),
            final(self).tokens == old(self).tokens,
            final(self).toks() == old(self).toks(),
            final(self).pos == old(self).pos - 1,
            final(self).rest() == seq![old(self).toks()[old(self).pos - 1]]
                + old(self).rest(),
    {
        self.pos = self.pos - 1;
        proof {
            assert(self.toks().skip(self.pos as int) =~= seq![self.toks()[self.pos as int]]
                + self.toks().skip(self.pos as int + 1));
        }
    }

    /// Does the current token read as the one-character text `value`?
    fn is_at(&self, value: char) -> (r: bool)
        requires
            self.wf(),
        ensures
            r == tm_is(self.rest()[0], seq![value]),
    {
        match &self.tokens[self.pos].kind {
            TokenKind::Normal(s) => str_is_char(s.as_str(), value),
            TokenKind::Special(s) => str_is_char(s.as_str(), value),
            TokenKind::Eof => false,
        }
    }

    /// Demand the one-character token `value` here; the error names it and
    /// what stood in its place.
    fn expect(&self, value: char) -> (r: DirectiveResult<()>)
        requires
            self.wf(),
            value == '(' || value == ')' || value == ':' || value == ',' || value == '@',
        ensures
            match r {
                Ok(_) => tm_is(self.rest()[0], seq![value]),
                Err(e) => !tm_is(self.rest()[0], seq![value]) && e@
                    == DirectiveErrorModel::SyntaxError(
                    err_at(
                        self.rest()[0],
                        crate::errors::MessageModel::Expected {
                            expected: seq![value],
                            got: if self.rest()[0].eof {
                                None
                            } else {
                                Some(self.rest()[0].text)
                            },
                        },
                    ),
                ),
            },
    {
        if self.is_at(value) {
            Ok(())
        } else {
            let loc = self.cur_loc();
            let got = if self.cur_is_eof() {
                None
            } else {
                Some(self.cur_text())
            };
            Err(DirectiveError::SyntaxError {
                line: loc.line,
                column: loc.col,
                message: SyntaxMessage::Expected { expected: char_string(value), got },
            })
        }
    }

    /// The error for a token that no rule accepts here.
    fn unexpected(&self) -> (e: DirectiveError)
        requires
            self.wf(),
            !self.rest()[0].eof,
        ensures
            e@ == DirectiveErrorModel::SyntaxError(
                err_at(
                    self.rest()[0],
                    crate::errors::MessageModel::UnexpectedToken(self.rest()[0].text),
                ),
            ),
    {
        let loc = self.cur_loc();
        DirectiveError::SyntaxError {
            line: loc.line,
            column: loc.col,
            message: SyntaxMessage::UnexpectedToken(self.cur_text()),
        }
    }

    /// The error for input that ended too soon.
    fn unexpected_eof(&self) -> (e: DirectiveError)
        requires
            self.wf(),
        ensures
            e@ == DirectiveErrorModel::SyntaxError(
                err_at(self.rest()[0], crate::errors::MessageModel::UnexpectedEof),
            ),
    {
        let loc = self.cur_loc();
        DirectiveError::SyntaxError {
            line: loc.line,
            column: loc.col,
            message: SyntaxMessage::UnexpectedEof,
        }
    }
}

impl Parser {
    /// Consume the current token when it is a binary operator of exactly
    /// `priority`, handing back the ready operator node.
    fn detect_operator(&mut self, priority: i32) -> (r: Option<OperatorNode>)
        requires
            old(self).wf(),
        ensures
            final(self).wf(),
            final(self).tokens == old(self).tokens,
            final(self).toks() == old(self).toks(),
            match r {
                Some(op) => {
                    let t = old(self).rest()[0];
                    &&& !t.eof
                    &&& t.special
                    &&& spec_operator_priority(t.text) == Some(priority as int)
                    &&& op@ == (crate::types::OperatorModel {
                        line: t.line,
                        col: t.col,
                        name: t.text,
                        priority: priority as int,
                    })
                    &&& final(self).rest() == old(self).rest().skip(1)
                },
                None => *final(self) == *old(self) && !(!old(self).rest()[0].eof
                    && old(self).rest()[0].special && spec_operator_priority(
                    old(self).rest()[0].text,
                ) == Some(priority as int)),
            },
    {
        if self.cur_is_eof() {
            return None;
        }
        if !self.cur_is_special() {
            return None;
        }
        let text = self.cur_text();
        let info = get_operator_info(text.as_str());
        match info {
            Some(info) => {
                if info.priority != priority {
                    return None;
                }
                let loc = self.cur_loc();
                self.next_token();
                Some(OperatorNode { loc, name: text, priority })
            },
            None => None,
        }
    }

    /// Consume the current token when its text is a nonnegative numeric
    /// literal.
    fn detect_positive_number(&mut self) -> (r: Option<Primitive>)
        requires
            old(self).wf(),
        ensures
            final(self).wf(),
            final(self).tokens == old(self).tokens,
            final(self).toks() == old(self).toks(),
            match r {
                Some(p) => spec_detect_positive_number(old(self).rest()[0]) == Some(p@)
                    && final(self).rest() == old(self).rest().skip(1)
                    && final(self).pos == old(self).pos + 1 && (p@ matches
                    crate::types::PrimitiveModel::Int(i) ==> i >= 0),
                None => *final(self) == *old(self) && spec_detect_positive_number(
                    old(self).rest()[0],
                ) is None,
            },
    {
        if self.cur_is_eof() {
            return None;
        }
        if self.cur_is_special() {
            return None;
        }
        let text = self.cur_text();
        match read_numeric(text.as_str()) {
            Some(p) => {
                self.next_token();
                Some(p)
            },
            None => None,
        }
    }

    /// A signed number here: an optional `-` directly followed by a
    /// nonnegative literal. When the `-` is not followed by a number the
    /// cursor steps back to it, so the `-` can be read again as an
    /// operator.
    fn detect_number(&mut self) -> (r: Option<Primitive>)
        requires
            old(self).wf(),
        ensures
            final(self).wf(),
            final(self).tokens == old(self).tokens,
            final(self).toks() == old(self).toks(),
            ({
                let dn = spec_detect_number(old(self).rest());
                match r {
                    Some(p) => dn is Some && p@ == dn->Some_0.0 && final(self).rest()
                        == old(self).rest().skip(dn->Some_0.1),
                    None => dn is None && *final(self) == *old(self),
                }
            }),
    {
        let minus = self.is_at('-');
        if minus {
            self.next_token();
        }
        let num = self.detect_positive_number();
        match num {
            Some(p) => {
                proof {
                    if minus {
                        assert(old(self).rest().skip(1).skip(1)
                            =~= old(self).rest().skip(2));
                    }
                }
                if minus {
                    Some(negate_primitive(p))
                } else {
                    Some(p)
                }
            },
            None => {
                if minus {
                    self.look_back();
                    proof {
                        assert(self.rest() =~= old(self).rest());
                        assert(*self == *old(self));
                    }
                }
                None
            },
        }
    }
}

impl Parser {
    /// Parse the one directive this parser was built over: a full
    /// expression that must consume every token.
    pub fn parse(&mut self) -> (r: DirectiveResult<ExpressionNode>)
        requires
            old(self).wf(),
        ensures
            final(self).wf(),
            match r {
                Ok(node) => spec_parse_tokens(old(self).rest())
                    == Ok::<ExprModel, ErrorModel>(node@),
                Err(e) => e@ matches DirectiveErrorModel::SyntaxError(m)
                    && spec_parse_tokens(old(self).rest()) == Err::<ExprModel, ErrorModel>(m),
            },
    {
        let directive = match self.parse_expression(1) {
            Ok(node) => node,
            Err(e) => {
                return Err(e);
            },
        };
        if !self.cur_is_eof() {
            let loc = self.cur_loc();
            let got = self.cur_text();
            return Err(DirectiveError::SyntaxError {
                line: loc.line,
                column: loc.col,
                message: SyntaxMessage::ExpectedEof { got },
            });
        }
        Ok(directive)
    }

    /// Parse an expression no looser than `min_priority`, folding
    /// same-priority operators left-associatively.
    #[verifier::loop_isolation(false)]
    #[verifier::rlimit(60)]
    fn parse_expression(&mut self, min_priority: i32) -> (r: DirectiveResult<ExpressionNode>)
        requires
            old(self).wf(),
            1 <= min_priority <= 9,
        ensures
            final(self).wf(),
            final(self).tokens == old(self).tokens,
            final(self).pos >= old(self).pos,
            match r {
                Ok(node) => spec_parse_expression(old(self).rest(), min_priority as int)
                    == Ok::<(ExprModel, Seq<TokenModel>), ErrorModel>((node@, final(self).rest())),
                Err(e) => e@ matches DirectiveErrorModel::SyntaxError(m)
                    && spec_parse_expression(old(self).rest(), min_priority as int)
                    == Err::<(ExprModel, Seq<TokenModel>), ErrorModel>(m),
            },
        decreases old(self).rest().len(), (if min_priority < 9 { 20 - min_priority } else { 11int }),
    {
        if min_priority > 8 {
            return self.parse_primary_expression();
        }
        let mut left = match self.parse_expression(min_priority + 1) {
            Ok(node) => node,
            Err(e) => {
                return Err(e);
            },
        };
        loop
            invariant
                self.wf(),
                self.tokens == old(self).tokens,
                self.pos >= old(self).pos,
                1 <= min_priority <= 8,
                spec_parse_expression(old(self).rest(), min_priority as int)
                    == spec_parse_binary_rest(left@, self.rest(), min_priority as int),
            decreases self.rest().len(),
        {
            let ghost rest_i = self.rest();
            let operator = match self.detect_operator(min_priority) {
                Some(op) => op,
                None => {
                    return Ok(left);
                },
            };
            let right = match self.parse_expression(min_priority + 1) {
                Ok(node) => node,
                Err(e) => {
                    return Err(e);
                },
            };
            let ghost left_v = left@;
            let ghost right_v = right@;
            let lloc = left.loc();
            let folded = ExpressionNode::Binary {
                loc: lloc,
                operator,
                left: Box::new(left),
                right: Box::new(right),
            };
            proof {
                let p = min_priority as int;
                assert(folded@ == (ExprModel::Binary {
                    line: left_v.line(),
                    col: left_v.col(),
                    operator: OperatorModel {
                        line: rest_i[0].line,
                        col: rest_i[0].col,
                        name: rest_i[0].text,
                        priority: p,
                    },
                    left: Box::new(left_v),
                    right: Box::new(right_v),
                }));
                assert(self.rest().len() < rest_i.len());
                assert(spec_parse_binary_rest(left_v, rest_i, p)
                    == spec_parse_binary_rest(folded@, self.rest(), p));
            }
            left = folded;
        }
    }
}

impl Parser {
    /// A primary expression: unary application, scalar literal, or primary
    /// directive. A `-` directly before a literal folds into one negative
    /// scalar; `~` directly before a literal is refused.
    #[verifier::rlimit(60)]
    fn parse_primary_expression(&mut self) -> (r: DirectiveResult<ExpressionNode>)
        requires
            old(self).wf(),
        ensures
            final(self).wf(),
            final(self).tokens == old(self).tokens,
            final(self).pos >= old(self).pos,
            match r {
                Ok(node) => spec_parse_primary(old(self).rest())
                    == Ok::<(ExprModel, Seq<TokenModel>), ErrorModel>((node@, final(self).rest())),
                Err(e) => e@ matches DirectiveErrorModel::SyntaxError(m)
                    && spec_parse_primary(old(self).rest())
                    == Err::<(ExprModel, Seq<TokenModel>), ErrorModel>(m),
            },
        decreases old(self).rest().len(), 10int,
    {
        if self.cur_is_eof() {
            return Err(self.unexpected_eof());
        }
        let loc = self.cur_loc();
        let text = self.cur_text();
        let uinfo = get_unary_operator_info(text.as_str());
        match uinfo {
            Some(info) => {
                self.next_token();
                let number = self.detect_positive_number();
                let is_minus = str_is_char(text.as_str(), '-');
                match number {
                    Some(num) => {
                        if is_minus {
                            let value = negate_primitive(num);
                            let node = ExpressionNode::Scalar(ScalarNode { loc, value });
                            proof {
                                assert(old(self).rest().skip(1).skip(1)
                                    =~= old(self).rest().skip(2));
                            }
                            return Ok(node);
                        }
                        // `~` directly before a number: step back to the
                        // number and refuse it.
                        proof {
                            if text@[0] == '-' {
                                assert(text@ =~= seq!['-']);
                            }
                            assert(text@ =~= seq!['~']);
                        }
                        self.look_back();
                        proof {
                            assert(self.rest() =~= old(self).rest().skip(1));
                        }
                        return Err(self.unexpected());
                    },
                    None => {},
                }
                let inner = match self.parse_primary_directive() {
                    Ok(node) => node,
                    Err(e) => {
                        return Err(e);
                    },
                };
                let node = ExpressionNode::Unary {
                    loc,
                    operator: OperatorNode { loc, name: text, priority: info.priority },
                    expression: Box::new(inner),
                };
                return Ok(node);
            },
            None => {},
        }
        match self.detect_positive_number() {
            Some(value) => {
                let node = ExpressionNode::Scalar(ScalarNode { loc, value });
                return Ok(node);
            },
            None => {},
        }
        self.parse_primary_directive()
    }

    /// A parenthesized expression or a command.
    fn parse_primary_directive(&mut self) -> (r: DirectiveResult<ExpressionNode>)
        requires
            old(self).wf(),
        ensures
            final(self).wf(),
            final(self).tokens == old(self).tokens,
            final(self).pos >= old(self).pos,
            match r {
                Ok(node) => spec_parse_primary_directive(old(self).rest())
                    == Ok::<(ExprModel, Seq<TokenModel>), ErrorModel>((node@, final(self).rest())),
                Err(e) => e@ matches DirectiveErrorModel::SyntaxError(m)
                    && spec_parse_primary_directive(old(self).rest())
                    == Err::<(ExprModel, Seq<TokenModel>), ErrorModel>(m),
            },
        decreases old(self).rest().len(), 9int,
    {
        if self.is_at('(') {
            self.parse_wrapped_directive()
        } else {
            self.parse_command()
        }
    }

    /// `( expression )` — the closing parenthesis is demanded.
    fn parse_wrapped_directive(&mut self) -> (r: DirectiveResult<ExpressionNode>)
        requires
            old(self).wf(),
            !old(self).rest()[0].eof,
        ensures
            final(self).wf(),
            final(self).tokens == old(self).tokens,
            final(self).pos >= old(self).pos,
            match r {
                Ok(node) => spec_parse_wrapped(old(self).rest())
                    == Ok::<(ExprModel, Seq<TokenModel>), ErrorModel>((node@, final(self).rest())),
                Err(e) => e@ matches DirectiveErrorModel::SyntaxError(m)
                    && spec_parse_wrapped(old(self).rest())
                    == Err::<(ExprModel, Seq<TokenModel>), ErrorModel>(m),
            },
        decreases old(self).rest().len(), 7int,
    {
        self.next_token();
        let directive = match self.parse_expression(1) {
            Ok(node) => node,
            Err(e) => {
                return Err(e);
            },
        };
        match self.expect(')') {
            Ok(_) => {},
            Err(e) => {
                return Err(e);
            },
        }
        self.next_token();
        Ok(directive)
    }

    /// The command's name token, split at its first `.` into name and
    /// sub-name.
    fn parse_command_name(&mut self) -> (r: DirectiveResult<(String, Option<String>)>)
        requires
            old(self).wf(),
        ensures
            final(self).wf(),
            final(self).tokens == old(self).tokens,
            match r {
                Ok(pair) => {
                    let t = old(self).rest()[0];
                    &&& !t.eof
                    &&& !t.special
                    &&& pair.0@ == spec_split_name(t.text).0
                    &&& (match pair.1 {
                        Some(s) => Some(s@),
                        None => None,
                    }) == spec_split_name(t.text).1
                    &&& final(self).rest() == old(self).rest().skip(1)
                    &&& final(self).pos == old(self).pos + 1
                },
                Err(e) => {
                    let t = old(self).rest()[0];
                    &&& *final(self) == *old(self)
                    &&& (t.eof || t.special)
                    &&& e@ == DirectiveErrorModel::SyntaxError(
                        err_at(
                            t,
                            if t.eof {
                                MessageModel::UnexpectedEof
                            } else {
                                MessageModel::UnexpectedToken(t.text)
                            },
                        ),
                    )
                },
            },
    {
        if self.cur_is_eof() {
            return Err(self.unexpected_eof());
        }
        if self.cur_is_special() {
            return Err(self.unexpected());
        }
        let text = self.cur_text();
        self.next_token();

        let n = text.as_str().unicode_len();
        let dot = find_dot(text.as_str());
        proof {
            lemma_first_dot(text@);
        }
        if dot < n {
            let name = String::from_str(text.as_str().substring_char(0, dot));
            let sub = String::from_str(text.as_str().substring_char(dot + 1, n));
            proof {
                assert(name@ =~= text@.take(dot as int));
                assert(sub@ =~= text@.skip(dot as int + 1));
            }
            Ok((name, Some(sub)))
        } else {
            Ok((text, None))
        }
    }

    /// A command: name, optional `:` arguments, optional `@` series.
    #[verifier::rlimit(60)]
    fn parse_command(&mut self) -> (r: DirectiveResult<ExpressionNode>)
        requires
            old(self).wf(),
        ensures
            final(self).wf(),
            final(self).tokens == old(self).tokens,
            final(self).pos >= old(self).pos,
            match r {
                Ok(node) => spec_parse_command(old(self).rest())
                    == Ok::<(ExprModel, Seq<TokenModel>), ErrorModel>((node@, final(self).rest())),
                Err(e) => e@ matches DirectiveErrorModel::SyntaxError(m)
                    && spec_parse_command(old(self).rest())
                    == Err::<(ExprModel, Seq<TokenModel>), ErrorModel>(m),
            },
        decreases old(self).rest().len(), 8int,
    {
        let loc = self.cur_loc();
        let name_sub = match self.parse_command_name() {
            Ok(pair) => pair,
            Err(e) => {
                return Err(e);
            },
        };
        let (name, sub) = name_sub;
        let ghost toks0 = old(self).rest();
        let ghost toks1 = toks0.skip(1);

        let at_colon = self.is_at(':');
        let args = if at_colon {
            self.next_token();
            proof {
                assert(toks0.skip(1).skip(1) =~= toks0.skip(2));
            }
            self.parse_args()
        } else {
            Vec::new()
        };
        let ghost rest_a = self.rest();
        proof {
            let argsr = if toks1.len() >= 1 && tm_is(toks1[0], seq![':']) {
                spec_parse_args(toks1.skip(1))
            } else {
                (Seq::<ArgumentModel>::empty(), toks1)
            };
            if !at_colon {
                assert(Seq::<ArgumentNode>::empty().map_values(|a: ArgumentNode| a@)
                    =~= Seq::<ArgumentModel>::empty());
            }
            assert(args@.map_values(|a: ArgumentNode| a@) == argsr.0);
            assert(rest_a == argsr.1);
            assert(rest_a.len() >= 1);
            assert(rest_a.len() <= toks0.len());
        }

        let at_series = self.is_at('@');
        let series = if at_series {
            self.next_token();
            match self.parse_series() {
                Ok(s) => s,
                Err(e) => {
                    proof {
                        assert(tm_is(rest_a[0], seq!['@']));
                    }
                    return Err(e);
                },
            }
        } else {
            Vec::new()
        };
        proof {
            if !at_series {
                assert(view_series_seq(Seq::<SeriesArgumentNode>::empty())
                    =~= Seq::<crate::types::SeriesModel>::empty());
            }
        }

        let node = ExpressionNode::Command(CommandNode { loc, name, sub, args, series });
        proof {
            let c = node->Command_0;
            assert(node@ == ExprModel::Command(crate::types::view_command(c)));
        }
        Ok(node)
    }

    /// Comma-separated argument slots after a `:`. Never fails: a slot that
    /// is not a number and not a bare word is simply absent, and absent
    /// before a `,` means explicitly empty.
    #[verifier::loop_isolation(false)]
    #[verifier::rlimit(60)]
    fn parse_args(&mut self) -> (args: Vec<ArgumentNode>)
        requires
            old(self).wf(),
        ensures
            final(self).wf(),
            final(self).tokens == old(self).tokens,
            final(self).pos >= old(self).pos,
            args@.map_values(|a: ArgumentNode| a@)
                == spec_parse_args(old(self).rest()).0,
            final(self).rest() == spec_parse_args(old(self).rest()).1,
    {
        let mut args: Vec<ArgumentNode> = Vec::new();
        proof {
            assert(args@.map_values(|a: ArgumentNode| a@) =~= Seq::<ArgumentModel>::empty());
        }
        loop
            invariant
                self.wf(),
                self.tokens == old(self).tokens,
                self.pos >= old(self).pos,
                spec_parse_args(old(self).rest()).0 == args@.map_values(|a: ArgumentNode| a@)
                    + spec_parse_args(self.rest()).0,
                spec_parse_args(old(self).rest()).1 == spec_parse_args(self.rest()).1,
            decreases self.rest().len(),
        {
            let ghost rest_i = self.rest();
            let ghost args_i = args@.map_values(|a: ArgumentNode| a@);
            if self.cur_is_eof() {
                proof {
                    assert(args_i + Seq::<ArgumentModel>::empty() =~= args_i);
                }
                return args;
            }
            let loc = self.cur_loc();
            let number = self.detect_number();
            let has_arg: bool;
            match number {
                Some(value) => {
                    let arg = ArgumentNode { loc, value: Some(value) };
                    args.push(arg);
                    has_arg = true;
                },
                None => {
                    if !self.cur_is_special() {
                        let word = self.cur_text();
                        self.next_token();
                        let arg = ArgumentNode { loc, value: Some(Primitive::String(word)) };
                        args.push(arg);
                        has_arg = true;
                    } else {
                        has_arg = false;
                    }
                },
            }
            if self.is_at(',') {
                if !has_arg {
                    let arg = ArgumentNode { loc, value: None };
                    args.push(arg);
                }
                self.next_token();
                proof {
                    let args_n = args@.map_values(|a: ArgumentNode| a@);
                    let tail = spec_parse_args(self.rest());
                    assert(spec_parse_args(rest_i).0 == (args_n.skip(args_i.len() as int))
                        + tail.0 && spec_parse_args(rest_i).1 == tail.1) by {
                        assert(args_n.skip(args_i.len() as int)
                            =~= seq![args_n.last()]);
                    }
                    assert(args_i + ((args_n.skip(args_i.len() as int)) + tail.0)
                        =~= args_n + tail.0);
                }
            } else {
                proof {
                    let args_n = args@.map_values(|a: ArgumentNode| a@);
                    if has_arg {
                        assert(spec_parse_args(rest_i).0 == seq![args_n.last()]
                            && spec_parse_args(rest_i).1 == self.rest());
                        assert(args_i + seq![args_n.last()] =~= args_n);
                    } else {
                        assert(spec_parse_args(rest_i).0 =~= Seq::<ArgumentModel>::empty());
                        assert(args_i + Seq::<ArgumentModel>::empty() =~= args_i);
                    }
                }
                return args;
            }
        }
    }

    /// Comma-separated series slots after an `@`: nested parenthesized
    /// directives, bare column names, or explicitly empty slots.
    #[verifier::loop_isolation(false)]
    #[verifier::rlimit(60)]
    fn parse_series(&mut self) -> (r: DirectiveResult<Vec<SeriesArgumentNode>>)
        requires
            old(self).wf(),
        ensures
            final(self).wf(),
            final(self).tokens == old(self).tokens,
            final(self).pos >= old(self).pos,
            match r {
                Ok(series) => spec_parse_series(old(self).rest())
                    == Ok::<(Seq<crate::types::SeriesModel>, Seq<TokenModel>), ErrorModel>(
                    (view_series_seq(series@), final(self).rest()),
                ),
                Err(e) => e@ matches DirectiveErrorModel::SyntaxError(m)
                    && spec_parse_series(old(self).rest())
                    == Err::<(Seq<crate::types::SeriesModel>, Seq<TokenModel>), ErrorModel>(m),
            },
        decreases old(self).rest().len(), 8int,
    {
        let mut series: Vec<SeriesArgumentNode> = Vec::new();
        proof {
            assert(view_series_seq(series@) =~= Seq::<crate::types::SeriesModel>::empty());
        }
        loop
            invariant
                self.wf(),
                self.tokens == old(self).tokens,
                self.pos >= old(self).pos,
                ({
                    let whole = spec_parse_series(old(self).rest());
                    match spec_parse_series(self.rest()) {
                        Ok(tail) => whole == Ok::<
                            (Seq<crate::types::SeriesModel>, Seq<TokenModel>),
                            ErrorModel,
                        >((view_series_seq(series@) + tail.0, tail.1)),
                        Err(m) => whole == Err::<
                            (Seq<crate::types::SeriesModel>, Seq<TokenModel>),
                            ErrorModel,
                        >(m),
                    }
                }),
            decreases self.rest().len(),
        {
            let ghost rest_i = self.rest();
            let ghost series_i = view_series_seq(series@);
            let loc = self.cur_loc();
            let has_series: bool;
            if self.is_at('(') {
                let directive = match self.parse_wrapped_directive() {
                    Ok(node) => node,
                    Err(e) => {
                        return Err(e);
                    },
                };
                let slot = SeriesArgumentNode::Directive(loc, Box::new(directive));
                let ghost series_pre = series@;
                series.push(slot);
                proof {
                    crate::types::lemma_view_series_seq_push(series_pre, slot);
                }
                has_series = true;
            } else if !self.cur_is_special() && !self.cur_is_eof() {
                let word = self.cur_text();
                self.next_token();
                let slot = SeriesArgumentNode::Column(loc, word);
                let ghost series_pre = series@;
                series.push(slot);
                proof {
                    crate::types::lemma_view_series_seq_push(series_pre, slot);
                }
                has_series = true;
            } else {
                has_series = false;
            }
            if self.is_at(',') {
                if !has_series {
                    let slot = SeriesArgumentNode::Empty(loc);
                    let ghost series_pre = series@;
                    series.push(slot);
                    proof {
                        crate::types::lemma_view_series_seq_push(series_pre, slot);
                    }
                }
                self.next_token();
                proof {
                    let series_n = view_series_seq(series@);
                    assert(series_n.skip(series_i.len() as int) =~= seq![series_n.last()]);
                    assert(series_i + (seq![series_n.last()]
                        + (match spec_parse_series(self.rest()) {
                        Ok(t) => t.0,
                        Err(_) => Seq::empty(),
                    })) =~= series_n + (match spec_parse_series(self.rest()) {
                        Ok(t) => t.0,
                        Err(_) => Seq::empty(),
                    }));
                }
            } else {
                proof {
                    let series_n = view_series_seq(series@);
                    if has_series {
                        assert(series_i + seq![series_n.last()] =~= series_n);
                    } else {
                        assert(series_i + Seq::<crate::types::SeriesModel>::empty()
                            =~= series_i);
                    }
                }
                return Ok(series);
            }
        }
    }
}

/// Negate a folded literal: integers flip sign, a float literal gains a
/// leading minus, bare words and booleans stand as they are.
fn negate_primitive(p: Primitive) -> (r: Primitive)
    requires
        p@ matches crate::types::PrimitiveModel::Int(i) ==> i >= 0,
    ensures
        r@ == spec_negate(p@),
{
    match p {
        Primitive::Int(i) => Primitive::Int(-i),
        Primitive::Float(s) => {
            let mut m = char_string('-');
            m.append(s.as_str());
            Primitive::Float(m)
        },
        other => other,
    }
}

/// Parse a directive string into its expression tree.
///
/// The text is first trimmed of surrounding whitespace, as the original
/// string is the cache key and stray whitespace must not change what it
/// means. Success and failure are both pinned down: the result is exactly
/// what the grammar says for the trimmed text.
pub fn parse_directive(directive_str: &str) -> (r: DirectiveResult<ExpressionNode>)
    requires
        directive_str@.len() < usize::MAX,
    ensures
        match r {
            Ok(node) => spec_parse_directive(crate::tokenizer::spec_trim(directive_str@))
                == Ok::<ExprModel, ErrorModel>(node@),
            Err(e) => e@ matches DirectiveErrorModel::SyntaxError(m) && spec_parse_directive(
                crate::tokenizer::spec_trim(directive_str@),
            ) == Err::<ExprModel, ErrorModel>(m),
        },
{
    let trimmed = crate::tokenizer::trim_text(directive_str);
    let mut parser = Parser::new(trimmed.as_str());
    parser.parse()
}

/// Is `s` exactly the one-character string of `c`?
fn str_is_char(s: &str, c: char) -> (r: bool)
    ensures
        r == (s@ == seq![c]),
{
    if s.unicode_len() == 1 {
        let c0 = s.get_char(0);
        if c0 == c {
            proof {
                assert(s@ =~= seq![c]);
            }
            true
        } else {
            proof {
                assert(s@[0] != seq![c][0]);
            }
            false
        }
    } else {
        proof {
            assert(s@.len() != seq![c].len());
        }
        false
    }
}

} // verus!
