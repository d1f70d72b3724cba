//! Tokenizer for directive parsing.
//!
//! A directive string is cut into located tokens: `Normal` words (command
//! names, numbers, bare words), `Special` punctuation and operator runs, and
//! a final `Eof`. The function [`spec_tokens`] is the mathematical statement
//! of the whole tokenization; [`Tokenizer::next`] is proved to produce
//! exactly that token sequence, one token per call.

use vstd::prelude::*;
use vstd::string::*;

verus! {

/// Location in source text: 1-based line and column, both counted in
/// characters.
#[derive(Debug, Clone, Copy, PartialEq, Eq, Structural)]
pub struct Loc {
    pub line: usize,
    pub col: usize,
}

impl Loc {
    pub fn new(line: usize, col: usize) -> (r: Loc)
        ensures
            r.line == line,
            r.col == col,
    {
        Loc { line, col }
    }
}

// ---------------------------------------------------------------------------
// Character classes
// ---------------------------------------------------------------------------

/// Punctuation that always stands alone as a one-character `Special` token.
/// Line breaks are in the set but are skipped as layout before this rule
/// ever applies.
pub open spec fn spec_is_special_single(c: char) -> bool {
    c == '(' || c == ')' || c == ':' || c == ',' || c == '@' || c == '\n' || c == '\r'
}

/// Characters that merge greedily into multi-character operator runs.
pub open spec fn spec_is_special_operator(c: char) -> bool {
    c == '\\' || c == '=' || c == '<' || c == '>' || c == '/' || c == '+' || c == '!'
        || c == '*' || c == '~' || c == '|' || c == '&' || c == '^' || c == '-'
}

/// Characters that may begin a unary operator.
pub open spec fn spec_is_unary_char(c: char) -> bool {
    c == '-' || c == '~'
}

/// Whitespace, the Unicode `White_Space` set: all of it is layout between
/// tokens, line breaks included.
pub open spec fn spec_is_space(c: char) -> bool {
    c == ' ' || c == '\t' || c == '\n' || c == '\r' || c == '\u{b}' || c == '\u{c}'
        || c == '\u{85}' || c == '\u{a0}' || c == '\u{1680}' || c == '\u{2000}'
        || c == '\u{2001}' || c == '\u{2002}' || c == '\u{2003}' || c == '\u{2004}'
        || c == '\u{2005}' || c == '\u{2006}' || c == '\u{2007}' || c == '\u{2008}'
        || c == '\u{2009}' || c == '\u{200a}' || c == '\u{2028}' || c == '\u{2029}'
        || c == '\u{202f}' || c == '\u{205f}' || c == '\u{3000}'
}

fn is_special_single_char(c: char) -> (r: bool)
    ensures
        r == spec_is_special_single(c),
{
    c == '(' || c == ')' || c == ':' || c == ',' || c == '@' || c == '\n' || c == '\r'
}

fn is_special_operator_char(c: char) -> (r: bool)
    ensures
        r == spec_is_special_operator(c),
{
    c == '\\' || c == '=' || c == '<' || c == '>' || c == '/' || c == '+' || c == '!'
        || c == '*' || c == '~' || c == '|' || c == '&' || c == '^' || c == '-'
}

fn is_unary_operator_char(c: char) -> (r: bool)
    ensures
        r == spec_is_unary_char(c),
{
    c == '-' || c == '~'
}

fn is_space_char(c: char) -> (r: bool)
    ensures
        r == spec_is_space(c),
{
    c == ' ' || c == '\t' || c == '\n' || c == '\r' || c == '\u{b}' || c == '\u{c}'
        || c == '\u{85}' || c == '\u{a0}' || c == '\u{1680}' || c == '\u{2000}'
        || c == '\u{2001}' || c == '\u{2002}' || c == '\u{2003}' || c == '\u{2004}'
        || c == '\u{2005}' || c == '\u{2006}' || c == '\u{2007}' || c == '\u{2008}'
        || c == '\u{2009}' || c == '\u{200a}' || c == '\u{2028}' || c == '\u{2029}'
        || c == '\u{202f}' || c == '\u{205f}' || c == '\u{3000}'
}

// ---------------------------------------------------------------------------
// Tokens and their mathematical model
// ---------------------------------------------------------------------------

/// Token kinds.
#[derive(Debug, Clone, PartialEq)]
pub enum TokenKind {
    /// End of input.
    Eof,
    /// An identifier, number, or bare word.
    Normal(String),
    /// Punctuation or an operator character run.
    Special(String),
}

/// A token with its location.
#[derive(Debug, Clone)]
pub struct Token {
    pub kind: TokenKind,
    pub loc: Loc,
}

/// The mathematical image of one token: its class, its text as a character
/// sequence, and its 1-based position.
pub struct TokenModel {
    pub eof: bool,
    pub special: bool,
    pub text: Seq<char>,
    pub line: int,
    pub col: int,
}

pub open spec fn tok_eof(line: int, col: int) -> TokenModel {
    TokenModel { eof: true, special: false, text: Seq::empty(), line, col }
}

pub open spec fn tok_normal(text: Seq<char>, line: int, col: int) -> TokenModel {
    TokenModel { eof: false, special: false, text, line, col }
}

pub open spec fn tok_special(text: Seq<char>, line: int, col: int) -> TokenModel {
    TokenModel { eof: false, special: true, text, line, col }
}

impl View for Token {
    type V = TokenModel;

    open spec fn view(&self) -> TokenModel {
        match self.kind {
            TokenKind::Eof => tok_eof(self.loc.line as int, self.loc.col as int),
            TokenKind::Normal(s) => tok_normal(s@, self.loc.line as int, self.loc.col as int),
            TokenKind::Special(s) => tok_special(s@, self.loc.line as int, self.loc.col as int),
        }
    }
}

impl Token {
    pub fn new(kind: TokenKind, loc: Loc) -> (t: Self)
        ensures
            t == (Token { kind, loc }),
    {
        Self { kind, loc }
    }

    pub fn eof(loc: Loc) -> (t: Self)
        ensures
            t@ == tok_eof(loc.line as int, loc.col as int),
    {
        Self::new(TokenKind::Eof, loc)
    }

    pub fn is_eof(&self) -> (r: bool)
        ensures
            r == self@.eof,
    {
        matches!(self.kind, TokenKind::Eof)
    }

    pub fn is_special(&self) -> (r: bool)
        ensures
            r == self@.special,
    {
        matches!(self.kind, TokenKind::Special(_))
    }

    pub fn value(&self) -> (r: Option<&str>)
        ensures
            match r {
                Some(s) => !self@.eof && s@ == self@.text,
                None => self@.eof,
            },
    {
        match &self.kind {
            TokenKind::Normal(s) => Some(s.as_str()),
            TokenKind::Special(s) => Some(s.as_str()),
            TokenKind::Eof => None,
        }
    }
}

// ---------------------------------------------------------------------------
// The tokenization, stated as a function of the input characters
// ---------------------------------------------------------------------------

/// Number of leading operator characters of `s`.
pub open spec fn op_run_len(s: Seq<char>) -> nat
    decreases s.len(),
{
    if s.len() == 0 || !spec_is_special_operator(s[0]) {
        0
    } else {
        1 + op_run_len(s.skip(1))
    }
}

/// Number of leading `Normal`-class characters of `s`: characters that are
/// neither whitespace, nor single-character punctuation, nor operator
/// characters.
pub open spec fn normal_run_len(s: Seq<char>) -> nat
    decreases s.len(),
{
    if s.len() == 0 || spec_is_space(s[0]) || spec_is_special_single(s[0])
        || spec_is_special_operator(s[0]) {
        0
    } else {
        1 + normal_run_len(s.skip(1))
    }
}

/// The token sequence of the characters `s`, starting at position
/// `(line, col)`, always ending in exactly one `Eof` token.
///
/// Whitespace is layout: a line break moves to the next line, any other
/// whitespace moves one column. Single-character punctuation stands alone.
/// Operator characters merge into a maximal run; if the run is longer than
/// one character and ends in a unary operator character, the run is split
/// into the run without its last character followed by that last character,
/// so that `a+-b` yields `+` then `-`. Any other character begins a maximal
/// `Normal` run.
pub open spec fn spec_tokens(s: Seq<char>, line: int, col: int) -> Seq<TokenModel>
    decreases s.len() via spec_tokens_decreases
{
    if s.len() == 0 {
        seq![tok_eof(line, col)]
    } else {
        let c = s[0];
        if c == '\n' {
            spec_tokens(s.skip(1), line + 1, 1)
        } else if spec_is_space(c) {
            spec_tokens(s.skip(1), line, col + 1)
        } else if spec_is_special_single(c) {
            seq![tok_special(seq![c], line, col)] + spec_tokens(s.skip(1), line, col + 1)
        } else if spec_is_special_operator(c) {
            let n = 1 + op_run_len(s.skip(1)) as int;
            let run = s.take(n);
            if n > 1 && spec_is_unary_char(run[n - 1]) {
                seq![
                    tok_special(run.take(n - 1), line, col),
                    tok_special(seq![run[n - 1]], line, col + n - 1),
                ] + spec_tokens(s.skip(n), line, col + n)
            } else {
                seq![tok_special(run, line, col)] + spec_tokens(s.skip(n), line, col + n)
            }
        } else {
            let n = 1 + normal_run_len(s.skip(1)) as int;
            seq![tok_normal(s.take(n), line, col)] + spec_tokens(s.skip(n), line, col + n)
        }
    }
}

#[via_fn]
proof fn spec_tokens_decreases(s: Seq<char>, line: int, col: int) {
    if s.len() > 0 {
        lemma_op_run_le(s.skip(1));
        lemma_normal_run_le(s.skip(1));
    }
}

pub proof fn lemma_op_run_le(s: Seq<char>)
    ensures
        op_run_len(s) <= s.len(),
    decreases s.len(),
{
    if s.len() > 0 && spec_is_special_operator(s[0]) {
        lemma_op_run_le(s.skip(1));
    }
}

pub proof fn lemma_normal_run_le(s: Seq<char>)
    ensures
        normal_run_len(s) <= s.len(),
    decreases s.len(),
{
    if s.len() > 0 && !spec_is_space(s[0]) && !spec_is_special_single(s[0])
        && !spec_is_special_operator(s[0]) {
        lemma_normal_run_le(s.skip(1));
    }
}

/// A scan that saw `k` operator characters and then stopped has found
/// exactly the maximal operator run.
pub proof fn lemma_op_run_is_scan(s: Seq<char>, k: int)
    requires
        0 <= k <= s.len(),
        forall|j: int| 0 <= j < k ==> spec_is_special_operator(s[j]),
        k == s.len() || !spec_is_special_operator(s[k]),
    ensures
        op_run_len(s) == k,
    decreases k,
{
    if k > 0 {
        lemma_op_run_is_scan(s.skip(1), k - 1);
    }
}

/// The same, for a maximal `Normal` run.
pub proof fn lemma_normal_run_is_scan(s: Seq<char>, k: int)
    requires
        0 <= k <= s.len(),
        forall|j: int| 0 <= j < k ==> !spec_is_space(s[j]) && !spec_is_special_single(s[j])
            && !spec_is_special_operator(s[j]),
        k == s.len() || spec_is_space(s[k]) || spec_is_special_single(s[k])
            || spec_is_special_operator(s[k]),
    ensures
        normal_run_len(s) == k,
    decreases k,
{
    if k > 0 {
        lemma_normal_run_is_scan(s.skip(1), k - 1);
    }
}

// ---------------------------------------------------------------------------
// The executable tokenizer
// ---------------------------------------------------------------------------

/// Streaming tokenizer over a directive string.
///
/// Holds at most one buffered token: the second half of a split operator
/// run. Callers only ever ask for the next token; after the input is
/// exhausted every further call returns `Eof` again.
pub struct Tokenizer<'a> {
    input: &'a str,
    /// Total character length of `input`.
    len: usize,
    /// Index in characters of the next unread character.
    i: usize,
    line: usize,
    col: usize,
    saved: Option<Token>,
}

impl<'a> Tokenizer<'a> {
    pub closed spec fn wf(self) -> bool {
        &&& self.len == self.input@.len()
        &&& self.i <= self.len
        &&& 1 <= self.line
        &&& 1 <= self.col
        &&& self.line + (self.len - self.i) <= usize::MAX
        &&& self.col + (self.len - self.i) <= usize::MAX
        &&& match self.saved {
            Some(t) => t@.special && t@.text.len() >= 1,
            None => true,
        }
    }

    /// The tokens this tokenizer has yet to hand out.
    pub closed spec fn stream(self) -> Seq<TokenModel> {
        let rest = spec_tokens(self.input@.skip(self.i as int), self.line as int,
            self.col as int);
        match self.saved {
            Some(t) => seq![t@] + rest,
            None => rest,
        }
    }

    pub fn new(input: &'a str) -> (t: Tokenizer<'a>)
        requires
            input@.len() < usize::MAX,
        ensures
            t.wf(),
            t.stream() == spec_tokens(input@, 1, 1),
    {
        let len = input.unicode_len();
        let t = Tokenizer { input, len, i: 0, line: 1, col: 1, saved: None };
        proof {
            assert(input@.skip(0) == input@);
        }
        t
    }

    /// Consume one character, keeping line and column in step: a line break
    /// moves to column 1 of the next line, anything else moves one column.
    fn next_char(&mut self) -> (c: char)
        requires
            old(self).wf(),
            old(self).i < old(self).len,
        ensures
            final(self).wf(),
            c == old(self).input@[old(self).i as int],
            final(self).input == old(self).input,
            final(self).len == old(self).len,
            final(self).saved == old(self).saved,
            final(self).i == old(self).i + 1,
            c == '\n' ==> final(self).line == old(self).line + 1 && final(self).col == 1,
            c != '\n' ==> final(self).line == old(self).line
                && final(self).col == old(self).col + 1,
    {
        let c = self.input.get_char(self.i);
        self.i = self.i + 1;
        if c == '\n' {
            self.line = self.line + 1;
            self.col = 1;
        } else {
            self.col = self.col + 1;
        }
        c
    }

    /// Skip layout: every whitespace character, line breaks included.
    fn skip_whitespace(&mut self)
        requires
            old(self).wf(),
        ensures
            final(self).wf(),
            final(self).input == old(self).input,
            final(self).len == old(self).len,
            final(self).saved == old(self).saved,
            old(self).i <= final(self).i,
            final(self).stream() == old(self).stream(),
            final(self).i == final(self).len
                || !spec_is_space(final(self).input@[final(self).i as int]),
    {
        while self.i < self.len && is_space_char(self.input.get_char(self.i))
            invariant
                self.wf(),
                self.input == old(self).input,
                self.len == old(self).len,
                self.saved == old(self).saved,
                old(self).i <= self.i,
                self.stream() == old(self).stream(),
            decreases self.len - self.i,
        {
            proof {
                assert(self.input@.skip(self.i as int).skip(1)
                    == self.input@.skip(self.i as int + 1));
            }
            self.next_char();
        }
    }

    /// Read the maximal run of operator characters starting here.
    fn read_operator(&mut self) -> (r: String)
        requires
            old(self).wf(),
            old(self).i < old(self).len,
            spec_is_special_operator(old(self).input@[old(self).i as int]),
        ensures
            final(self).wf(),
            final(self).input == old(self).input,
            final(self).len == old(self).len,
            final(self).saved == old(self).saved,
            final(self).i == old(self).i + 1
                + op_run_len(old(self).input@.skip(old(self).i as int + 1)),
            final(self).line == old(self).line,
            final(self).col == old(self).col + (final(self).i - old(self).i),
            r@ == old(self).input@.subrange(old(self).i as int, final(self).i as int),
    {
        let start_i = self.i;
        let ghost start = self.i as int;
        while self.i < self.len && is_special_operator_char(self.input.get_char(self.i))
            invariant
                self.wf(),
                self.input == old(self).input,
                self.len == old(self).len,
                self.saved == old(self).saved,
                start <= self.i,
                self.line == old(self).line,
                self.col == old(self).col + (self.i - start),
                forall|j: int| start <= j < self.i ==> spec_is_special_operator(
                    #[trigger] self.input@[j]),
            decreases self.len - self.i,
        {
            self.next_char();
        }
        proof {
            assert(self.i > start) by {
                if self.i == start {
                    assert(spec_is_special_operator(self.input@[start]));
                }
            }
            lemma_op_run_is_scan(self.input@.skip(start + 1), self.i - start - 1);
        }
        String::from_str(self.input.substring_char(start_i, self.i))
    }

    /// Read the maximal run of `Normal`-class characters starting here.
    fn read_normal(&mut self) -> (r: String)
        requires
            old(self).wf(),
            old(self).i < old(self).len,
            !spec_is_space(old(self).input@[old(self).i as int]),
            !spec_is_special_single(old(self).input@[old(self).i as int]),
            !spec_is_special_operator(old(self).input@[old(self).i as int]),
        ensures
            final(self).wf(),
            final(self).input == old(self).input,
            final(self).len == old(self).len,
            final(self).saved == old(self).saved,
            final(self).i == old(self).i + 1
                + normal_run_len(old(self).input@.skip(old(self).i as int + 1)),
            final(self).line == old(self).line,
            final(self).col == old(self).col + (final(self).i - old(self).i),
            r@ == old(self).input@.subrange(old(self).i as int, final(self).i as int),
    {
        let start_i = self.i;
        let ghost start = self.i as int;
        while self.i < self.len && !is_space_char(self.input.get_char(self.i))
            && !is_special_single_char(self.input.get_char(self.i))
            && !is_special_operator_char(self.input.get_char(self.i))
            invariant
                self.wf(),
                self.input == old(self).input,
                self.len == old(self).len,
                self.saved == old(self).saved,
                start <= self.i,
                self.line == old(self).line,
                self.col == old(self).col + (self.i - start),
                forall|j: int| start <= j < self.i ==> (!spec_is_space(
                    #[trigger] self.input@[j]) && !spec_is_special_single(self.input@[j])
                    && !spec_is_special_operator(self.input@[j])),
            decreases self.len - self.i,
        {
            self.next_char();
        }
        proof {
            assert(self.i > start) by {
                if self.i == start {
                    assert(!spec_is_space(self.input@[start]));
                }
            }
            lemma_normal_run_is_scan(self.input@.skip(start + 1), self.i - start - 1);
        }
        String::from_str(self.input.substring_char(start_i, self.i))
    }

    /// Hand out the next token of the stream.
    #[verifier::rlimit(50)]
    pub fn next(&mut self) -> (t: Token)
        requires
            old(self).wf(),
        ensures
            final(self).wf(),
            old(self).stream().len() >= 1,
            t@ == old(self).stream()[0],
            t@.eof ==> final(self).stream() == old(self).stream(),
            !t@.eof ==> final(self).stream() == old(self).stream().skip(1),
    {
        // A buffered second half of a split operator run goes out first.
        if self.saved.is_some() {
            let mut swap: Option<Token> = None;
            core::mem::swap(&mut self.saved, &mut swap);
            let tok = swap.unwrap();
            proof {
                assert((seq![tok@] + self.stream()).skip(1) =~= self.stream());
            }
            return tok;
        }

        self.skip_whitespace();
        let ghost s0 = self.input@.skip(self.i as int);

        if self.i == self.len {
            proof {
                assert(s0.len() == 0);
            }
            return Token::eof(Loc::new(self.line, self.col));
        }

        let c = self.input.get_char(self.i);
        let loc = Loc::new(self.line, self.col);

        if is_special_single_char(c) {
            self.next_char();
            let text = String::from_str(self.input.substring_char(self.i - 1, self.i));
            proof {
                assert(text@ =~= seq![c]);
                assert(self.input@.skip(self.i as int) =~= s0.skip(1));
                assert((seq![tok_special(seq![c], loc.line as int, loc.col as int)]
                    + spec_tokens(s0.skip(1), loc.line as int, loc.col as int + 1)).skip(1)
                    =~= spec_tokens(s0.skip(1), loc.line as int, loc.col as int + 1));
            }
            return Token::new(TokenKind::Special(text), loc);
        }

        if is_special_operator_char(c) {
            let start_i = self.i;
            let start_col = self.col;
            let op = self.read_operator();
            let n = self.i - start_i;
            proof {
                assert(s0.skip(1) =~= self.input@.skip(start_i + 1));
                assert(op@ =~= s0.take(n as int));
                assert(self.input@.skip(self.i as int) =~= s0.skip(n as int));
            }
            if n > 1 {
                let last = self.input.get_char(self.i - 1);
                if is_unary_operator_char(last) {
                    let first = String::from_str(
                        self.input.substring_char(start_i, self.i - 1));
                    let second = String::from_str(
                        self.input.substring_char(self.i - 1, self.i));
                    proof {
                        assert(first@ =~= s0.take(n as int).take(n - 1));
                        assert(second@ =~= seq![s0.take(n as int)[n - 1]]);
                    }
                    self.saved = Some(Token::new(TokenKind::Special(second),
                        Loc::new(self.line, start_col + (n - 1))));
                    return Token::new(TokenKind::Special(first), loc);
                }
            }
            return Token::new(TokenKind::Special(op), loc);
        }

        let start_i = self.i;
        let text = self.read_normal();
        let ghost n = 1 + normal_run_len(s0.skip(1)) as int;
        proof {
            assert(s0.skip(1) =~= self.input@.skip(start_i + 1));
            assert(self.i - start_i == n);
            assert(text@ =~= s0.take(n));
            assert(self.input@.skip(self.i as int) =~= s0.skip(n));
        }
        Token::new(TokenKind::Normal(text), loc)
    }
}

/// Number of leading whitespace characters of `s`.
pub open spec fn leading_space_len(s: Seq<char>) -> nat
    decreases s.len(),
{
    if s.len() == 0 || !spec_is_space(s[0]) {
        0
    } else {
        1 + leading_space_len(s.skip(1))
    }
}

/// Number of trailing whitespace characters of `s`.
pub open spec fn trailing_space_len(s: Seq<char>) -> nat
    decreases s.len(),
{
    if s.len() == 0 || !spec_is_space(s.last()) {
        0
    } else {
        1 + trailing_space_len(s.drop_last())
    }
}

/// `s` without its leading and trailing whitespace.
pub open spec fn spec_trim(s: Seq<char>) -> Seq<char> {
    let rest = s.skip(leading_space_len(s) as int);
    rest.take(rest.len() - trailing_space_len(rest))
}

proof fn lemma_leading_space_scan(s: Seq<char>, k: int)
    requires
        0 <= k <= s.len(),
        forall|j: int| 0 <= j < k ==> spec_is_space(#[trigger] s[j]),
        k == s.len() || !spec_is_space(s[k]),
    ensures
        leading_space_len(s) == k,
    decreases k,
{
    if k > 0 {
        lemma_leading_space_scan(s.skip(1), k - 1);
    }
}

proof fn lemma_trailing_space_scan(s: Seq<char>, k: int)
    requires
        0 <= k <= s.len(),
        forall|j: int| s.len() - k <= j < s.len() ==> spec_is_space(#[trigger] s[j]),
        k == s.len() || !spec_is_space(s[s.len() - k - 1]),
    ensures
        trailing_space_len(s) == k,
    decreases k,
{
    if k > 0 {
        assert(spec_is_space(s.last()));
        lemma_trailing_space_scan(s.drop_last(), k - 1);
    }
}

/// A copy of `s` without its leading and trailing whitespace, the way a
/// directive string is normalized before parsing.
pub fn trim_text(s: &str) -> (r: String)
    ensures
        r@ == spec_trim(s@),
        r@.len() <= s@.len(),
{
    let n = s.unicode_len();
    let mut a: usize = 0;
    while a < n && is_space_char(s.get_char(a))
        invariant
            0 <= a <= n,
            n == s@.len(),
            forall|j: int| 0 <= j < a ==> spec_is_space(#[trigger] s@[j]),
        decreases n - a,
    {
        a = a + 1;
    }
    proof {
        lemma_leading_space_scan(s@, a as int);
    }
    let mut b: usize = n;
    while b > a && is_space_char(s.get_char(b - 1))
        invariant
            a <= b <= n,
            n == s@.len(),
            forall|j: int| b <= j < n ==> spec_is_space(#[trigger] s@[j]),
        decreases b,
    {
        b = b - 1;
    }
    proof {
        let rest = s@.skip(a as int);
        if b == a {
            // Everything after the leading run is whitespace.
            lemma_trailing_space_scan(rest, n - a);
        } else {
            assert(!spec_is_space(rest[b - a - 1]));
            lemma_trailing_space_scan(rest, n - b);
        }
        assert(rest.take(rest.len() - trailing_space_len(rest))
            =~= s@.subrange(a as int, b as int));
    }
    String::from_str(s.substring_char(a, b))
}

/// Shape of every token stream: at least one token, the last one is the only
/// `Eof`, and every other token has text.
pub proof fn lemma_spec_tokens_shape(s: Seq<char>, line: int, col: int)
    ensures
        spec_tokens(s, line, col).len() >= 1,
        spec_tokens(s, line, col).last().eof,
        forall|j: int| 0 <= j < spec_tokens(s, line, col).len() - 1 ==> (
            !#[trigger] spec_tokens(s, line, col)[j].eof
            && spec_tokens(s, line, col)[j].text.len() >= 1),
    decreases s.len(),
{
    let ts = spec_tokens(s, line, col);
    if s.len() == 0 {
    } else {
        let c = s[0];
        if c == '\n' {
            lemma_spec_tokens_shape(s.skip(1), line + 1, 1);
        } else if spec_is_space(c) {
            lemma_spec_tokens_shape(s.skip(1), line, col + 1);
        } else if spec_is_special_single(c) {
            lemma_spec_tokens_shape(s.skip(1), line, col + 1);
            let tail = spec_tokens(s.skip(1), line, col + 1);
            assert(ts.last() == tail.last());
            assert forall|j: int| 0 <= j < ts.len() - 1 implies (!ts[j].eof
                && ts[j].text.len() >= 1) by {
                if j >= 1 {
                    assert(ts[j] == tail[j - 1]);
                }
            }
        } else if spec_is_special_operator(c) {
            let n = 1 + op_run_len(s.skip(1)) as int;
            lemma_op_run_le(s.skip(1));
            lemma_spec_tokens_shape(s.skip(n), line, col + n);
            let tail = spec_tokens(s.skip(n), line, col + n);
            let run = s.take(n);
            if n > 1 && spec_is_unary_char(run[n - 1]) {
                assert(ts.last() == tail.last());
                assert forall|j: int| 0 <= j < ts.len() - 1 implies (!ts[j].eof
                    && ts[j].text.len() >= 1) by {
                    if j >= 2 {
                        assert(ts[j] == tail[j - 2]);
                    }
                }
            } else {
                assert(ts.last() == tail.last());
                assert forall|j: int| 0 <= j < ts.len() - 1 implies (!ts[j].eof
                    && ts[j].text.len() >= 1) by {
                    if j >= 1 {
                        assert(ts[j] == tail[j - 1]);
                    }
                }
            }
        } else {
            let n = 1 + normal_run_len(s.skip(1)) as int;
            lemma_normal_run_le(s.skip(1));
            lemma_spec_tokens_shape(s.skip(n), line, col + n);
            let tail = spec_tokens(s.skip(n), line, col + n);
            assert(ts.last() == tail.last());
            assert forall|j: int| 0 <= j < ts.len() - 1 implies (!ts[j].eof
                && ts[j].text.len() >= 1) by {
                if j >= 1 {
                    assert(ts[j] == tail[j - 1]);
                }
            }
        }
    }
}

} // verus!
