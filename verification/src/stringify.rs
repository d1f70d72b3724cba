//! Canonical re-serialization of a parsed directive.
//!
//! [`ExpressionNode::stringify`] renders a tree back to directive syntax
//! with no inserted whitespace: commands as
//! `name[.sub][:args,...][@series,...]`, binary applications as the two
//! operands around the bare operator text, unary applications as the
//! operator text before its operand, and nested directives inside a series
//! slot wrapped in parentheses. [`spec_stringify`] is the mathematical
//! statement of the rendering; the executable functions are proved to
//! produce exactly it.

use vstd::prelude::*;
use vstd::string::*;
use crate::types::{ArgumentModel, CommandModel, CommandNode, ExpressionNode, ExprModel,
    Primitive, PrimitiveModel, SeriesArgumentNode, SeriesModel, view_series_seq,
    lemma_view_series_seq_len, lemma_view_series_seq_index};

verus! {

// ---------------------------------------------------------------------------
// Rendering, stated mathematically
// ---------------------------------------------------------------------------

pub open spec fn spec_digit_char(d: nat) -> char {
    if d == 0 {
        '0'
    } else if d == 1 {
        '1'
    } else if d == 2 {
        '2'
    } else if d == 3 {
        '3'
    } else if d == 4 {
        '4'
    } else if d == 5 {
        '5'
    } else if d == 6 {
        '6'
    } else if d == 7 {
        '7'
    } else if d == 8 {
        '8'
    } else {
        '9'
    }
}

/// Decimal digits of `n`, most significant first.
pub open spec fn spec_digits_of(n: nat) -> Seq<char>
    decreases n,
{
    if n < 10 {
        seq![spec_digit_char(n)]
    } else {
        spec_digits_of(n / 10).push(spec_digit_char(n % 10))
    }
}

/// Decimal text of a signed integer.
pub open spec fn spec_int_text(i: int) -> Seq<char> {
    if i < 0 {
        seq!['-'] + spec_digits_of((-i) as nat)
    } else {
        spec_digits_of(i as nat)
    }
}

/// Text of a primitive: integers in decimal, float literals and bare words
/// as their own text, booleans as `true`/`false`.
pub open spec fn spec_prim_text(p: PrimitiveModel) -> Seq<char> {
    match p {
        PrimitiveModel::Int(i) => spec_int_text(i),
        PrimitiveModel::Float(s) => s,
        PrimitiveModel::Str(s) => s,
        PrimitiveModel::Bool(b) => if b {
            seq!['t', 'r', 'u', 'e']
        } else {
            seq!['f', 'a', 'l', 's', 'e']
        },
    }
}

/// Text of an argument slot; an empty slot renders as nothing, so empty
/// slots survive between the commas around them.
pub open spec fn spec_arg_text(a: ArgumentModel) -> Seq<char> {
    match a.value {
        Some(p) => spec_prim_text(p),
        None => Seq::empty(),
    }
}

/// Argument slots joined by commas.
pub open spec fn spec_join_args(args: Seq<ArgumentModel>) -> Seq<char>
    decreases args.len(),
{
    if args.len() == 0 {
        Seq::empty()
    } else if args.len() == 1 {
        spec_arg_text(args[0])
    } else {
        spec_arg_text(args[0]) + seq![','] + spec_join_args(args.skip(1))
    }
}

/// The whole rendering of an expression.
pub open spec fn spec_stringify(e: ExprModel) -> Seq<char>
    decreases e,
{
    match e {
        ExprModel::Scalar { value, .. } => spec_prim_text(value),
        ExprModel::Command(c) => spec_stringify_command(c),
        ExprModel::Binary { operator, left, right, .. } => spec_stringify(*left)
            + operator.name + spec_stringify(*right),
        ExprModel::Unary { operator, expression, .. } => operator.name + spec_stringify(
            *expression,
        ),
    }
}

pub open spec fn spec_stringify_command(c: CommandModel) -> Seq<char>
    decreases c,
{
    c.name + (match c.sub {
        Some(s) => seq!['.'] + s,
        None => Seq::empty(),
    }) + (if c.args.len() > 0 {
        seq![':'] + spec_join_args(c.args)
    } else {
        Seq::empty()
    }) + (if c.series.len() > 0 {
        seq!['@'] + spec_join_series(c.series)
    } else {
        Seq::empty()
    })
}

/// Text of one series slot; a nested directive is parenthesized.
pub open spec fn spec_series_text(s: SeriesModel) -> Seq<char>
    decreases s,
{
    match s {
        SeriesModel::Column { name, .. } => name,
        SeriesModel::Directive { expr, .. } => seq!['('] + spec_stringify(*expr) + seq![')'],
        SeriesModel::Empty { .. } => Seq::empty(),
    }
}

/// Series slots joined by commas.
pub open spec fn spec_join_series(ss: Seq<SeriesModel>) -> Seq<char>
    decreases ss,
{
    if ss.len() == 0 {
        Seq::empty()
    } else if ss.len() == 1 {
        spec_series_text(ss[0])
    } else {
        spec_series_text(ss[0]) + seq![','] + spec_join_series(ss.skip(1))
    }
}

// ---------------------------------------------------------------------------
// Join lemmas: a comma-joined list grows one element at a time
// ---------------------------------------------------------------------------

proof fn lemma_join_args_split(s: Seq<ArgumentModel>, k: int)
    requires
        0 < k < s.len(),
    ensures
        spec_join_args(s) == spec_join_args(s.take(k)) + seq![','] + spec_join_args(s.skip(k)),
    decreases k,
{
    if k == 1 {
        assert(s.take(1) =~= seq![s[0]]);
    } else {
        lemma_join_args_split(s.skip(1), k - 1);
        assert(s.skip(1).take(k - 1) =~= s.take(k).skip(1));
        assert(s.skip(1).skip(k - 1) =~= s.skip(k));
        assert(s.take(k)[0] == s[0]);
        assert(spec_join_args(s) == spec_arg_text(s[0]) + seq![',']
            + ((spec_join_args(s.take(k).skip(1)) + seq![','] + spec_join_args(s.skip(k)))));
        assert(spec_join_args(s.take(k)) == spec_arg_text(s[0]) + seq![',']
            + spec_join_args(s.take(k).skip(1)));
        assert(spec_arg_text(s[0]) + seq![','] + (spec_join_args(s.take(k).skip(1)) + seq![',']
            + spec_join_args(s.skip(k))) =~= (spec_arg_text(s[0]) + seq![',']
            + spec_join_args(s.take(k).skip(1))) + seq![','] + spec_join_args(s.skip(k)));
    }
}

proof fn lemma_join_args_snoc(s: Seq<ArgumentModel>, i: int)
    requires
        0 <= i < s.len(),
    ensures
        spec_join_args(s.take(i + 1)) == spec_join_args(s.take(i)) + (if i > 0 {
            seq![',']
        } else {
            Seq::<char>::empty()
        }) + spec_arg_text(s[i]),
{
    let t = s.take(i + 1);
    assert(t.skip(i) =~= seq![s[i]]);
    if i == 0 {
        assert(t =~= seq![s[i]]);
        assert(spec_join_args(s.take(0)) =~= Seq::<char>::empty());
        assert(Seq::<char>::empty() + Seq::<char>::empty() + spec_arg_text(s[i])
            =~= spec_arg_text(s[i]));
    } else {
        lemma_join_args_split(t, i);
        assert(t.take(i) =~= s.take(i));
        assert(spec_join_args(seq![s[i]]) == spec_arg_text(s[i]));
    }
}

proof fn lemma_join_series_split(s: Seq<SeriesModel>, k: int)
    requires
        0 < k < s.len(),
    ensures
        spec_join_series(s) == spec_join_series(s.take(k)) + seq![','] + spec_join_series(
            s.skip(k),
        ),
    decreases k,
{
    if k == 1 {
        assert(s.take(1) =~= seq![s[0]]);
    } else {
        lemma_join_series_split(s.skip(1), k - 1);
        assert(s.skip(1).take(k - 1) =~= s.take(k).skip(1));
        assert(s.skip(1).skip(k - 1) =~= s.skip(k));
        assert(s.take(k)[0] == s[0]);
        assert(spec_join_series(s) == spec_series_text(s[0]) + seq![',']
            + ((spec_join_series(s.take(k).skip(1)) + seq![',']
            + spec_join_series(s.skip(k)))));
        assert(spec_join_series(s.take(k)) == spec_series_text(s[0]) + seq![',']
            + spec_join_series(s.take(k).skip(1)));
        assert(spec_series_text(s[0]) + seq![','] + (spec_join_series(s.take(k).skip(1))
            + seq![','] + spec_join_series(s.skip(k))) =~= (spec_series_text(s[0]) + seq![',']
            + spec_join_series(s.take(k).skip(1))) + seq![','] + spec_join_series(s.skip(k)));
    }
}

proof fn lemma_join_series_snoc(s: Seq<SeriesModel>, i: int)
    requires
        0 <= i < s.len(),
    ensures
        spec_join_series(s.take(i + 1)) == spec_join_series(s.take(i)) + (if i > 0 {
            seq![',']
        } else {
            Seq::<char>::empty()
        }) + spec_series_text(s[i]),
{
    let t = s.take(i + 1);
    assert(t.skip(i) =~= seq![s[i]]);
    if i == 0 {
        assert(t =~= seq![s[i]]);
        assert(spec_join_series(s.take(0)) =~= Seq::<char>::empty());
        assert(Seq::<char>::empty() + Seq::<char>::empty() + spec_series_text(s[i])
            =~= spec_series_text(s[i]));
    } else {
        lemma_join_series_split(t, i);
        assert(t.take(i) =~= s.take(i));
        assert(spec_join_series(seq![s[i]]) == spec_series_text(s[i]));
    }
}

// ---------------------------------------------------------------------------
// Executable rendering
// ---------------------------------------------------------------------------

fn digit_str(d: u64) -> (r: &'static str)
    requires
        d < 10,
    ensures
        r@ == seq![spec_digit_char(d as nat)],
{
    proof {
        reveal_strlit("0");
        reveal_strlit("1");
        reveal_strlit("2");
        reveal_strlit("3");
        reveal_strlit("4");
        reveal_strlit("5");
        reveal_strlit("6");
        reveal_strlit("7");
        reveal_strlit("8");
        reveal_strlit("9");
    }
    let s = if d == 0 {
        "0"
    } else if d == 1 {
        "1"
    } else if d == 2 {
        "2"
    } else if d == 3 {
        "3"
    } else if d == 4 {
        "4"
    } else if d == 5 {
        "5"
    } else if d == 6 {
        "6"
    } else if d == 7 {
        "7"
    } else if d == 8 {
        "8"
    } else {
        "9"
    };
    proof {
        assert(s@ =~= seq![spec_digit_char(d as nat)]);
    }
    s
}

fn push_digits(n: u64, out: &mut String)
    ensures
        final(out)@ == old(out)@ + spec_digits_of(n as nat),
    decreases n,
{
    if n >= 10 {
        push_digits(n / 10, out);
        out.append(digit_str(n % 10));
        proof {
            assert(old(out)@ + spec_digits_of(n as nat / 10) + seq![spec_digit_char(
                n as nat % 10,
            )] =~= old(out)@ + spec_digits_of(n as nat / 10).push(spec_digit_char(
                n as nat % 10,
            )));
        }
    } else {
        out.append(digit_str(n));
    }
}

/// Decimal text of an `i64`.
pub fn int_to_string(i: i64) -> (r: String)
    ensures
        r@ == spec_int_text(i as int),
{
    let mut out = String::new();
    if i < 0 {
        proof {
            reveal_strlit("-");
        }
        out.append("-");
        let m: u64 = if i == i64::MIN {
            9223372036854775808u64
        } else {
            (-i) as u64
        };
        proof {
            assert("-"@ =~= seq!['-']);
            assert(m as nat == (-(i as int)) as nat);
        }
        push_digits(m, &mut out);
        proof {
            assert(Seq::<char>::empty() + seq!['-'] =~= seq!['-']);
        }
    } else {
        push_digits(i as u64, &mut out);
        proof {
            assert(Seq::<char>::empty() + spec_digits_of(i as nat) =~= spec_digits_of(
                i as nat,
            ));
        }
    }
    out
}

impl Primitive {
    /// Render this primitive as directive text.
    pub fn stringify(&self) -> (r: String)
        ensures
            r@ == spec_prim_text(self@),
    {
        match self {
            Primitive::Int(i) => int_to_string(*i),
            Primitive::Float(s) => s.clone(),
            Primitive::String(s) => s.clone(),
            Primitive::Bool(b) => {
                proof {
                    reveal_strlit("true");
                    reveal_strlit("false");
                }
                if *b {
                    proof {
                        assert("true"@ =~= seq!['t', 'r', 'u', 'e']);
                    }
                    String::from_str("true")
                } else {
                    proof {
                        assert("false"@ =~= seq!['f', 'a', 'l', 's', 'e']);
                    }
                    String::from_str("false")
                }
            },
        }
    }
}

impl CommandNode {
    /// Render this command as directive text:
    /// `name[.sub][:args,...][@series,...]`.
    #[verifier::loop_isolation(false)]
    #[verifier::rlimit(60)]
    pub fn stringify(&self) -> (r: String)
        ensures
            r@ == spec_stringify_command(self@),
        decreases *self,
    {
        let ghost c = self@;
        let mut out = self.name.clone();
        match &self.sub {
            Some(s) => {
                proof {
                    reveal_strlit(".");
                    assert("."@ =~= seq!['.']);
                }
                out.append(".");
                out.append(s.as_str());
            },
            None => {},
        }
        let ghost head = out@;
        proof {
            assert(head =~= c.name + (match c.sub {
                Some(s) => seq!['.'] + s,
                None => Seq::<char>::empty(),
            }));
        }

        if self.args.len() > 0 {
            proof {
                reveal_strlit(":");
                assert(":"@ =~= seq![':']);
            }
            out.append(":");
            let ghost base = out@;
            let mut i: usize = 0;
            proof {
                assert(c.args.take(0) =~= Seq::<ArgumentModel>::empty());
                assert(base + Seq::<char>::empty() =~= base);
            }
            while i < self.args.len()
                invariant
                    0 <= i <= self.args.len(),
                    out@ == base + spec_join_args(c.args.take(i as int)),
                decreases self.args.len() - i,
            {
                proof {
                    reveal_strlit(",");
                    assert(","@ =~= seq![',']);
                }
                if i > 0 {
                    out.append(",");
                }
                match &self.args[i].value {
                    Some(p) => {
                        let t = p.stringify();
                        out.append(t.as_str());
                    },
                    None => {},
                }
                proof {
                    assert(c.args[i as int] == self.args@[i as int]@);
                    lemma_join_args_snoc(c.args, i as int);
                }
                i = i + 1;
            }
            proof {
                assert(c.args.take(c.args.len() as int) =~= c.args);
            }
        }
        let ghost mid = out@;
        proof {
            assert(mid =~= head + (if c.args.len() > 0 {
                seq![':'] + spec_join_args(c.args)
            } else {
                Seq::<char>::empty()
            }));
        }

        if self.series.len() > 0 {
            proof {
                reveal_strlit("@");
                assert("@"@ =~= seq!['@']);
                lemma_view_series_seq_len(self.series@);
            }
            out.append("@");
            let ghost base = out@;
            let mut i: usize = 0;
            proof {
                assert(c.series.take(0) =~= Seq::<SeriesModel>::empty());
                assert(base + Seq::<char>::empty() =~= base);
            }
            while i < self.series.len()
                invariant
                    0 <= i <= self.series.len(),
                    out@ == base + spec_join_series(c.series.take(i as int)),
                decreases self.series.len() - i,
            {
                proof {
                    reveal_strlit(",");
                    assert(","@ =~= seq![',']);
                    lemma_view_series_seq_index(self.series@, i as int);
                }
                if i > 0 {
                    out.append(",");
                }
                let t = series_slot_text(&self.series[i]);
                out.append(t.as_str());
                proof {
                    lemma_join_series_snoc(c.series, i as int);
                }
                i = i + 1;
            }
            proof {
                assert(c.series.take(c.series.len() as int) =~= c.series);
            }
        }
        proof {
            assert(out@ =~= mid + (if c.series.len() > 0 {
                seq!['@'] + spec_join_series(c.series)
            } else {
                Seq::<char>::empty()
            }));
        }
        out
    }
}

/// Text of one series slot; a nested directive is wrapped in parentheses.
fn series_slot_text(slot: &SeriesArgumentNode) -> (r: String)
    ensures
        r@ == spec_series_text(slot@),
    decreases *slot,
{
    match slot {
        SeriesArgumentNode::Column(_, name) => name.clone(),
        SeriesArgumentNode::Directive(_, e) => {
            proof {
                reveal_strlit("(");
                reveal_strlit(")");
                assert("("@ =~= seq!['(']);
                assert(")"@ =~= seq![')']);
            }
            let mut out = String::from_str("(");
            let inner = e.stringify();
            out.append(inner.as_str());
            out.append(")");
            out
        },
        SeriesArgumentNode::Empty(_) => String::new(),
    }
}

impl ExpressionNode {
    /// Render this tree back to directive syntax, with no inserted
    /// whitespace.
    pub fn stringify(&self) -> (r: String)
        ensures
            r@ == spec_stringify(self@),
        decreases *self,
    {
        match self {
            ExpressionNode::Scalar(s) => s.value.stringify(),
            ExpressionNode::Command(c) => c.stringify(),
            ExpressionNode::Binary { operator, left, right, .. } => {
                let mut out = left.stringify();
                out.append(operator.name.as_str());
                let rt = right.stringify();
                out.append(rt.as_str());
                out
            },
            ExpressionNode::Unary { operator, expression, .. } => {
                let mut out = operator.name.clone();
                let et = expression.stringify();
                out.append(et.as_str());
                out
            },
        }
    }
}

/// Decimal text of a `usize`, for positions in messages.
pub fn usize_to_string(n: usize) -> (r: String)
    ensures
        r@ == spec_digits_of(n as nat),
{
    let mut out = String::new();
    push_digits(n as u64, &mut out);
    proof {
        assert(Seq::<char>::empty() + spec_digits_of(n as nat) =~= spec_digits_of(n as nat));
    }
    out
}

/// Render a parsed directive back to its canonical text.
pub fn directive_stringify(directive: &ExpressionNode) -> (r: String)
    ensures
        r@ == spec_stringify(directive@),
{
    directive.stringify()
}

} // verus!
