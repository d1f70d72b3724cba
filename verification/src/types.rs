//! Types for the directive AST.
//!
//! The parser produces a tree of [`ExpressionNode`]s: scalar literals,
//! commands with positional arguments and series selectors, and binary and
//! unary operator applications. Each executable type has a mathematical
//! model (`...Model`) over `int`, `Seq` and `Option`, reached through the
//! view operator `@`; all contracts speak of those models.

use vstd::prelude::*;
use crate::tokenizer::Loc;

verus! {

/// A primitive value: an integer, a floating-point literal, a bare word, or
/// a boolean.
///
/// A floating-point literal is kept as its source text (digits, one dot,
/// fraction digits, and for a negated literal a leading minus sign); the
/// numeric kernels downstream give it its numeric reading.
#[derive(Debug, Clone)]
pub enum Primitive {
    Int(i64),
    Float(String),
    String(String),
    Bool(bool),
}

/// Mathematical image of a [`Primitive`].
pub enum PrimitiveModel {
    Int(int),
    Float(Seq<char>),
    Str(Seq<char>),
    Bool(bool),
}

impl View for Primitive {
    type V = PrimitiveModel;

    open spec fn view(&self) -> PrimitiveModel {
        match self {
            Primitive::Int(i) => PrimitiveModel::Int(*i as int),
            Primitive::Float(s) => PrimitiveModel::Float(s@),
            Primitive::String(s) => PrimitiveModel::Str(s@),
            Primitive::Bool(b) => PrimitiveModel::Bool(*b),
        }
    }
}

/// One positional argument slot of a command; `value: None` means the slot
/// was written empty and the command's default is to be used.
#[derive(Debug, Clone)]
pub struct ArgumentNode {
    pub loc: Loc,
    pub value: Option<Primitive>,
}

/// Mathematical image of an [`ArgumentNode`].
pub struct ArgumentModel {
    pub line: int,
    pub col: int,
    pub value: Option<PrimitiveModel>,
}

impl View for ArgumentNode {
    type V = ArgumentModel;

    open spec fn view(&self) -> ArgumentModel {
        ArgumentModel {
            line: self.loc.line as int,
            col: self.loc.col as int,
            value: match self.value {
                Some(p) => Some(p@),
                None => None,
            },
        }
    }
}

/// One series slot of a command: a named input column, a parenthesized
/// nested directive, or an explicitly empty slot.
#[derive(Debug)]
pub enum SeriesArgumentNode {
    Column(Loc, String),
    Directive(Loc, Box<ExpressionNode>),
    Empty(Loc),
}

/// Mathematical image of a [`SeriesArgumentNode`].
pub enum SeriesModel {
    Column { line: int, col: int, name: Seq<char> },
    Directive { line: int, col: int, expr: Box<ExprModel> },
    Empty { line: int, col: int },
}

/// A scalar node with a value.
#[derive(Debug, Clone)]
pub struct ScalarNode<T> {
    pub loc: Loc,
    pub value: T,
}

/// An operator with its fixed priority.
#[derive(Debug, Clone)]
pub struct OperatorNode {
    pub loc: Loc,
    pub name: String,
    pub priority: i32,
}

/// Mathematical image of an [`OperatorNode`].
pub struct OperatorModel {
    pub line: int,
    pub col: int,
    pub name: Seq<char>,
    pub priority: int,
}

impl View for OperatorNode {
    type V = OperatorModel;

    open spec fn view(&self) -> OperatorModel {
        OperatorModel {
            line: self.loc.line as int,
            col: self.loc.col as int,
            name: self.name@,
            priority: self.priority as int,
        }
    }
}

/// A command: name, optional sub-name, positional arguments, and series
/// slots, in source order.
#[derive(Debug)]
pub struct CommandNode {
    pub loc: Loc,
    pub name: String,
    pub sub: Option<String>,
    pub args: Vec<ArgumentNode>,
    pub series: Vec<SeriesArgumentNode>,
}

/// Mathematical image of a [`CommandNode`].
pub struct CommandModel {
    pub line: int,
    pub col: int,
    pub name: Seq<char>,
    pub sub: Option<Seq<char>>,
    pub args: Seq<ArgumentModel>,
    pub series: Seq<SeriesModel>,
}

/// A parsed directive: the expression tree.
#[derive(Debug)]
pub enum ExpressionNode {
    /// A scalar literal.
    Scalar(ScalarNode<Primitive>),
    /// A command invocation.
    Command(CommandNode),
    /// A binary operator application.
    Binary {
        loc: Loc,
        operator: OperatorNode,
        left: Box<ExpressionNode>,
        right: Box<ExpressionNode>,
    },
    /// A unary operator application.
    Unary {
        loc: Loc,
        operator: OperatorNode,
        expression: Box<ExpressionNode>,
    },
}

/// Mathematical image of an [`ExpressionNode`].
pub enum ExprModel {
    Scalar { line: int, col: int, value: PrimitiveModel },
    Command(CommandModel),
    Binary {
        line: int,
        col: int,
        operator: OperatorModel,
        left: Box<ExprModel>,
        right: Box<ExprModel>,
    },
    Unary { line: int, col: int, operator: OperatorModel, expression: Box<ExprModel> },
}

pub open spec fn view_expr(e: ExpressionNode) -> ExprModel
    decreases e,
{
    match e {
        ExpressionNode::Scalar(s) => ExprModel::Scalar {
            line: s.loc.line as int,
            col: s.loc.col as int,
            value: s.value@,
        },
        ExpressionNode::Command(c) => ExprModel::Command(view_command(c)),
        ExpressionNode::Binary { loc, operator, left, right } => ExprModel::Binary {
            line: loc.line as int,
            col: loc.col as int,
            operator: operator@,
            left: Box::new(view_expr(*left)),
            right: Box::new(view_expr(*right)),
        },
        ExpressionNode::Unary { loc, operator, expression } => ExprModel::Unary {
            line: loc.line as int,
            col: loc.col as int,
            operator: operator@,
            expression: Box::new(view_expr(*expression)),
        },
    }
}

pub open spec fn view_command(c: CommandNode) -> CommandModel
    decreases c,
{
    CommandModel {
        line: c.loc.line as int,
        col: c.loc.col as int,
        name: c.name@,
        sub: match c.sub {
            Some(s) => Some(s@),
            None => None,
        },
        args: c.args@.map_values(|a: ArgumentNode| a@),
        series: view_series_seq(c.series@),
    }
}

pub open spec fn view_series_seq(s: Seq<SeriesArgumentNode>) -> Seq<SeriesModel>
    decreases s,
{
    if s.len() == 0 {
        Seq::empty()
    } else {
        view_series_seq(s.drop_last()).push(view_series(s.last()))
    }
}

pub open spec fn view_series(x: SeriesArgumentNode) -> SeriesModel
    decreases x,
{
    match x {
        SeriesArgumentNode::Column(l, name) => SeriesModel::Column {
            line: l.line as int,
            col: l.col as int,
            name: name@,
        },
        SeriesArgumentNode::Directive(l, e) => SeriesModel::Directive {
            line: l.line as int,
            col: l.col as int,
            expr: Box::new(view_expr(*e)),
        },
        SeriesArgumentNode::Empty(l) => SeriesModel::Empty {
            line: l.line as int,
            col: l.col as int,
        },
    }
}

impl View for ExpressionNode {
    type V = ExprModel;

    open spec fn view(&self) -> ExprModel {
        view_expr(*self)
    }
}

impl View for CommandNode {
    type V = CommandModel;

    open spec fn view(&self) -> CommandModel {
        view_command(*self)
    }
}

impl View for SeriesArgumentNode {
    type V = SeriesModel;

    open spec fn view(&self) -> SeriesModel {
        view_series(*self)
    }
}

impl ExprModel {
    /// Line of the first token that began this construct.
    pub open spec fn line(self) -> int {
        match self {
            ExprModel::Scalar { line, .. } => line,
            ExprModel::Command(c) => c.line,
            ExprModel::Binary { line, .. } => line,
            ExprModel::Unary { line, .. } => line,
        }
    }

    /// Column of the first token that began this construct.
    pub open spec fn col(self) -> int {
        match self {
            ExprModel::Scalar { col, .. } => col,
            ExprModel::Command(c) => c.col,
            ExprModel::Binary { col, .. } => col,
            ExprModel::Unary { col, .. } => col,
        }
    }
}

impl ExpressionNode {
    /// The position of the first token that began this node.
    pub fn loc(&self) -> (l: Loc)
        ensures
            l.line as int == self@.line(),
            l.col as int == self@.col(),
    {
        match self {
            ExpressionNode::Scalar(s) => {
                proof {
                    assert(view_expr(*self) == ExprModel::Scalar {
                        line: s.loc.line as int,
                        col: s.loc.col as int,
                        value: s.value@,
                    });
                }
                s.loc
            }
            ExpressionNode::Command(c) => {
                proof {
                    assert(view_expr(*self) == ExprModel::Command(view_command(*c)));
                    assert(view_command(*c).line == c.loc.line as int);
                }
                c.loc
            }
            ExpressionNode::Binary { loc, .. } => {
                proof {
                    assert(view_expr(*self).line() == loc.line as int);
                }
                *loc
            }
            ExpressionNode::Unary { loc, .. } => {
                proof {
                    assert(view_expr(*self).line() == loc.line as int);
                }
                *loc
            }
        }
    }
}

/// Every element of the model of a series list is the model of the
/// corresponding element of the list.
pub proof fn lemma_view_series_seq_index(s: Seq<SeriesArgumentNode>, i: int)
    requires
        0 <= i < s.len(),
    ensures
        view_series_seq(s).len() == s.len(),
        view_series_seq(s)[i] == view_series(s[i]),
    decreases s,
{
    lemma_view_series_seq_len(s);
    if i < s.len() - 1 {
        lemma_view_series_seq_index(s.drop_last(), i);
    }
}

// ---------------------------------------------------------------------------
// Deep clones, with their contracts
// ---------------------------------------------------------------------------

fn clone_prim(p: &Primitive) -> (r: Primitive)
    ensures
        r@ == p@,
{
    match p {
        Primitive::Int(i) => Primitive::Int(*i),
        Primitive::Float(s) => Primitive::Float(s.clone()),
        Primitive::String(s) => Primitive::String(s.clone()),
        Primitive::Bool(b) => Primitive::Bool(*b),
    }
}

fn clone_arg(a: &ArgumentNode) -> (r: ArgumentNode)
    ensures
        r@ == a@,
{
    ArgumentNode {
        loc: a.loc,
        value: match &a.value {
            Some(p) => Some(clone_prim(p)),
            None => None,
        },
    }
}

fn clone_operator(o: &OperatorNode) -> (r: OperatorNode)
    ensures
        r@ == o@,
{
    OperatorNode { loc: o.loc, name: o.name.clone(), priority: o.priority }
}

fn clone_expr(e: &ExpressionNode) -> (r: ExpressionNode)
    ensures
        r@ == e@,
    decreases *e,
{
    match e {
        ExpressionNode::Scalar(s) => ExpressionNode::Scalar(ScalarNode {
            loc: s.loc,
            value: clone_prim(&s.value),
        }),
        ExpressionNode::Command(c) => ExpressionNode::Command(clone_command_node(c)),
        ExpressionNode::Binary { loc, operator, left, right } => ExpressionNode::Binary {
            loc: *loc,
            operator: clone_operator(operator),
            left: Box::new(clone_expr(left)),
            right: Box::new(clone_expr(right)),
        },
        ExpressionNode::Unary { loc, operator, expression } => ExpressionNode::Unary {
            loc: *loc,
            operator: clone_operator(operator),
            expression: Box::new(clone_expr(expression)),
        },
    }
}

/// Two series lists with pointwise equal slot models have equal models.
proof fn lemma_view_series_seq_pointwise(a: Seq<SeriesArgumentNode>, b: Seq<SeriesArgumentNode>)
    requires
        a.len() == b.len(),
        forall|j: int| 0 <= j < a.len() ==> view_series(#[trigger] a[j]) == view_series(b[j]),
    ensures
        view_series_seq(a) == view_series_seq(b),
{
    lemma_view_series_seq_len(a);
    lemma_view_series_seq_len(b);
    assert forall|j: int| 0 <= j < a.len() implies #[trigger] view_series_seq(a)[j]
        == view_series_seq(b)[j] by {
        lemma_view_series_seq_index(a, j);
        lemma_view_series_seq_index(b, j);
    }
    assert(view_series_seq(a) =~= view_series_seq(b));
}

fn clone_command_node(c: &CommandNode) -> (r: CommandNode)
    ensures
        r@ == c@,
    decreases *c,
{
    let sub = match &c.sub {
        Some(s) => Some(s.clone()),
        None => None,
    };
    let mut args: Vec<ArgumentNode> = Vec::new();
    let mut i: usize = 0;
    while i < c.args.len()
        invariant
            0 <= i <= c.args.len(),
            args@.len() == i,
            forall|j: int| 0 <= j < i ==> (#[trigger] args@[j])@ == c.args@[j]@,
        decreases c.args.len() - i,
    {
        args.push(clone_arg(&c.args[i]));
        i = i + 1;
    }
    let mut series: Vec<SeriesArgumentNode> = Vec::new();
    let mut i: usize = 0;
    while i < c.series.len()
        invariant
            0 <= i <= c.series.len(),
            series@.len() == i,
            forall|j: int| 0 <= j < i ==> view_series(#[trigger] series@[j])
                == view_series(c.series@[j]),
        decreases c.series.len() - i,
    {
        series.push(clone_series_slot(&c.series[i]));
        i = i + 1;
    }
    let r = CommandNode { loc: c.loc, name: c.name.clone(), sub, args, series };
    proof {
        assert(r.args@.map_values(|a: ArgumentNode| a@)
            =~= c.args@.map_values(|a: ArgumentNode| a@));
        lemma_view_series_seq_pointwise(r.series@, c.series@);
    }
    r
}

fn clone_series_slot(s: &SeriesArgumentNode) -> (r: SeriesArgumentNode)
    ensures
        r@ == s@,
    decreases *s,
{
    match s {
        SeriesArgumentNode::Column(l, name) => SeriesArgumentNode::Column(*l, name.clone()),
        SeriesArgumentNode::Directive(l, e) => SeriesArgumentNode::Directive(
            *l,
            Box::new(clone_expr(e)),
        ),
        SeriesArgumentNode::Empty(l) => SeriesArgumentNode::Empty(*l),
    }
}

impl Clone for ExpressionNode {
    /// A deep copy with the same model.
    fn clone(&self) -> (res: Self)
        ensures
            res@ == self@,
    {
        clone_expr(self)
    }
}

impl Clone for CommandNode {
    /// A deep copy with the same model.
    fn clone(&self) -> (res: Self)
        ensures
            res@ == self@,
    {
        clone_command_node(self)
    }
}

impl Clone for SeriesArgumentNode {
    /// A deep copy with the same model.
    fn clone(&self) -> (res: Self)
        ensures
            res@ == self@,
    {
        clone_series_slot(self)
    }
}

// ---------------------------------------------------------------------------
// Structural equality, blind to source positions
// ---------------------------------------------------------------------------

/// Two trees are structurally equal when they have the same shape and the
/// same values everywhere; where they stood in their source texts does not
/// matter. This is the equality under which a reparse of the canonical
/// rendering gives the tree back.
pub open spec fn spec_similar(a: ExprModel, b: ExprModel) -> bool
    decreases a,
{
    match (a, b) {
        (ExprModel::Scalar { value: va, .. }, ExprModel::Scalar { value: vb, .. }) => va == vb,
        (ExprModel::Command(ca), ExprModel::Command(cb)) => spec_similar_command(ca, cb),
        (
            ExprModel::Binary { operator: oa, left: la, right: ra, .. },
            ExprModel::Binary { operator: ob, left: lb, right: rb, .. },
        ) => oa.name == ob.name && oa.priority == ob.priority && spec_similar(*la, *lb)
            && spec_similar(*ra, *rb),
        (
            ExprModel::Unary { operator: oa, expression: ea, .. },
            ExprModel::Unary { operator: ob, expression: eb, .. },
        ) => oa.name == ob.name && oa.priority == ob.priority && spec_similar(*ea, *eb),
        _ => false,
    }
}

pub open spec fn spec_similar_command(a: CommandModel, b: CommandModel) -> bool
    decreases a,
{
    &&& a.name == b.name
    &&& a.sub == b.sub
    &&& a.args.len() == b.args.len()
    &&& (forall|i: int| 0 <= i < a.args.len() ==> (#[trigger] a.args[i]).value
        == b.args[i].value)
    &&& spec_similar_series_seq(a.series, b.series)
}

pub open spec fn spec_similar_series_seq(a: Seq<SeriesModel>, b: Seq<SeriesModel>) -> bool
    decreases a,
{
    &&& a.len() == b.len()
    &&& (if a.len() == 0 {
        true
    } else {
        spec_similar_series(a.last(), b.last()) && spec_similar_series_seq(
            a.drop_last(),
            b.drop_last(),
        )
    })
}

pub open spec fn spec_similar_series(a: SeriesModel, b: SeriesModel) -> bool
    decreases a,
{
    match (a, b) {
        (
            SeriesModel::Column { name: na, .. },
            SeriesModel::Column { name: nb, .. },
        ) => na == nb,
        (
            SeriesModel::Directive { expr: ea, .. },
            SeriesModel::Directive { expr: eb, .. },
        ) => spec_similar(*ea, *eb),
        (SeriesModel::Empty { .. }, SeriesModel::Empty { .. }) => true,
        _ => false,
    }
}

/// Element-wise reading of series-list similarity.
pub proof fn lemma_similar_series_seq_index(a: Seq<SeriesModel>, b: Seq<SeriesModel>)
    ensures
        spec_similar_series_seq(a, b) <==> (a.len() == b.len() && (forall|i: int|
            0 <= i < a.len() ==> spec_similar_series(#[trigger] a[i], b[i]))),
    decreases a,
{
    if a.len() > 0 && a.len() == b.len() {
        lemma_similar_series_seq_index(a.drop_last(), b.drop_last());
        if spec_similar_series_seq(a, b) {
            assert forall|i: int| 0 <= i < a.len() implies spec_similar_series(
                #[trigger] a[i],
                b[i],
            ) by {
                if i < a.len() - 1 {
                    assert(spec_similar_series(a.drop_last()[i], b.drop_last()[i]));
                }
            }
        }
        if a.len() == b.len() && (forall|i: int| 0 <= i < a.len()
            ==> spec_similar_series(#[trigger] a[i], b[i])) {
            assert forall|i: int| 0 <= i < a.drop_last().len() implies spec_similar_series(
                #[trigger] a.drop_last()[i],
                b.drop_last()[i],
            ) by {
                assert(a.drop_last()[i] == a[i]);
            }
        }
    }
}

/// Character-for-character string equality, proved against the views.
fn str_eq(a: &str, b: &str) -> (r: bool)
    ensures
        r == (a@ == b@),
{
    let n = a.unicode_len();
    if n != b.unicode_len() {
        proof {
            assert(a@.len() != b@.len());
        }
        return false;
    }
    let mut i: usize = 0;
    while i < n
        invariant
            0 <= i <= n,
            n == a@.len(),
            n == b@.len(),
            forall|j: int| 0 <= j < i ==> a@[j] == b@[j],
        decreases n - i,
    {
        if a.get_char(i) != b.get_char(i) {
            return false;
        }
        i = i + 1;
    }
    proof {
        assert(a@ =~= b@);
    }
    true
}

fn opt_string_eq(a: &Option<String>, b: &Option<String>) -> (r: bool)
    ensures
        r == ((match a {
            Some(s) => Some(s@),
            None => None::<Seq<char>>,
        }) == (match b {
            Some(s) => Some(s@),
            None => None::<Seq<char>>,
        })),
{
    match (a, b) {
        (Some(x), Some(y)) => str_eq(x.as_str(), y.as_str()),
        (None, None) => true,
        _ => false,
    }
}

fn primitive_eq(a: &Primitive, b: &Primitive) -> (r: bool)
    ensures
        r == (a@ == b@),
{
    match (a, b) {
        (Primitive::Int(x), Primitive::Int(y)) => *x == *y,
        (Primitive::Float(x), Primitive::Float(y)) => str_eq(x.as_str(), y.as_str()),
        (Primitive::String(x), Primitive::String(y)) => str_eq(x.as_str(), y.as_str()),
        (Primitive::Bool(x), Primitive::Bool(y)) => *x == *y,
        _ => false,
    }
}

fn opt_primitive_eq(a: &Option<Primitive>, b: &Option<Primitive>) -> (r: bool)
    ensures
        r == ((match a {
            Some(p) => Some(p@),
            None => None::<PrimitiveModel>,
        }) == (match b {
            Some(p) => Some(p@),
            None => None::<PrimitiveModel>,
        })),
{
    match (a, b) {
        (Some(x), Some(y)) => primitive_eq(x, y),
        (None, None) => true,
        _ => false,
    }
}

fn command_structural_eq(a: &CommandNode, b: &CommandNode) -> (r: bool)
    ensures
        r == spec_similar_command(a@, b@),
    decreases *a,
{
    if !str_eq(a.name.as_str(), b.name.as_str()) {
        return false;
    }
    if !opt_string_eq(&a.sub, &b.sub) {
        return false;
    }
    if a.args.len() != b.args.len() {
        return false;
    }
    let mut i: usize = 0;
    while i < a.args.len()
        invariant
            0 <= i <= a.args.len(),
            a.args.len() == b.args.len(),
            forall|j: int| 0 <= j < i ==> (#[trigger] a@.args[j]).value == b@.args[j].value,
        decreases a.args.len() - i,
    {
        if !opt_primitive_eq(&a.args[i].value, &b.args[i].value) {
            proof {
                assert(a@.args[i as int].value != b@.args[i as int].value);
            }
            return false;
        }
        i = i + 1;
    }
    proof {
        lemma_view_series_seq_len(a.series@);
        lemma_view_series_seq_len(b.series@);
        lemma_similar_series_seq_index(a@.series, b@.series);
    }
    if a.series.len() != b.series.len() {
        return false;
    }
    let mut i: usize = 0;
    while i < a.series.len()
        invariant
            0 <= i <= a.series.len(),
            a.series.len() == b.series.len(),
            a@.series.len() == a.series.len(),
            b@.series.len() == b.series.len(),
            forall|j: int| 0 <= j < i ==> spec_similar_series(#[trigger] a@.series[j],
                b@.series[j]),
        decreases a.series.len() - i,
    {
        if !series_slot_structural_eq(&a.series[i], &b.series[i]) {
            proof {
                lemma_view_series_seq_index(a.series@, i as int);
                lemma_view_series_seq_index(b.series@, i as int);
                lemma_similar_series_seq_index(a@.series, b@.series);
            }
            return false;
        }
        proof {
            lemma_view_series_seq_index(a.series@, i as int);
            lemma_view_series_seq_index(b.series@, i as int);
        }
        i = i + 1;
    }
    proof {
        lemma_similar_series_seq_index(a@.series, b@.series);
    }
    true
}

fn series_slot_structural_eq(a: &SeriesArgumentNode, b: &SeriesArgumentNode) -> (r: bool)
    ensures
        r == spec_similar_series(a@, b@),
    decreases *a,
{
    match (a, b) {
        (SeriesArgumentNode::Column(_, na), SeriesArgumentNode::Column(_, nb)) => str_eq(
            na.as_str(),
            nb.as_str(),
        ),
        (SeriesArgumentNode::Directive(_, ea), SeriesArgumentNode::Directive(_, eb)) => ea
            .structural_eq(eb),
        (SeriesArgumentNode::Empty(_), SeriesArgumentNode::Empty(_)) => true,
        _ => false,
    }
}

impl ExpressionNode {
    /// Are the two trees the same up to source positions? A reparse of the
    /// canonical rendering is equal to the original tree in exactly this
    /// sense: the text has lost the original's whitespace, so positions
    /// shift, but shape and values survive.
    pub fn structural_eq(&self, other: &ExpressionNode) -> (r: bool)
        ensures
            r == spec_similar(self@, other@),
        decreases *self,
    {
        match (self, other) {
            (ExpressionNode::Scalar(x), ExpressionNode::Scalar(y)) => primitive_eq(
                &x.value,
                &y.value,
            ),
            (ExpressionNode::Command(x), ExpressionNode::Command(y)) => command_structural_eq(
                x,
                y,
            ),
            (
                ExpressionNode::Binary { operator: oa, left: la, right: ra, .. },
                ExpressionNode::Binary { operator: ob, left: lb, right: rb, .. },
            ) => str_eq(oa.name.as_str(), ob.name.as_str()) && oa.priority == ob.priority
                && la.structural_eq(lb) && ra.structural_eq(rb),
            (
                ExpressionNode::Unary { operator: oa, expression: ea, .. },
                ExpressionNode::Unary { operator: ob, expression: eb, .. },
            ) => str_eq(oa.name.as_str(), ob.name.as_str()) && oa.priority == ob.priority
                && ea.structural_eq(eb),
            _ => false,
        }
    }
}

/// Appending one slot to a series list appends its model.
pub proof fn lemma_view_series_seq_push(s: Seq<SeriesArgumentNode>, x: SeriesArgumentNode)
    ensures
        view_series_seq(s.push(x)) == view_series_seq(s).push(view_series(x)),
{
    assert(s.push(x).drop_last() =~= s);
    assert(s.push(x).last() == x);
}

pub proof fn lemma_view_series_seq_len(s: Seq<SeriesArgumentNode>)
    ensures
        view_series_seq(s).len() == s.len(),
    decreases s,
{
    if s.len() > 0 {
        lemma_view_series_seq_len(s.drop_last());
    }
}

} // verus!
