//! The expression tree, shaped like that of jinja2: node names and field names are its own.
//!
//! Every node carries a [`Span`], so that "what is under the cursor" has an answer.

use crate::parse::Span;
use vstd::prelude::*;

verus! {

#[derive(Debug, PartialEq)]
pub struct Expr {
    pub kind: ExprKind,
    pub span: Span,
}

#[derive(Debug, PartialEq)]
pub enum ExprKind {
    /// A literal: `'a'`, `1`, `1.5`, `true`, `none`.
    Const(Const),
    /// A variable to look up. `true`, `false` and `none` are names to the lexer but never reach
    /// here.
    Name(String),
    List(Vec<Expr>),
    /// Only ever produced by parentheses and by a subscript of several parts.
    Tuple(Vec<Expr>),
    Dict(Vec<(Expr, Expr)>),
    /// `r.stdout`. A `.name` accessor; `.0` becomes a [`ExprKind::Getitem`] instead.
    Getattr { node: Box<Expr>, attr: String },
    /// `r['stdout']`, `r[0]`, `hostvars[h]`: the argument is an arbitrary expression.
    Getitem { node: Box<Expr>, arg: Box<Expr> },
    Slice { start: Option<Box<Expr>>, stop: Option<Box<Expr>>, step: Option<Box<Expr>> },
    /// `x | default('v')`. The name may be dotted.
    Filter { node: Box<Expr>, name: String, args: Args },
    /// `x is defined`. `is not defined` is this wrapped in [`UnOp::Not`].
    Test { node: Box<Expr>, name: String, args: Args },
    Call { node: Box<Expr>, args: Args },
    /// Chained: `1 < 2 < 3` is one comparison with two operands.
    Compare { expr: Box<Expr>, ops: Vec<(CmpOp, Expr)> },
    /// `'a' ~ b ~ 'c'`: n-ary, not a fold of binary nodes.
    Concat(Vec<Expr>),
    /// `a if b else c`; `else` is optional.
    CondExpr { test: Box<Expr>, value: Box<Expr>, or_else: Option<Box<Expr>> },
    Bin { op: BinOp, left: Box<Expr>, right: Box<Expr> },
    Unary { op: UnOp, node: Box<Expr> },
}

#[derive(Debug, PartialEq)]
pub enum Const {
    Str(String),
    Int(i64),
    /// The literal as written, without its underscores.
    Float(String),
    Bool(bool),
    /// `none`.
    Null,
}

/// The four buckets of arguments that calls, filters and tests share.
#[derive(Debug, PartialEq)]
pub struct Args {
    pub args: Vec<Expr>,
    pub kwargs: Vec<(String, Expr)>,
    /// `*rest`
    pub dyn_args: Option<Box<Expr>>,
    /// `**rest`
    pub dyn_kwargs: Option<Box<Expr>>,
}

#[derive(Debug, Clone, Copy, PartialEq, Eq, Structural)]
pub enum BinOp {
    Add,
    Sub,
    Mul,
    Div,
    FloorDiv,
    Mod,
    Pow,
    And,
    Or,
}

#[derive(Debug, Clone, Copy, PartialEq, Eq, Structural)]
pub enum UnOp {
    Not,
    Neg,
    Pos,
}

#[derive(Debug, Clone, Copy, PartialEq, Eq, Structural)]
pub enum CmpOp {
    Eq,
    Ne,
    Gt,
    Gteq,
    Lt,
    Lteq,
    In,
    NotIn,
}

/// What an [`Expr`] says.
pub struct ExprModel {
    pub kind: KindModel,
    pub span: Span,
}

/// What an [`ExprKind`] says.
pub enum KindModel {
    Const(ConstModel),
    Name(Seq<char>),
    List(Seq<ExprModel>),
    Tuple(Seq<ExprModel>),
    Dict(Seq<(ExprModel, ExprModel)>),
    Getattr(Box<ExprModel>, Seq<char>),
    Getitem(Box<ExprModel>, Box<ExprModel>),
    Slice(Option<Box<ExprModel>>, Option<Box<ExprModel>>, Option<Box<ExprModel>>),
    Filter(Box<ExprModel>, Seq<char>, ArgsModel),
    Test(Box<ExprModel>, Seq<char>, ArgsModel),
    Call(Box<ExprModel>, ArgsModel),
    Compare(Box<ExprModel>, Seq<(CmpOp, ExprModel)>),
    Concat(Seq<ExprModel>),
    /// The condition, the value where it holds, the value where it does not.
    CondExpr(Box<ExprModel>, Box<ExprModel>, Option<Box<ExprModel>>),
    Bin(BinOp, Box<ExprModel>, Box<ExprModel>),
    Unary(UnOp, Box<ExprModel>),
}

/// What a [`Const`] says.
pub enum ConstModel {
    Str(Seq<char>),
    Int(i64),
    Float(Seq<char>),
    Bool(bool),
    /// `none`.
    Null,
}

/// What [`Args`] say.
pub struct ArgsModel {
    pub args: Seq<ExprModel>,
    pub kwargs: Seq<(Seq<char>, ExprModel)>,
    pub dyn_args: Option<Box<ExprModel>>,
    pub dyn_kwargs: Option<Box<ExprModel>>,
}

impl Const {
    pub open spec fn view(&self) -> ConstModel {
        match self {
            Const::Str(s) => ConstModel::Str(s@),
            Const::Int(i) => ConstModel::Int(*i),
            Const::Float(s) => ConstModel::Float(s@),
            Const::Bool(b) => ConstModel::Bool(*b),
            Const::Null => ConstModel::Null,
        }
    }
}

/// What a list of expressions says.
pub open spec fn expr_models(v: Seq<Expr>) -> Seq<ExprModel>
    decreases v,
{
    Seq::new(
        v.len(),
        |i: int|
            if 0 <= i < v.len() {
                v[i].view()
            } else {
                arbitrary()
            },
    )
}

/// What the entries of a dictionary say.
pub open spec fn pair_models(v: Seq<(Expr, Expr)>) -> Seq<(ExprModel, ExprModel)>
    decreases v,
{
    Seq::new(
        v.len(),
        |i: int|
            if 0 <= i < v.len() {
                (v[i].0.view(), v[i].1.view())
            } else {
                arbitrary()
            },
    )
}

/// What keyword arguments say.
pub open spec fn kwarg_models(v: Seq<(String, Expr)>) -> Seq<(Seq<char>, ExprModel)>
    decreases v,
{
    Seq::new(
        v.len(),
        |i: int|
            if 0 <= i < v.len() {
                (v[i].0@, v[i].1.view())
            } else {
                arbitrary()
            },
    )
}

/// What the operands of a comparison say.
pub open spec fn operand_models(v: Seq<(CmpOp, Expr)>) -> Seq<(CmpOp, ExprModel)>
    decreases v,
{
    Seq::new(
        v.len(),
        |i: int|
            if 0 <= i < v.len() {
                (v[i].0, v[i].1.view())
            } else {
                arbitrary()
            },
    )
}

/// What an optional expression says.
pub open spec fn optional_model(e: Option<Box<Expr>>) -> Option<Box<ExprModel>>
    decreases e,
{
    match e {
        Some(e) => Some(Box::new(e.view())),
        None => None,
    }
}

impl Args {
    pub open spec fn view(&self) -> ArgsModel
        decreases self,
    {
        ArgsModel {
            args: expr_models(self.args@),
            kwargs: kwarg_models(self.kwargs@),
            dyn_args: optional_model(self.dyn_args),
            dyn_kwargs: optional_model(self.dyn_kwargs),
        }
    }

    /// No arguments of any kind.
    pub fn new() -> (r: Self)
        ensures
            r.view() == no_args(),
    {
        let r = Args { args: Vec::new(), kwargs: Vec::new(), dyn_args: None, dyn_kwargs: None };
        assert(r.view().args =~= Seq::empty());
        assert(r.view().kwargs =~= Seq::empty());
        r
    }

    /// No arguments of any kind: `x is defined` rather than `x is divisibleby 3`.
    pub fn is_empty(&self) -> (r: bool)
        ensures
            r == (self.view() == no_args()),
    {
        let r = self.args.len() == 0 && self.kwargs.len() == 0 && self.dyn_args.is_none()
            && self.dyn_kwargs.is_none();
        proof {
            if r {
                assert(self.view().args =~= Seq::empty());
                assert(self.view().kwargs =~= Seq::empty());
            } else {
                assert(self.view().args.len() == self.args@.len());
                assert(self.view().kwargs.len() == self.kwargs@.len());
            }
        }
        r
    }
}

/// No arguments of any kind.
pub open spec fn no_args() -> ArgsModel {
    ArgsModel { args: Seq::empty(), kwargs: Seq::empty(), dyn_args: None, dyn_kwargs: None }
}

impl ExprKind {
    pub open spec fn view(&self) -> KindModel
        decreases self,
    {
        match self {
            ExprKind::Const(c) => KindModel::Const(c.view()),
            ExprKind::Name(s) => KindModel::Name(s@),
            ExprKind::List(v) => KindModel::List(expr_models(v@)),
            ExprKind::Tuple(v) => KindModel::Tuple(expr_models(v@)),
            ExprKind::Dict(v) => KindModel::Dict(pair_models(v@)),
            ExprKind::Getattr { node, attr } => KindModel::Getattr(Box::new(node.view()), attr@),
            ExprKind::Getitem { node, arg } => KindModel::Getitem(
                Box::new(node.view()),
                Box::new(arg.view()),
            ),
            ExprKind::Slice { start, stop, step } => KindModel::Slice(
                optional_model(*start),
                optional_model(*stop),
                optional_model(*step),
            ),
            ExprKind::Filter { node, name, args } => KindModel::Filter(
                Box::new(node.view()),
                name@,
                args.view(),
            ),
            ExprKind::Test { node, name, args } => KindModel::Test(
                Box::new(node.view()),
                name@,
                args.view(),
            ),
            ExprKind::Call { node, args } => KindModel::Call(Box::new(node.view()), args.view()),
            ExprKind::Compare { expr, ops } => KindModel::Compare(
                Box::new(expr.view()),
                operand_models(ops@),
            ),
            ExprKind::Concat(v) => KindModel::Concat(expr_models(v@)),
            ExprKind::CondExpr { test, value, or_else } => KindModel::CondExpr(
                Box::new(test.view()),
                Box::new(value.view()),
                optional_model(*or_else),
            ),
            ExprKind::Bin { op, left, right } => KindModel::Bin(
                *op,
                Box::new(left.view()),
                Box::new(right.view()),
            ),
            ExprKind::Unary { op, node } => KindModel::Unary(*op, Box::new(node.view())),
        }
    }
}

impl Expr {
    pub open spec fn view(&self) -> ExprModel
        decreases self,
    {
        ExprModel { kind: self.kind.view(), span: self.span }
    }

    /// The root variable that this expression reads, if it reads exactly one and reads it
    /// directly, walking the accessor spine to the name at its base.
    ///
    /// `r.results[0].stdout` answers `r`, and `hostvars[h].x` answers `hostvars`: `h` is an
    /// argument and not on the spine.
    pub fn root_name(&self) -> (r: Option<&str>)
        ensures
            r is Some == root_of(self.view()) is Some,
            r is Some ==> r->0@ == root_of(self.view())->0,
        decreases self,
    {
        match &self.kind {
            ExprKind::Name(n) => Some(n.as_str()),
            ExprKind::Getattr { node, .. } => node.root_name(),
            ExprKind::Getitem { node, .. } => node.root_name(),
            _ => None,
        }
    }
}

/// The name at the base of an accessor spine.
pub open spec fn root_of(e: ExprModel) -> Option<Seq<char>>
    decreases e,
{
    match e.kind {
        KindModel::Name(n) => Some(n),
        KindModel::Getattr(node, _) => root_of(*node),
        KindModel::Getitem(node, _) => root_of(*node),
        _ => None,
    }
}

impl BinOp {
    /// The class name of the operator.
    pub open spec fn class_name(self) -> Seq<char> {
        match self {
            BinOp::Add => "Add"@,
            BinOp::Sub => "Sub"@,
            BinOp::Mul => "Mul"@,
            BinOp::Div => "Div"@,
            BinOp::FloorDiv => "FloorDiv"@,
            BinOp::Mod => "Mod"@,
            BinOp::Pow => "Pow"@,
            BinOp::And => "And"@,
            BinOp::Or => "Or"@,
        }
    }

    pub fn node_name(self) -> (r: &'static str)
        ensures
            r@ == self.class_name(),
    {
        match self {
            BinOp::Add => "Add",
            BinOp::Sub => "Sub",
            BinOp::Mul => "Mul",
            BinOp::Div => "Div",
            BinOp::FloorDiv => "FloorDiv",
            BinOp::Mod => "Mod",
            BinOp::Pow => "Pow",
            BinOp::And => "And",
            BinOp::Or => "Or",
        }
    }
}

impl UnOp {
    /// The class name of the operator.
    pub open spec fn class_name(self) -> Seq<char> {
        match self {
            UnOp::Not => "Not"@,
            UnOp::Neg => "Neg"@,
            UnOp::Pos => "Pos"@,
        }
    }

    pub fn node_name(self) -> (r: &'static str)
        ensures
            r@ == self.class_name(),
    {
        match self {
            UnOp::Not => "Not",
            UnOp::Neg => "Neg",
            UnOp::Pos => "Pos",
        }
    }
}

impl CmpOp {
    /// The name of the operator: that of its token, except for membership.
    pub open spec fn operand_name(self) -> Seq<char> {
        match self {
            CmpOp::Eq => "eq"@,
            CmpOp::Ne => "ne"@,
            CmpOp::Gt => "gt"@,
            CmpOp::Gteq => "gteq"@,
            CmpOp::Lt => "lt"@,
            CmpOp::Lteq => "lteq"@,
            CmpOp::In => "in"@,
            CmpOp::NotIn => "notin"@,
        }
    }

    pub fn op_name(self) -> (r: &'static str)
        ensures
            r@ == self.operand_name(),
    {
        match self {
            CmpOp::Eq => "eq",
            CmpOp::Ne => "ne",
            CmpOp::Gt => "gt",
            CmpOp::Gteq => "gteq",
            CmpOp::Lt => "lt",
            CmpOp::Lteq => "lteq",
            CmpOp::In => "in",
            CmpOp::NotIn => "notin",
        }
    }
}

// ---------------------------------------------------------------- copies

fn copy_expr(e: &Expr) -> (r: Expr)
    ensures
        r.view() == e.view(),
    decreases e, 0int,
{
    Expr { kind: copy_kind(&e.kind), span: e.span }
}

fn copy_box(e: &Box<Expr>) -> (r: Box<Expr>)
    ensures
        r.view() == e.view(),
    decreases e, 1int,
{
    Box::new(copy_expr(e))
}

fn copy_optional(e: &Option<Box<Expr>>) -> (r: Option<Box<Expr>>)
    ensures
        optional_model(r) == optional_model(*e),
    decreases e, 0int,
{
    match e {
        Some(e) => Some(copy_box(e)),
        None => None,
    }
}

fn copy_exprs(v: &Vec<Expr>) -> (r: Vec<Expr>)
    ensures
        expr_models(r@) == expr_models(v@),
    decreases v@, 0int,
{
    let n: usize = v.len();
    let mut out: Vec<Expr> = Vec::new();
    let mut i: usize = 0;
    while i < n
        invariant
            i <= n == v@.len(),
            out@.len() == i,
            forall|k: int| 0 <= k < i ==> #[trigger] expr_models(out@)[k] == expr_models(v@)[k],
        decreases n - i,
    {
        let ghost before = out@;
        assert(decreases_to!(v@ => v@[i as int]));
        out.push(copy_expr(&v[i]));
        assert forall|k: int| 0 <= k <= i implies #[trigger] expr_models(out@)[k] == expr_models(v@)[k] by {
            if k < i {
                assert(expr_models(before)[k] == expr_models(v@)[k]);
            }
        }
        i += 1;
    }
    assert(expr_models(out@) =~= expr_models(v@));
    out
}

fn copy_pairs(v: &Vec<(Expr, Expr)>) -> (r: Vec<(Expr, Expr)>)
    ensures
        pair_models(r@) == pair_models(v@),
    decreases v@, 0int,
{
    let n: usize = v.len();
    let mut out: Vec<(Expr, Expr)> = Vec::new();
    let mut i: usize = 0;
    while i < n
        invariant
            i <= n == v@.len(),
            out@.len() == i,
            forall|k: int| 0 <= k < i ==> #[trigger] pair_models(out@)[k] == pair_models(v@)[k],
        decreases n - i,
    {
        let ghost before = out@;
        assert(decreases_to!(v@ => v@[i as int]));
        assert(decreases_to!(v@[i as int] => v@[i as int].0));
        assert(decreases_to!(v@[i as int] => v@[i as int].1));
        out.push((copy_expr(&v[i].0), copy_expr(&v[i].1)));
        assert forall|k: int| 0 <= k <= i implies #[trigger] pair_models(out@)[k] == pair_models(v@)[k] by {
            if k < i {
                assert(pair_models(before)[k] == pair_models(v@)[k]);
            }
        }
        i += 1;
    }
    assert(pair_models(out@) =~= pair_models(v@));
    out
}

fn copy_kwargs(v: &Vec<(String, Expr)>) -> (r: Vec<(String, Expr)>)
    ensures
        kwarg_models(r@) == kwarg_models(v@),
    decreases v@, 0int,
{
    let n: usize = v.len();
    let mut out: Vec<(String, Expr)> = Vec::new();
    let mut i: usize = 0;
    while i < n
        invariant
            i <= n == v@.len(),
            out@.len() == i,
            forall|k: int| 0 <= k < i ==> #[trigger] kwarg_models(out@)[k] == kwarg_models(v@)[k],
        decreases n - i,
    {
        let ghost before = out@;
        assert(decreases_to!(v@ => v@[i as int]));
        assert(decreases_to!(v@[i as int] => v@[i as int].1));
        out.push((v[i].0.clone(), copy_expr(&v[i].1)));
        assert forall|k: int| 0 <= k <= i implies #[trigger] kwarg_models(out@)[k] == kwarg_models(v@)[k] by {
            if k < i {
                assert(kwarg_models(before)[k] == kwarg_models(v@)[k]);
            }
        }
        i += 1;
    }
    assert(kwarg_models(out@) =~= kwarg_models(v@));
    out
}

fn copy_operands(v: &Vec<(CmpOp, Expr)>) -> (r: Vec<(CmpOp, Expr)>)
    ensures
        operand_models(r@) == operand_models(v@),
    decreases v@, 0int,
{
    let n: usize = v.len();
    let mut out: Vec<(CmpOp, Expr)> = Vec::new();
    let mut i: usize = 0;
    while i < n
        invariant
            i <= n == v@.len(),
            out@.len() == i,
            forall|k: int| 0 <= k < i ==> #[trigger] operand_models(out@)[k] == operand_models(v@)[k],
        decreases n - i,
    {
        let ghost before = out@;
        assert(decreases_to!(v@ => v@[i as int]));
        assert(decreases_to!(v@[i as int] => v@[i as int].1));
        out.push((v[i].0, copy_expr(&v[i].1)));
        assert forall|k: int| 0 <= k <= i implies #[trigger] operand_models(out@)[k] == operand_models(v@)[k] by {
            if k < i {
                assert(operand_models(before)[k] == operand_models(v@)[k]);
            }
        }
        i += 1;
    }
    assert(operand_models(out@) =~= operand_models(v@));
    out
}

fn copy_args(args: &Args) -> (r: Args)
    ensures
        r.view() == args.view(),
    decreases args, 0int,
{
    Args {
        args: copy_exprs(&args.args),
        kwargs: copy_kwargs(&args.kwargs),
        dyn_args: copy_optional(&args.dyn_args),
        dyn_kwargs: copy_optional(&args.dyn_kwargs),
    }
}

fn copy_const(c: &Const) -> (r: Const)
    ensures
        r.view() == c.view(),
{
    match c {
        Const::Str(s) => Const::Str(s.clone()),
        Const::Int(i) => Const::Int(*i),
        Const::Float(s) => Const::Float(s.clone()),
        Const::Bool(b) => Const::Bool(*b),
        Const::Null => Const::Null,
    }
}

fn copy_kind(kind: &ExprKind) -> (r: ExprKind)
    ensures
        r.view() == kind.view(),
    decreases kind, 0int,
{
    match kind {
        ExprKind::Const(c) => ExprKind::Const(copy_const(c)),
        ExprKind::Name(s) => ExprKind::Name(s.clone()),
        ExprKind::List(v) => ExprKind::List(copy_exprs(v)),
        ExprKind::Tuple(v) => ExprKind::Tuple(copy_exprs(v)),
        ExprKind::Dict(v) => ExprKind::Dict(copy_pairs(v)),
        ExprKind::Getattr { node, attr } => ExprKind::Getattr {
            node: copy_box(node),
            attr: attr.clone(),
        },
        ExprKind::Getitem { node, arg } => ExprKind::Getitem {
            node: copy_box(node),
            arg: copy_box(arg),
        },
        ExprKind::Slice { start, stop, step } => ExprKind::Slice {
            start: copy_optional(start),
            stop: copy_optional(stop),
            step: copy_optional(step),
        },
        ExprKind::Filter { node, name, args } => ExprKind::Filter {
            node: copy_box(node),
            name: name.clone(),
            args: copy_args(args),
        },
        ExprKind::Test { node, name, args } => ExprKind::Test {
            node: copy_box(node),
            name: name.clone(),
            args: copy_args(args),
        },
        ExprKind::Call { node, args } => ExprKind::Call {
            node: copy_box(node),
            args: copy_args(args),
        },
        ExprKind::Compare { expr, ops } => ExprKind::Compare {
            expr: copy_box(expr),
            ops: copy_operands(ops),
        },
        ExprKind::Concat(v) => ExprKind::Concat(copy_exprs(v)),
        ExprKind::CondExpr { test, value, or_else } => ExprKind::CondExpr {
            test: copy_box(test),
            value: copy_box(value),
            or_else: copy_optional(or_else),
        },
        ExprKind::Bin { op, left, right } => ExprKind::Bin {
            op: *op,
            left: copy_box(left),
            right: copy_box(right),
        },
        ExprKind::Unary { op, node } => ExprKind::Unary { op: *op, node: copy_box(node) },
    }
}

impl Clone for Expr {
    fn clone(&self) -> (r: Self)
        ensures
            r.view() == self.view(),
    {
        copy_expr(self)
    }
}

impl Clone for ExprKind {
    fn clone(&self) -> (r: Self)
        ensures
            r.view() == self.view(),
    {
        copy_kind(self)
    }
}

impl Clone for Args {
    fn clone(&self) -> (r: Self)
        ensures
            r.view() == self.view(),
    {
        copy_args(self)
    }
}

impl Clone for Const {
    fn clone(&self) -> (r: Self)
        ensures
            r.view() == self.view(),
    {
        copy_const(self)
    }
}

impl Default for Args {
    fn default() -> (r: Self)
        ensures
            r.view() == no_args(),
    {
        Args::new()
    }
}

} // verus!
