//! Where the nodes of an expression stand: each covers its tokens, and no more of the text than the
//! node that holds it.

use crate::jinja::ast::{self, ArgsModel, CmpOp, ExprModel, KindModel};
use crate::jinja::grammar::{self, Input, Parsed, ParsedArgs, ParsedText, MAX_DEPTH};
use crate::jinja::lexer::{self, ErrorModel, Kind};
use vstd::prelude::*;
use vstd::utf8::encode_utf8;

verus! {

/// Does the tree stand between two offsets, each node inside the one that holds it?
#[verifier::opaque]
pub open spec fn nested(e: ExprModel, low: int, high: int) -> bool
    decreases e,
{
    &&& low <= e.span.start <= e.span.end <= high
    &&& kind_nested(e.kind, e.span.start as int, e.span.end as int)
}

/// Do the parts of a node stand between two offsets?
#[verifier::opaque]
pub open spec fn kind_nested(kind: KindModel, low: int, high: int) -> bool
    decreases kind,
{
    match kind {
        KindModel::Const(_) | KindModel::Name(_) => true,
        KindModel::List(v) => each_nested(v, low, high),
        KindModel::Tuple(v) => each_nested(v, low, high),
        KindModel::Concat(v) => each_nested(v, low, high),
        KindModel::Dict(v) => pairs_nested(v, low, high),
        KindModel::Getattr(a, _) => nested(*a, low, high),
        KindModel::Getitem(a, b) => nested(*a, low, high) && nested(*b, low, high),
        KindModel::Slice(a, b, c) => optional_nested(a, low, high) && optional_nested(b, low, high)
            && optional_nested(c, low, high),
        KindModel::Filter(a, _, args) => nested(*a, low, high) && args_nested(args, low, high),
        KindModel::Test(a, _, args) => nested(*a, low, high) && args_nested(args, low, high),
        KindModel::Call(a, args) => nested(*a, low, high) && args_nested(args, low, high),
        KindModel::Compare(a, v) => nested(*a, low, high) && operands_nested(v, low, high),
        KindModel::CondExpr(a, b, c) => nested(*a, low, high) && nested(*b, low, high)
            && optional_nested(c, low, high),
        KindModel::Bin(_, a, b) => nested(*a, low, high) && nested(*b, low, high),
        KindModel::Unary(_, a) => nested(*a, low, high),
    }
}

#[verifier::opaque]
pub open spec fn each_nested(v: Seq<ExprModel>, low: int, high: int) -> bool
    decreases v,
{
    forall|i: int| 0 <= i < v.len() ==> nested(#[trigger] v[i], low, high)
}

#[verifier::opaque]
pub open spec fn pairs_nested(v: Seq<(ExprModel, ExprModel)>, low: int, high: int) -> bool
    decreases v,
{
    forall|i: int|
        0 <= i < v.len() ==> nested((#[trigger] v[i]).0, low, high) && nested(v[i].1, low, high)
}

#[verifier::opaque]
pub open spec fn operands_nested(v: Seq<(CmpOp, ExprModel)>, low: int, high: int) -> bool
    decreases v,
{
    forall|i: int| 0 <= i < v.len() ==> nested((#[trigger] v[i]).1, low, high)
}

#[verifier::opaque]
pub open spec fn kwargs_nested(v: Seq<(Seq<char>, ExprModel)>, low: int, high: int) -> bool
    decreases v,
{
    forall|i: int| 0 <= i < v.len() ==> nested((#[trigger] v[i]).1, low, high)
}

#[verifier::opaque]
pub open spec fn optional_nested(e: Option<Box<ExprModel>>, low: int, high: int) -> bool
    decreases e,
{
    match e {
        Some(e) => nested(*e, low, high),
        None => true,
    }
}

#[verifier::opaque]
pub open spec fn args_nested(args: ArgsModel, low: int, high: int) -> bool
    decreases args,
{
    &&& each_nested(args.args, low, high)
    &&& kwargs_nested(args.kwargs, low, high)
    &&& optional_nested(args.dyn_args, low, high)
    &&& optional_nested(args.dyn_kwargs, low, high)
}

/// The tokens of a text of `n` bytes, in order.
pub open spec fn stream(g: Input, n: int) -> bool {
    &&& g.toks.len() > 0
    &&& g.toks.last().kind == Kind::Eof
    &&& forall|i: int| 0 <= i < g.toks.len() - 1 ==> (#[trigger] g.toks[i]).kind != Kind::Eof
    &&& forall|i: int|
        0 <= i < g.toks.len() ==> (#[trigger] g.toks[i]).span.start <= g.toks[i].span.end <= n
    &&& forall|i: int, j: int|
        0 <= i < j < g.toks.len() ==> (#[trigger] g.toks[i]).span.end <= (
        #[trigger] g.toks[j]).span.start
}

/// A refusal that points into a text of `n` bytes.
pub open spec fn points(x: ErrorModel, n: int) -> bool {
    x.span.start <= x.span.end <= n
}

/// Does the tree stand on the tokens from `start` up to `pos`?
pub open spec fn stands(g: Input, start: int, pos: int, e: ExprModel) -> bool {
    nested(e, left(g, start), right(g, pos))
}

/// A result whose tree stands on the tokens from `start` on that it took.
pub open spec fn fine(g: Input, n: int, start: int, r: Parsed) -> bool {
    match r {
        Ok((e, p)) => start < p <= g.len() && stands(g, start, p, e),
        Err(x) => points(x, n),
    }
}

/// A result whose arguments stand on the tokens from `start` on that it took.
pub open spec fn args_fine(g: Input, n: int, start: int, r: ParsedArgs) -> bool {
    match r {
        Ok((args, p)) => start <= p <= g.len() && (p > start ==> args_stand(g, start, p, args))
            && (p == start ==> args == ast::no_args()),
        Err(x) => points(x, n),
    }
}

pub open spec fn args_stand(g: Input, start: int, pos: int, args: ArgsModel) -> bool {
    args_nested(args, left(g, start), right(g, pos))
}

pub open spec fn text_fine(g: Input, n: int, start: int, r: ParsedText) -> bool {
    match r {
        Ok((_, p)) => start < p <= g.len(),
        Err(x) => points(x, n),
    }
}

/// What stands between two offsets stands between wider ones.
#[verifier::spinoff_prover]
pub proof fn widen(e: ExprModel, low: int, high: int, low2: int, high2: int)
    requires
        nested(e, low, high),
        low2 <= low,
        high <= high2,
    ensures
        nested(e, low2, high2),
{
    reveal(nested);
}

#[verifier::spinoff_prover]
proof fn each_widen(v: Seq<ExprModel>, low: int, high: int, low2: int, high2: int)
    requires
        each_nested(v, low, high),
        low2 <= low,
        high <= high2,
    ensures
        each_nested(v, low2, high2),
{
    reveal(each_nested);
    assert forall|i: int| 0 <= i < v.len() implies nested(#[trigger] v[i], low2, high2) by {
        widen(v[i], low, high, low2, high2);
    }
}

#[verifier::spinoff_prover]
proof fn each_push(v: Seq<ExprModel>, low: int, high: int, e: ExprModel, low2: int, high2: int)
    requires
        each_nested(v, low, high),
        nested(e, low2, high2),
        low <= low2,
        high <= high2,
    ensures
        each_nested(v.push(e), low, high2),
{
    each_widen(v, low, high, low, high2);
    widen(e, low2, high2, low, high2);
    reveal(each_nested);
    let w = v.push(e);
    assert forall|i: int| 0 <= i < w.len() implies nested(#[trigger] w[i], low, high2) by {
        if i < v.len() {
            assert(w[i] == v[i]);
        }
    }
}

#[verifier::spinoff_prover]
proof fn pairs_widen(
    v: Seq<(ExprModel, ExprModel)>,
    low: int,
    high: int,
    low2: int,
    high2: int,
)
    requires
        pairs_nested(v, low, high),
        low2 <= low,
        high <= high2,
    ensures
        pairs_nested(v, low2, high2),
{
    reveal(pairs_nested);
    assert forall|i: int| 0 <= i < v.len() implies nested((#[trigger] v[i]).0, low2, high2)
        && nested(v[i].1, low2, high2) by {
        widen(v[i].0, low, high, low2, high2);
        widen(v[i].1, low, high, low2, high2);
    }
}

#[verifier::spinoff_prover]
proof fn pairs_push(
    v: Seq<(ExprModel, ExprModel)>,
    low: int,
    high: int,
    key: ExprModel,
    value: ExprModel,
    high2: int,
)
    requires
        pairs_nested(v, low, high),
        nested(key, low, high2),
        nested(value, low, high2),
        high <= high2,
    ensures
        pairs_nested(v.push((key, value)), low, high2),
{
    pairs_widen(v, low, high, low, high2);
    reveal(pairs_nested);
    let w = v.push((key, value));
    assert forall|i: int| 0 <= i < w.len() implies nested((#[trigger] w[i]).0, low, high2)
        && nested(w[i].1, low, high2) by {
        if i < v.len() {
            assert(w[i] == v[i]);
        }
    }
}

#[verifier::spinoff_prover]
proof fn operands_widen(
    v: Seq<(CmpOp, ExprModel)>,
    low: int,
    high: int,
    low2: int,
    high2: int,
)
    requires
        operands_nested(v, low, high),
        low2 <= low,
        high <= high2,
    ensures
        operands_nested(v, low2, high2),
{
    reveal(operands_nested);
    assert forall|i: int| 0 <= i < v.len() implies nested((#[trigger] v[i]).1, low2, high2) by {
        widen(v[i].1, low, high, low2, high2);
    }
}

#[verifier::spinoff_prover]
proof fn operands_push(
    v: Seq<(CmpOp, ExprModel)>,
    low: int,
    high: int,
    op: CmpOp,
    e: ExprModel,
    high2: int,
)
    requires
        operands_nested(v, low, high),
        nested(e, low, high2),
        high <= high2,
    ensures
        operands_nested(v.push((op, e)), low, high2),
{
    operands_widen(v, low, high, low, high2);
    reveal(operands_nested);
    let w = v.push((op, e));
    assert forall|i: int| 0 <= i < w.len() implies nested((#[trigger] w[i]).1, low, high2) by {
        if i < v.len() {
            assert(w[i] == v[i]);
        }
    }
}

#[verifier::spinoff_prover]
proof fn kwargs_widen(
    v: Seq<(Seq<char>, ExprModel)>,
    low: int,
    high: int,
    low2: int,
    high2: int,
)
    requires
        kwargs_nested(v, low, high),
        low2 <= low,
        high <= high2,
    ensures
        kwargs_nested(v, low2, high2),
{
    reveal(kwargs_nested);
    assert forall|i: int| 0 <= i < v.len() implies nested((#[trigger] v[i]).1, low2, high2) by {
        widen(v[i].1, low, high, low2, high2);
    }
}

#[verifier::spinoff_prover]
proof fn optional_widen(
    e: Option<Box<ExprModel>>,
    low: int,
    high: int,
    low2: int,
    high2: int,
)
    requires
        optional_nested(e, low, high),
        low2 <= low,
        high <= high2,
    ensures
        optional_nested(e, low2, high2),
{
    reveal(optional_nested);
    if let Some(e) = e {
        widen(*e, low, high, low2, high2);
    }
}

#[verifier::spinoff_prover]
proof fn args_widen(args: ArgsModel, low: int, high: int, low2: int, high2: int)
    requires
        args_nested(args, low, high),
        low2 <= low,
        high <= high2,
    ensures
        args_nested(args, low2, high2),
{
    reveal(args_nested);
    each_widen(args.args, low, high, low2, high2);
    kwargs_widen(args.kwargs, low, high, low2, high2);
    optional_widen(args.dyn_args, low, high, low2, high2);
    optional_widen(args.dyn_kwargs, low, high, low2, high2);
}

/// No arguments stand anywhere.
#[verifier::spinoff_prover]
proof fn no_args_nested(low: int, high: int)
    ensures
        args_nested(ast::no_args(), low, high),
        each_nested(Seq::empty(), low, high),
        pairs_nested(Seq::empty(), low, high),
        operands_nested(Seq::empty(), low, high),
        optional_nested(None, low, high),
{
    reveal(args_nested);
    reveal(each_nested);
    reveal(pairs_nested);
    reveal(operands_nested);
    reveal(kwargs_nested);
    reveal(optional_nested);
}

#[verifier::spinoff_prover]
proof fn kind_widen(kind: KindModel, low: int, high: int, low2: int, high2: int)
    requires
        kind_nested(kind, low, high),
        low2 <= low,
        high <= high2,
    ensures
        kind_nested(kind, low2, high2),
{
    reveal(kind_nested);
    match kind {
        KindModel::Const(_) | KindModel::Name(_) => {},
        KindModel::List(v) | KindModel::Tuple(v) | KindModel::Concat(v) => {
            each_widen(v, low, high, low2, high2);
        },
        KindModel::Dict(v) => {
            pairs_widen(v, low, high, low2, high2);
        },
        KindModel::Getattr(a, _) | KindModel::Unary(_, a) => {
            widen(*a, low, high, low2, high2);
        },
        KindModel::Getitem(a, b) | KindModel::Bin(_, a, b) => {
            widen(*a, low, high, low2, high2);
            widen(*b, low, high, low2, high2);
        },
        KindModel::Slice(a, b, c) => {
            optional_widen(a, low, high, low2, high2);
            optional_widen(b, low, high, low2, high2);
            optional_widen(c, low, high, low2, high2);
        },
        KindModel::Filter(a, _, args) | KindModel::Test(a, _, args) | KindModel::Call(a, args) => {
            widen(*a, low, high, low2, high2);
            args_widen(args, low, high, low2, high2);
        },
        KindModel::Compare(a, v) => {
            widen(*a, low, high, low2, high2);
            operands_widen(v, low, high, low2, high2);
        },
        KindModel::CondExpr(a, b, c) => {
            widen(*a, low, high, low2, high2);
            widen(*b, low, high, low2, high2);
            optional_widen(c, low, high, low2, high2);
        },
    }
}

// ------------------------------------------------------------ on the tokens

/// Where the token at `i` begins.
pub open spec fn left(g: Input, i: int) -> int {
    g.toks[i].span.start as int
}

/// Where the token before `pos` ends.
pub open spec fn right(g: Input, pos: int) -> int {
    g.toks[pos - 1].span.end as int
}

/// The tokens of a stream lie in order.
#[verifier::spinoff_prover]
proof fn order(g: Input, n: int, start: int, from: int, pos: int, p: int)
    requires
        stream(g, n),
        0 <= start <= from < pos <= p <= g.len(),
    ensures
        left(g, start) <= left(g, from) <= right(g, pos) <= right(g, p) <= n,
        0 <= left(g, start),
{
    assert(g.toks[start].span.start <= g.toks[start].span.end);
    assert(g.toks[from].span.start <= g.toks[from].span.end);
    assert(g.toks[pos - 1].span.start <= g.toks[pos - 1].span.end);
    assert(g.toks[p - 1].span.start <= g.toks[p - 1].span.end);
    if start < from {
        assert(g.toks[start].span.end <= g.toks[from].span.start);
    }
    if from < pos - 1 {
        assert(g.toks[from].span.end <= g.toks[pos - 1].span.start);
    }
    if pos < p {
        assert(g.toks[pos - 1].span.end <= g.toks[p - 1].span.start);
    }
}

/// What stands on some tokens stands on more.
#[verifier::spinoff_prover]
proof fn grow(g: Input, n: int, start: int, from: int, pos: int, p: int, e: ExprModel)
    requires
        stream(g, n),
        0 <= start <= from < pos <= p <= g.len(),
        stands(g, from, pos, e),
    ensures
        stands(g, start, p, e),
{
    order(g, n, start, from, pos, p);
    widen(e, left(g, from), right(g, pos), left(g, start), right(g, p));
}

/// A node stands on the tokens that its parts stand on.
#[verifier::spinoff_prover]
proof fn node_stands(g: Input, n: int, start: int, p: int, kind: KindModel)
    requires
        stream(g, n),
        0 <= start < p <= g.len(),
        kind_nested(kind, left(g, start), right(g, p)),
    ensures
        stands(g, start, p, grammar::node(g, start, p, kind)),
{
    order(g, n, start, start, p, p);
    reveal(nested);
}

#[verifier::spinoff_prover]
proof fn bin_stands(
    g: Input,
    n: int,
    start: int,
    pos: int,
    p: int,
    op: ast::BinOp,
    a: ExprModel,
    b: ExprModel,
)
    requires
        stream(g, n),
        0 <= start < pos,
        pos + 1 < p <= g.len(),
        stands(g, start, pos, a),
        stands(g, pos + 1, p, b),
    ensures
        stands(g, start, p, grammar::bin(g, start, p, op, a, b)),
{
    grow(g, n, start, start, pos, p, a);
    grow(g, n, start, pos + 1, p, p, b);
    reveal(kind_nested);
    node_stands(g, n, start, p, KindModel::Bin(op, Box::new(a), Box::new(b)));
}

#[verifier::spinoff_prover]
proof fn expression_tree(g: Input, n: int, pos: int, depth: int)
    requires
        stream(g, n),
        0 <= pos < g.len(),
    ensures
        fine(g, n, pos, grammar::expression(g, pos, depth)),
    decreases g.len() - pos, 20int,
{
    reveal(grammar::expression);
    if depth < MAX_DEPTH {
        condexpr_spans(g, n, pos, depth + 1);
    }
}

#[verifier::spinoff_prover]
proof fn condexpr_spans(g: Input, n: int, pos: int, depth: int)
    requires
        stream(g, n),
        0 <= pos < g.len(),
    ensures
        fine(g, n, pos, grammar::condexpr(g, pos, depth)),
    decreases g.len() - pos, 19int,
{
    reveal(grammar::condexpr);
    or_expr_spans(g, n, pos, depth);
    if let Ok((e, p)) = grammar::moved(g, pos, grammar::or_expr(g, pos, depth)) {
        cond_rest_spans(g, n, pos, p, depth, e);
    }
}

#[verifier::spinoff_prover]
proof fn cond_rest_spans(g: Input, n: int, start: int, pos: int, depth: int, e: ExprModel)
    requires
        stream(g, n),
        0 <= start < pos < g.len(),
        stands(g, start, pos, e),
    ensures
        fine(g, n, start, grammar::cond_rest(g, start, pos, depth, e)),
    decreases g.len() - pos, 0int,
{
    reveal(grammar::cond_rest);
    if g.word(pos, "if"@) {
        or_expr_spans(g, n, pos + 1, depth);
        if let Ok((test, p)) = grammar::moved(g, pos + 1, grammar::or_expr(g, pos + 1, depth)) {
            if g.word(p, "else"@) {
                condexpr_spans(g, n, p + 1, depth);
                if let Ok((alt, q)) = grammar::moved(g, p + 1, grammar::condexpr(g, p + 1, depth)) {
                    let kind = KindModel::CondExpr(Box::new(test), Box::new(e), Some(Box::new(alt)));
                    grow(g, n, start, start, pos, q, e);
                    grow(g, n, start, pos + 1, p, q, test);
                    grow(g, n, start, p + 1, q, q, alt);
                    reveal(kind_nested);
                    reveal(optional_nested);
                    node_stands(g, n, start, q, kind);
                    cond_rest_spans(g, n, start, q, depth, grammar::node(g, start, q, kind));
                }
            } else {
                let kind = KindModel::CondExpr(Box::new(test), Box::new(e), None);
                grow(g, n, start, start, pos, p, e);
                grow(g, n, start, pos + 1, p, p, test);
                reveal(kind_nested);
                reveal(optional_nested);
                node_stands(g, n, start, p, kind);
                cond_rest_spans(g, n, start, p, depth, grammar::node(g, start, p, kind));
            }
        }
    }
}

#[verifier::spinoff_prover]
proof fn or_expr_spans(g: Input, n: int, pos: int, depth: int)
    requires
        stream(g, n),
        0 <= pos < g.len(),
    ensures
        fine(g, n, pos, grammar::or_expr(g, pos, depth)),
    decreases g.len() - pos, 18int,
{
    reveal(grammar::or_expr);
    and_expr_spans(g, n, pos, depth);
    if let Ok((e, p)) = grammar::moved(g, pos, grammar::and_expr(g, pos, depth)) {
        or_rest_spans(g, n, pos, p, depth, e);
    }
}

#[verifier::spinoff_prover]
proof fn or_rest_spans(g: Input, n: int, start: int, pos: int, depth: int, left: ExprModel)
    requires
        stream(g, n),
        0 <= start < pos < g.len(),
        stands(g, start, pos, left),
    ensures
        fine(g, n, start, grammar::or_rest(g, start, pos, depth, left)),
    decreases g.len() - pos, 0int,
{
    reveal(grammar::or_rest);
    if g.word(pos, "or"@) {
        and_expr_spans(g, n, pos + 1, depth);
        if let Ok((right, p)) = grammar::moved(g, pos + 1, grammar::and_expr(g, pos + 1, depth)) {
            let op = ast::BinOp::Or;
            bin_stands(g, n, start, pos, p, op, left, right);
            or_rest_spans(g, n, start, p, depth, grammar::bin(g, start, p, op, left, right));
        }
    }
}

#[verifier::spinoff_prover]
proof fn and_expr_spans(g: Input, n: int, pos: int, depth: int)
    requires
        stream(g, n),
        0 <= pos < g.len(),
    ensures
        fine(g, n, pos, grammar::and_expr(g, pos, depth)),
    decreases g.len() - pos, 17int,
{
    reveal(grammar::and_expr);
    not_expr_spans(g, n, pos, depth);
    if let Ok((e, p)) = grammar::moved(g, pos, grammar::not_expr(g, pos, depth)) {
        and_rest_spans(g, n, pos, p, depth, e);
    }
}

#[verifier::spinoff_prover]
proof fn and_rest_spans(g: Input, n: int, start: int, pos: int, depth: int, left: ExprModel)
    requires
        stream(g, n),
        0 <= start < pos < g.len(),
        stands(g, start, pos, left),
    ensures
        fine(g, n, start, grammar::and_rest(g, start, pos, depth, left)),
    decreases g.len() - pos, 0int,
{
    reveal(grammar::and_rest);
    if g.word(pos, "and"@) {
        not_expr_spans(g, n, pos + 1, depth);
        if let Ok((right, p)) = grammar::moved(g, pos + 1, grammar::not_expr(g, pos + 1, depth)) {
            let op = ast::BinOp::And;
            bin_stands(g, n, start, pos, p, op, left, right);
            and_rest_spans(g, n, start, p, depth, grammar::bin(g, start, p, op, left, right));
        }
    }
}

#[verifier::spinoff_prover]
proof fn not_expr_spans(g: Input, n: int, pos: int, depth: int)
    requires
        stream(g, n),
        0 <= pos < g.len(),
    ensures
        fine(g, n, pos, grammar::not_expr(g, pos, depth)),
    decreases g.len() - pos, 16int,
{
    reveal(grammar::not_expr);
    if g.word(pos, "not"@) {
        if depth < MAX_DEPTH {
            not_expr_spans(g, n, pos + 1, depth + 1);
            if let Ok((e, p)) = grammar::moved(g, pos + 1, grammar::not_expr(g, pos + 1, depth + 1)) {
                grow(g, n, pos, pos + 1, p, p, e);
                reveal(kind_nested);
                node_stands(g, n, pos, p, KindModel::Unary(ast::UnOp::Not, Box::new(e)));
            }
        }
    } else {
        compare_spans(g, n, pos, depth);
    }
}

#[verifier::spinoff_prover]
proof fn compare_spans(g: Input, n: int, pos: int, depth: int)
    requires
        stream(g, n),
        0 <= pos < g.len(),
    ensures
        fine(g, n, pos, grammar::compare(g, pos, depth)),
    decreases g.len() - pos, 15int,
{
    reveal(grammar::compare);
    math1_spans(g, n, pos, depth);
    if let Ok((e, p)) = grammar::moved(g, pos, grammar::math1(g, pos, depth)) {
        no_args_nested(left(g, pos), right(g, p));
        compare_rest_spans(g, n, pos, p, depth, e, Seq::empty());
    }
}

#[verifier::spinoff_prover]
proof fn compare_rest_spans(
    g: Input,
    n: int,
    start: int,
    pos: int,
    depth: int,
    e: ExprModel,
    ops: Seq<(CmpOp, ExprModel)>,
)
    requires
        stream(g, n),
        0 <= start < pos < g.len(),
        stands(g, start, pos, e),
        operands_nested(ops, left(g, start), right(g, pos)),
    ensures
        fine(g, n, start, grammar::compare_rest(g, start, pos, depth, e, ops)),
    decreases g.len() - pos, 0int,
{
    reveal(grammar::compare_rest);
    if let Some((op, k)) = grammar::comparison_at(g, pos) {
        math1_spans(g, n, pos + k, depth);
        if let Ok((right, p)) = grammar::moved(g, pos + k, grammar::math1(g, pos + k, depth)) {
            order(g, n, start, start, pos, p);
            grow(g, n, start, start, pos, p, e);
            grow(g, n, start, pos + k, p, p, right);
            operands_push(ops, left(g, start), self::right(g, pos), op, right, self::right(g, p));
            compare_rest_spans(g, n, start, p, depth, e, ops.push((op, right)));
        }
    } else if ops.len() > 0 {
        reveal(kind_nested);
        node_stands(g, n, start, pos, KindModel::Compare(Box::new(e), ops));
    }
}

#[verifier::spinoff_prover]
proof fn math1_spans(g: Input, n: int, pos: int, depth: int)
    requires
        stream(g, n),
        0 <= pos < g.len(),
    ensures
        fine(g, n, pos, grammar::math1(g, pos, depth)),
    decreases g.len() - pos, 14int,
{
    reveal(grammar::math1);
    concat_spans(g, n, pos, depth);
    if let Ok((e, p)) = grammar::moved(g, pos, grammar::concat(g, pos, depth)) {
        math1_rest_spans(g, n, pos, p, depth, e);
    }
}

#[verifier::spinoff_prover]
proof fn math1_rest_spans(g: Input, n: int, start: int, pos: int, depth: int, left: ExprModel)
    requires
        stream(g, n),
        0 <= start < pos < g.len(),
        stands(g, start, pos, left),
    ensures
        fine(g, n, start, grammar::math1_rest(g, start, pos, depth, left)),
    decreases g.len() - pos, 0int,
{
    reveal(grammar::math1_rest);
    if 0 <= pos < g.len() && grammar::additive(g.toks[pos].kind) is Some {
        concat_spans(g, n, pos + 1, depth);
        if let Ok((right, p)) = grammar::moved(g, pos + 1, grammar::concat(g, pos + 1, depth)) {
            let op = grammar::additive(g.toks[pos].kind)->0;
            bin_stands(g, n, start, pos, p, op, left, right);
            math1_rest_spans(g, n, start, p, depth, grammar::bin(g, start, p, op, left, right));
        }
    }
}

#[verifier::spinoff_prover]
proof fn concat_spans(g: Input, n: int, pos: int, depth: int)
    requires
        stream(g, n),
        0 <= pos < g.len(),
    ensures
        fine(g, n, pos, grammar::concat(g, pos, depth)),
    decreases g.len() - pos, 13int,
{
    reveal(grammar::concat);
    math2_spans(g, n, pos, depth);
    if let Ok((e, p)) = grammar::moved(g, pos, grammar::math2(g, pos, depth)) {
        no_args_nested(left(g, pos), right(g, p));
        order(g, n, pos, pos, p, p);
        each_push(Seq::empty(), left(g, pos), right(g, p), e, left(g, pos), right(g, p));
        assert(Seq::<ExprModel>::empty().push(e) =~= seq![e]);
        concat_rest_spans(g, n, pos, p, depth, seq![e]);
    }
}

#[verifier::spinoff_prover]
proof fn concat_rest_spans(
    g: Input,
    n: int,
    start: int,
    pos: int,
    depth: int,
    args: Seq<ExprModel>,
)
    requires
        stream(g, n),
        0 <= start < pos < g.len(),
        each_nested(args, left(g, start), right(g, pos)),
    ensures
        fine(g, n, start, grammar::concat_rest(g, start, pos, depth, args)),
    decreases g.len() - pos, 0int,
{
    reveal(grammar::concat_rest);
    if g.is(pos, Kind::Tilde) {
        math2_spans(g, n, pos + 1, depth);
        if let Ok((e, p)) = grammar::moved(g, pos + 1, grammar::math2(g, pos + 1, depth)) {
            order(g, n, start, start, pos, p);
            order(g, n, start, pos + 1, p, p);
            each_push(args, left(g, start), right(g, pos), e, left(g, pos + 1), right(g, p));
            concat_rest_spans(g, n, start, p, depth, args.push(e));
        }
    } else if args.len() == 1 {
        reveal(each_nested);
    } else {
        reveal(kind_nested);
        reveal(each_nested);
        node_stands(g, n, start, pos, KindModel::Concat(args));
    }
}

#[verifier::spinoff_prover]
proof fn math2_spans(g: Input, n: int, pos: int, depth: int)
    requires
        stream(g, n),
        0 <= pos < g.len(),
    ensures
        fine(g, n, pos, grammar::math2(g, pos, depth)),
    decreases g.len() - pos, 12int,
{
    reveal(grammar::math2);
    pow_spans(g, n, pos, depth);
    if let Ok((e, p)) = grammar::moved(g, pos, grammar::pow(g, pos, depth)) {
        math2_rest_spans(g, n, pos, p, depth, e);
    }
}

#[verifier::spinoff_prover]
proof fn math2_rest_spans(g: Input, n: int, start: int, pos: int, depth: int, left: ExprModel)
    requires
        stream(g, n),
        0 <= start < pos < g.len(),
        stands(g, start, pos, left),
    ensures
        fine(g, n, start, grammar::math2_rest(g, start, pos, depth, left)),
    decreases g.len() - pos, 0int,
{
    reveal(grammar::math2_rest);
    if 0 <= pos < g.len() && grammar::multiplicative(g.toks[pos].kind) is Some {
        pow_spans(g, n, pos + 1, depth);
        if let Ok((right, p)) = grammar::moved(g, pos + 1, grammar::pow(g, pos + 1, depth)) {
            let op = grammar::multiplicative(g.toks[pos].kind)->0;
            bin_stands(g, n, start, pos, p, op, left, right);
            math2_rest_spans(g, n, start, p, depth, grammar::bin(g, start, p, op, left, right));
        }
    }
}

#[verifier::spinoff_prover]
proof fn pow_spans(g: Input, n: int, pos: int, depth: int)
    requires
        stream(g, n),
        0 <= pos < g.len(),
    ensures
        fine(g, n, pos, grammar::pow(g, pos, depth)),
    decreases g.len() - pos, 11int,
{
    reveal(grammar::pow);
    unary_spans(g, n, pos, depth, true);
    if let Ok((e, p)) = grammar::moved(g, pos, grammar::unary(g, pos, depth, true)) {
        pow_rest_spans(g, n, pos, p, depth, e);
    }
}

#[verifier::spinoff_prover]
proof fn pow_rest_spans(g: Input, n: int, start: int, pos: int, depth: int, left: ExprModel)
    requires
        stream(g, n),
        0 <= start < pos < g.len(),
        stands(g, start, pos, left),
    ensures
        fine(g, n, start, grammar::pow_rest(g, start, pos, depth, left)),
    decreases g.len() - pos, 0int,
{
    reveal(grammar::pow_rest);
    if g.is(pos, Kind::Pow) {
        unary_spans(g, n, pos + 1, depth, true);
        if let Ok((right, p)) = grammar::moved(g, pos + 1, grammar::unary(g, pos + 1, depth, true)) {
            let op = ast::BinOp::Pow;
            bin_stands(g, n, start, pos, p, op, left, right);
            pow_rest_spans(g, n, start, p, depth, grammar::bin(g, start, p, op, left, right));
        }
    }
}

#[verifier::spinoff_prover]
proof fn unary_spans(g: Input, n: int, pos: int, depth: int, filters: bool)
    requires
        stream(g, n),
        0 <= pos < g.len(),
    ensures
        fine(g, n, pos, grammar::unary(g, pos, depth, filters)),
    decreases g.len() - pos, 10int,
{
    reveal(grammar::unary);
    operand_spans(g, n, pos, depth);
    if let Ok((e, p)) = grammar::moved(g, pos, grammar::operand(g, pos, depth)) {
        postfix_spans(g, n, pos, p, depth, e);
        if let Ok((e, q)) = grammar::kept(g, p, grammar::postfix(g, pos, p, depth, e)) {
            if filters {
                filtered_spans(g, n, pos, q, depth, e);
            }
        }
    }
}

#[verifier::spinoff_prover]
proof fn operand_spans(g: Input, n: int, pos: int, depth: int)
    requires
        stream(g, n),
        0 <= pos < g.len(),
    ensures
        fine(g, n, pos, grammar::operand(g, pos, depth)),
    decreases g.len() - pos, 9int,
{
    reveal(grammar::operand);
    if grammar::sign(g.toks[pos].kind) is Some {
        if depth < MAX_DEPTH {
            unary_spans(g, n, pos + 1, depth + 1, false);
            if let Ok((e, p)) = grammar::moved(
                g,
                pos + 1,
                grammar::unary(g, pos + 1, depth + 1, false),
            ) {
                grow(g, n, pos, pos + 1, p, p, e);
                reveal(kind_nested);
                let op = grammar::sign(g.toks[pos].kind)->0;
                node_stands(g, n, pos, p, KindModel::Unary(op, Box::new(e)));
            }
        }
    } else {
        primary_spans(g, n, pos, depth);
    }
}

#[verifier::spinoff_prover]
proof fn strings_spans(g: Input, n: int, pos: int, acc: Seq<char>)
    requires
        stream(g, n),
        0 <= pos < g.len(),
    ensures
        match grammar::strings(g, pos, acc) {
            Ok((_, p)) => pos <= p < g.len() && (g.is(pos, Kind::Str) ==> pos < p),
            Err(x) => points(x, n),
        },
    decreases g.len() - pos, 0int,
{
    reveal(grammar::strings);
    if g.is(pos, Kind::Str) {
        if let Ok(s) = lexer::string_at(g.src, g.toks[pos].span) {
            strings_spans(g, n, pos + 1, acc + s);
        }
    }
}

#[verifier::spinoff_prover]
proof fn primary_spans(g: Input, n: int, pos: int, depth: int)
    requires
        stream(g, n),
        0 <= pos < g.len(),
    ensures
        fine(g, n, pos, grammar::primary(g, pos, depth)),
    decreases g.len() - pos, 8int,
{
    reveal(grammar::primary);
    reveal(kind_nested);
    match g.toks[pos].kind {
        Kind::Name => {
            node_stands(g, n, pos, pos + 1, grammar::name_kind(g.text(pos)));
        },
        Kind::Str => {
            strings_spans(g, n, pos, Seq::empty());
            if let Ok((s, p)) = grammar::strings(g, pos, Seq::empty()) {
                node_stands(g, n, pos, p, KindModel::Const(ast::ConstModel::Str(s)));
            }
        },
        Kind::Int => {
            if let Ok(v) = lexer::int_at(g.src, g.toks[pos].span) {
                node_stands(
                    g,
                    n,
                    pos,
                    pos + 1,
                    KindModel::Const(ast::ConstModel::Int(v as i64)),
                );
            }
        },
        Kind::Float => {
            let digits = lexer::no_underscores(g.text(pos), g.text(pos).len() as int);
            node_stands(g, n, pos, pos + 1, KindModel::Const(ast::ConstModel::Float(digits)));
        },
        Kind::Lparen => {
            assert(g.toks[pos].span.end <= g.toks[pos + 1].span.start);
            no_args_nested(left(g, pos + 1), right(g, pos + 1));
            no_args_nested(left(g, pos + 1), left(g, pos + 1));
            tuple_spans(g, n, pos + 1, pos + 1, depth, Seq::empty(), false);
            if let Ok((e, p)) = grammar::kept(
                g,
                pos + 1,
                grammar::tuple(g, pos + 1, pos + 1, depth, Seq::empty(), false),
            ) {
                reveal(nested);
                order(g, n, pos, pos + 1, p + 1, p + 1);
                kind_widen(
                    e.kind,
                    e.span.start as int,
                    e.span.end as int,
                    left(g, pos),
                    right(g, p + 1),
                );
                node_stands(g, n, pos, p + 1, e.kind);
            }
        },
        Kind::Lbracket => {
            no_args_nested(left(g, pos), right(g, pos + 1));
            list_spans(g, n, pos, pos + 1, depth, Seq::empty());
        },
        Kind::Lbrace => {
            no_args_nested(left(g, pos), right(g, pos + 1));
            dict_spans(g, n, pos, pos + 1, depth, Seq::empty());
        },
        _ => {},
    }
}

#[verifier::spinoff_prover]
proof fn tuple_of_spans(
    g: Input,
    n: int,
    start: int,
    pos: int,
    args: Seq<ExprModel>,
    is_tuple: bool,
)
    requires
        stream(g, n),
        0 < start <= pos < g.len(),
        args.len() > 0 ==> start < pos && each_nested(args, left(g, start), right(g, pos)),
    ensures
        nested(
            grammar::tuple_of(g, start, pos, args, is_tuple),
            left(g, start),
            right(g, pos + 1),
        ),
{
    order(g, n, start, start, pos + 1, pos + 1);
    if start < pos {
        order(g, n, start, start, pos, pos + 1);
    }
    if args.len() == 0 {
        assert(args =~= Seq::empty());
        no_args_nested(left(g, start), grammar::span_from(g, start, pos).end as int);
    }
    reveal(each_nested);
    reveal(kind_nested);
    reveal(nested);
    if !is_tuple && args.len() > 0 {
        widen(args.last(), left(g, start), right(g, pos), left(g, start), right(g, pos + 1));
    }
}

/// The tree of a parenthesised expression may be the closing parenthesis itself, where nothing
/// stands before it.
#[verifier::spinoff_prover]
proof fn tuple_spans(
    g: Input,
    n: int,
    start: int,
    pos: int,
    depth: int,
    args: Seq<ExprModel>,
    is_tuple: bool,
)
    requires
        stream(g, n),
        0 < start <= pos < g.len(),
        args.len() > 0 ==> start < pos && each_nested(args, left(g, start), right(g, pos)),
    ensures
        match grammar::tuple(g, start, pos, depth, args, is_tuple) {
            Ok((e, p)) => start <= p < g.len() && nested(
                e,
                left(g, start),
                right(g, p + 1),
            ),
            Err(x) => points(x, n),
        },
    decreases g.len() - pos, 21int,
{
    reveal(grammar::tuple);
    if g.is(pos, Kind::Rparen) || g.is(pos, Kind::Eof) {
        tuple_of_spans(g, n, start, pos, args, is_tuple);
    } else {
        expression_tree(g, n, pos, depth);
        if let Ok((e, p)) = grammar::moved(g, pos, grammar::expression(g, pos, depth)) {
            order(g, n, start, pos, p, p);
            if args.len() == 0 {
                assert(args =~= Seq::empty());
                no_args_nested(left(g, start), left(g, start));
                each_push(args, left(g, start), left(g, start), e, left(g, pos), right(g, p));
            } else {
                order(g, n, start, start, pos, p);
                each_push(args, left(g, start), right(g, pos), e, left(g, pos), right(g, p));
            }
            if !g.is(p, Kind::Comma) {
                tuple_of_spans(g, n, start, p, args.push(e), is_tuple);
            } else {
                order(g, n, start, start, p, p + 1);
                each_widen(
                    args.push(e),
                    left(g, start),
                    right(g, p),
                    left(g, start),
                    right(g, p + 1),
                );
                tuple_spans(g, n, start, p + 1, depth, args.push(e), true);
            }
        }
    }
}

#[verifier::spinoff_prover]
proof fn list_spans(g: Input, n: int, start: int, pos: int, depth: int, items: Seq<ExprModel>)
    requires
        stream(g, n),
        0 <= start < pos < g.len(),
        each_nested(items, left(g, start), right(g, pos)),
    ensures
        fine(g, n, start, grammar::list(g, start, pos, depth, items)),
    decreases g.len() - pos, 21int,
{
    reveal(grammar::list);
    order(g, n, start, start, pos, pos + 1);
    each_widen(items, left(g, start), right(g, pos), left(g, start), right(g, pos + 1));
    reveal(kind_nested);
    node_stands(g, n, start, pos + 1, KindModel::List(items));
    if !g.is(pos, Kind::Rbracket) && (items.len() == 0 || g.is(pos, Kind::Comma)) {
        let at = if items.len() > 0 {
            pos + 1
        } else {
            pos
        };
        if !(items.len() > 0 && g.is(at, Kind::Rbracket)) {
            expression_tree(g, n, at, depth);
            if let Ok((e, p)) = grammar::moved(g, at, grammar::expression(g, at, depth)) {
                order(g, n, start, start, pos, p);
                order(g, n, start, at, p, p);
                each_push(items, left(g, start), right(g, pos), e, left(g, at), right(g, p));
                list_spans(g, n, start, p, depth, items.push(e));
            }
        } else {
            order(g, n, start, start, pos, at + 1);
            each_widen(items, left(g, start), right(g, pos), left(g, start), right(g, at + 1));
            node_stands(g, n, start, at + 1, KindModel::List(items));
        }
    }
}

#[verifier::spinoff_prover]
proof fn dict_spans(
    g: Input,
    n: int,
    start: int,
    pos: int,
    depth: int,
    items: Seq<(ExprModel, ExprModel)>,
)
    requires
        stream(g, n),
        0 <= start < pos < g.len(),
        pairs_nested(items, left(g, start), right(g, pos)),
    ensures
        fine(g, n, start, grammar::dict(g, start, pos, depth, items)),
    decreases g.len() - pos, 21int,
{
    reveal(grammar::dict);
    order(g, n, start, start, pos, pos + 1);
    pairs_widen(items, left(g, start), right(g, pos), left(g, start), right(g, pos + 1));
    reveal(kind_nested);
    node_stands(g, n, start, pos + 1, KindModel::Dict(items));
    if !g.is(pos, Kind::Rbrace) && (items.len() == 0 || g.is(pos, Kind::Comma)) {
        let at = if items.len() > 0 {
            pos + 1
        } else {
            pos
        };
        if !(items.len() > 0 && g.is(at, Kind::Rbrace)) {
            expression_tree(g, n, at, depth);
            if let Ok((key, p)) = grammar::moved(g, at, grammar::expression(g, at, depth)) {
                if g.is(p, Kind::Colon) {
                    expression_tree(g, n, p + 1, depth);
                    if let Ok((value, q)) = grammar::moved(
                        g,
                        p + 1,
                        grammar::expression(g, p + 1, depth),
                    ) {
                        order(g, n, start, start, pos, q);
                        grow(g, n, start, at, p, q, key);
                        grow(g, n, start, p + 1, q, q, value);
                        pairs_push(items, left(g, start), right(g, pos), key, value, right(g, q));
                        dict_spans(g, n, start, q, depth, items.push((key, value)));
                    }
                }
            }
        } else {
            order(g, n, start, start, pos, at + 1);
            pairs_widen(items, left(g, start), right(g, pos), left(g, start), right(g, at + 1));
            node_stands(g, n, start, at + 1, KindModel::Dict(items));
        }
    }
}

#[verifier::spinoff_prover]
proof fn postfix_spans(g: Input, n: int, start: int, pos: int, depth: int, e: ExprModel)
    requires
        stream(g, n),
        0 <= start < pos < g.len(),
        stands(g, start, pos, e),
    ensures
        fine(g, n, start, grammar::postfix(g, start, pos, depth, e)),
    decreases g.len() - pos, 8int,
{
    reveal(grammar::postfix);
    if g.is(pos, Kind::Dot) || g.is(pos, Kind::Lbracket) {
        subscript_spans(g, n, start, pos, depth, e);
        if let Ok((e, p)) = grammar::moved(g, pos, grammar::subscript(g, start, pos, depth, e)) {
            postfix_spans(g, n, start, p, depth, e);
        }
    } else if g.is(pos, Kind::Lparen) {
        call_spans(g, n, start, pos, depth, e);
        if let Ok((e, p)) = grammar::moved(g, pos, grammar::call(g, start, pos, depth, e)) {
            postfix_spans(g, n, start, p, depth, e);
        }
    }
}

#[verifier::spinoff_prover]
proof fn filtered_spans(g: Input, n: int, start: int, pos: int, depth: int, e: ExprModel)
    requires
        stream(g, n),
        0 <= start < pos < g.len(),
        stands(g, start, pos, e),
    ensures
        fine(g, n, start, grammar::filtered(g, start, pos, depth, e)),
    decreases g.len() - pos, 8int,
{
    reveal(grammar::filtered);
    if g.is(pos, Kind::Pipe) {
        filter_spans(g, n, start, pos, depth, e);
        if let Ok((e, p)) = grammar::moved(g, pos, grammar::filter(g, start, pos, depth, e)) {
            filtered_spans(g, n, start, p, depth, e);
        }
    } else if g.word(pos, "is"@) {
        test_spans(g, n, start, pos, depth, e);
        if let Ok((e, p)) = grammar::moved(g, pos, grammar::test(g, start, pos, depth, e)) {
            filtered_spans(g, n, start, p, depth, e);
        }
    } else if g.is(pos, Kind::Lparen) {
        call_spans(g, n, start, pos, depth, e);
        if let Ok((e, p)) = grammar::moved(g, pos, grammar::call(g, start, pos, depth, e)) {
            filtered_spans(g, n, start, p, depth, e);
        }
    }
}

#[verifier::spinoff_prover]
proof fn subscript_spans(g: Input, n: int, start: int, pos: int, depth: int, e: ExprModel)
    requires
        stream(g, n),
        0 <= start < pos < g.len(),
        stands(g, start, pos, e),
    ensures
        fine(g, n, start, grammar::subscript(g, start, pos, depth, e)),
    decreases g.len() - pos, 7int,
{
    reveal(grammar::subscript);
    if pos + 1 < g.len() && g.is(pos, Kind::Dot) {
        grow(g, n, start, start, pos, pos + 2, e);
        order(g, n, start, pos + 1, pos + 2, pos + 2);
        reveal(kind_nested);
        reveal(nested);
        match g.toks[pos + 1].kind {
            Kind::Name => {
                let kind = KindModel::Getattr(Box::new(e), g.text(pos + 1));
                node_stands(g, n, start, pos + 2, kind);
            },
            Kind::Int => {
                let span = g.toks[pos + 1].span;
                if let Ok(v) = lexer::int_at(g.src, span) {
                    let arg = ExprModel {
                        kind: KindModel::Const(ast::ConstModel::Int(v as i64)),
                        span,
                    };
                    assert(nested(arg, left(g, start), right(g, pos + 2))) by {
                        reveal(nested);
                    }
                    let kind = KindModel::Getitem(Box::new(e), Box::new(arg));
                    node_stands(g, n, start, pos + 2, kind);
                }
            },
            _ => {},
        }
    } else if pos + 1 < g.len() {
        order(g, n, start, start, pos, pos + 1);
        grow(g, n, start, start, pos, pos + 1, e);
        no_args_nested(left(g, start), right(g, pos + 1));
        subscripts_spans(g, n, start, pos + 1, depth, e, Seq::empty());
    }
}

#[verifier::spinoff_prover]
proof fn subscripts_spans(
    g: Input,
    n: int,
    start: int,
    pos: int,
    depth: int,
    e: ExprModel,
    args: Seq<ExprModel>,
)
    requires
        stream(g, n),
        0 <= start < pos < g.len(),
        stands(g, start, pos, e),
        each_nested(args, left(g, start), right(g, pos)),
    ensures
        fine(g, n, start, grammar::subscripts(g, start, pos, depth, e, args)),
    decreases g.len() - pos, 23int,
{
    reveal(grammar::subscripts);
    if g.is(pos, Kind::Rbracket) {
        order(g, n, start, start, pos, pos + 1);
        each_widen(args, left(g, start), right(g, pos), left(g, start), right(g, pos + 1));
        reveal(kind_nested);
        reveal(each_nested);
        node_stands(g, n, start, pos + 1, KindModel::Tuple(args));
        let arg = if args.len() == 1 {
            args[0]
        } else {
            grammar::node(g, start, pos + 1, KindModel::Tuple(args))
        };
        assert(stands(g, start, pos + 1, arg)) by {
            reveal(each_nested);
        }
        grow(g, n, start, start, pos, pos + 1, e);
        node_stands(g, n, start, pos + 1, KindModel::Getitem(Box::new(e), Box::new(arg)));
    } else if args.len() == 0 || g.is(pos, Kind::Comma) {
        let at = if args.len() > 0 {
            pos + 1
        } else {
            pos
        };
        subscribed_spans(g, n, at, depth);
        if let Ok((arg, p)) = grammar::moved(g, at, grammar::subscribed(g, at, depth)) {
            order(g, n, start, start, pos, p);
            order(g, n, start, at, p, p);
            each_push(args, left(g, start), right(g, pos), arg, left(g, at), right(g, p));
            grow(g, n, start, start, pos, p, e);
            subscripts_spans(g, n, start, p, depth, e, args.push(arg));
        }
    }
}

#[verifier::spinoff_prover]
proof fn subscribed_spans(g: Input, n: int, pos: int, depth: int)
    requires
        stream(g, n),
        0 <= pos < g.len(),
    ensures
        fine(g, n, pos, grammar::subscribed(g, pos, depth)),
    decreases g.len() - pos, 22int,
{
    reveal(grammar::subscribed);
    if g.is(pos, Kind::Colon) {
        no_args_nested(left(g, pos), right(g, pos + 1));
        slice_stop_spans(g, n, pos, pos + 1, depth, None);
    } else {
        expression_tree(g, n, pos, depth);
        if let Ok((e, p)) = grammar::moved(g, pos, grammar::expression(g, pos, depth)) {
            if g.is(p, Kind::Colon) {
                grow(g, n, pos, pos, p, p + 1, e);
                reveal(optional_nested);
                slice_stop_spans(g, n, pos, p + 1, depth, Some(Box::new(e)));
            }
        }
    }
}

/// Does an optional tree stand on the tokens from `start` up to `pos`?
spec fn optional_stands(g: Input, start: int, pos: int, e: Option<Box<ExprModel>>) -> bool {
    optional_nested(e, left(g, start), right(g, pos))
}

#[verifier::spinoff_prover]
proof fn slice_stop_spans(
    g: Input,
    n: int,
    start: int,
    pos: int,
    depth: int,
    first: Option<Box<ExprModel>>,
)
    requires
        stream(g, n),
        0 <= start < pos < g.len(),
        optional_stands(g, start, pos, first),
    ensures
        fine(g, n, start, grammar::slice_stop(g, start, pos, depth, first)),
    decreases g.len() - pos, 22int,
{
    reveal(grammar::slice_stop);
    if g.is(pos, Kind::Colon) || grammar::part_ends(g, pos) {
        no_args_nested(left(g, start), right(g, pos));
        slice_step_spans(g, n, start, pos, depth, first, None);
    } else {
        expression_tree(g, n, pos, depth);
        if let Ok((e, p)) = grammar::moved(g, pos, grammar::expression(g, pos, depth)) {
            order(g, n, start, start, pos, p);
            optional_widen(first, left(g, start), right(g, pos), left(g, start), right(g, p));
            grow(g, n, start, pos, p, p, e);
            reveal(optional_nested);
            slice_step_spans(g, n, start, p, depth, first, Some(Box::new(e)));
        }
    }
}

#[verifier::spinoff_prover]
proof fn slice_step_spans(
    g: Input,
    n: int,
    start: int,
    pos: int,
    depth: int,
    first: Option<Box<ExprModel>>,
    stop: Option<Box<ExprModel>>,
)
    requires
        stream(g, n),
        0 <= start < pos < g.len(),
        optional_stands(g, start, pos, first),
        optional_stands(g, start, pos, stop),
    ensures
        fine(g, n, start, grammar::slice_step(g, start, pos, depth, first, stop)),
    decreases g.len() - pos, 21int,
{
    reveal(grammar::slice_step);
    reveal(kind_nested);
    reveal(optional_nested);
    if !g.is(pos, Kind::Colon) {
        no_args_nested(left(g, start), right(g, pos));
        node_stands(g, n, start, pos, KindModel::Slice(first, stop, None));
    } else if grammar::part_ends(g, pos + 1) {
        order(g, n, start, start, pos, pos + 1);
        no_args_nested(left(g, start), right(g, pos + 1));
        optional_widen(first, left(g, start), right(g, pos), left(g, start), right(g, pos + 1));
        optional_widen(stop, left(g, start), right(g, pos), left(g, start), right(g, pos + 1));
        node_stands(g, n, start, pos + 1, KindModel::Slice(first, stop, None));
    } else {
        expression_tree(g, n, pos + 1, depth);
        if let Ok((e, p)) = grammar::moved(g, pos + 1, grammar::expression(g, pos + 1, depth)) {
            order(g, n, start, start, pos, p);
            optional_widen(first, left(g, start), right(g, pos), left(g, start), right(g, p));
            optional_widen(stop, left(g, start), right(g, pos), left(g, start), right(g, p));
            grow(g, n, start, pos + 1, p, p, e);
            reveal(optional_nested);
            node_stands(g, n, start, p, KindModel::Slice(first, stop, Some(Box::new(e))));
        }
    }
}

#[verifier::spinoff_prover]
proof fn call_args_spans(g: Input, n: int, pos: int, depth: int)
    requires
        stream(g, n),
        0 <= pos < g.len() - 1,
    ensures
        args_fine(g, n, pos, grammar::call_args(g, pos, depth)),
        match grammar::call_args(g, pos, depth) {
            Ok((_, p)) => pos < p,
            Err(_) => true,
        },
    decreases g.len() - pos, 5int,
{
    reveal(grammar::call_args);
    no_args_nested(left(g, pos), right(g, pos + 1));
    args_rest_spans(g, n, pos, pos + 1, depth, ast::no_args(), false);
}

#[verifier::spinoff_prover]
proof fn args_rest_spans(
    g: Input,
    n: int,
    from: int,
    pos: int,
    depth: int,
    out: ArgsModel,
    require_comma: bool,
)
    requires
        stream(g, n),
        0 <= from < pos < g.len(),
        args_stand(g, from, pos, out),
    ensures
        match grammar::args_rest(g, pos, depth, out, require_comma) {
            Ok((args, p)) => pos < p <= g.len() && args_stand(g, from, p, args),
            Err(x) => points(x, n),
        },
    decreases g.len() - pos, 23int,
{
    reveal(grammar::args_rest);
    if g.is(pos, Kind::Rparen) {
        order(g, n, from, from, pos, pos + 1);
        args_widen(out, left(g, from), right(g, pos), left(g, from), right(g, pos + 1));
    } else if !require_comma {
        one_arg_spans(g, n, from, pos, depth, out);
    } else if g.is(pos, Kind::Comma) && g.is(pos + 1, Kind::Rparen) {
        order(g, n, from, from, pos, pos + 2);
        args_widen(out, left(g, from), right(g, pos), left(g, from), right(g, pos + 2));
    } else if g.is(pos, Kind::Comma) {
        order(g, n, from, from, pos, pos + 1);
        args_widen(out, left(g, from), right(g, pos), left(g, from), right(g, pos + 1));
        one_arg_spans(g, n, from, pos + 1, depth, out);
    }
}

#[verifier::spinoff_prover]
proof fn one_arg_spans(g: Input, n: int, from: int, pos: int, depth: int, out: ArgsModel)
    requires
        stream(g, n),
        0 <= from < pos < g.len(),
        args_stand(g, from, pos, out),
    ensures
        match grammar::one_arg(g, pos, depth, out) {
            Ok((args, p)) => pos < p <= g.len() && args_stand(g, from, p, args),
            Err(x) => points(x, n),
        },
    decreases g.len() - pos, 22int,
{
    reveal(grammar::one_arg);
    let at = if g.is(pos, Kind::Mul) || g.is(pos, Kind::Pow) {
        pos + 1
    } else if g.is(pos, Kind::Name) && g.is(pos + 1, Kind::Assign) {
        pos + 2
    } else {
        pos
    };
    expression_tree(g, n, at, depth);
    if let Ok((e, p)) = grammar::moved(g, at, grammar::expression(g, at, depth)) {
        let a = ArgsModel { dyn_args: Some(Box::new(e)), ..out };
        let b = ArgsModel { dyn_kwargs: Some(Box::new(e)), ..out };
        let c = ArgsModel { kwargs: out.kwargs.push((g.text(pos), e)), ..out };
        let d = ArgsModel { args: out.args.push(e), ..out };
        with_arg(g, n, from, pos, at, p, out, e);
        args_rest_spans(g, n, from, p, depth, a, true);
        args_rest_spans(g, n, from, p, depth, b, true);
        args_rest_spans(g, n, from, p, depth, c, true);
        args_rest_spans(g, n, from, p, depth, d, true);
    }
}

/// Arguments with one more argument, of any of the four kinds.
#[verifier::spinoff_prover]
proof fn with_arg(
    g: Input,
    n: int,
    from: int,
    pos: int,
    at: int,
    p: int,
    out: ArgsModel,
    e: ExprModel,
)
    requires
        stream(g, n),
        0 <= from < pos <= at < p <= g.len(),
        args_stand(g, from, pos, out),
        stands(g, at, p, e),
    ensures
        args_stand(g, from, p, ArgsModel { dyn_args: Some(Box::new(e)), ..out }),
        args_stand(g, from, p, ArgsModel { dyn_kwargs: Some(Box::new(e)), ..out }),
        args_stand(g, from, p, ArgsModel { kwargs: out.kwargs.push((g.text(pos), e)), ..out }),
        args_stand(g, from, p, ArgsModel { args: out.args.push(e), ..out }),
{
    order(g, n, from, from, pos, p);
    order(g, n, from, at, p, p);
    grow(g, n, from, at, p, p, e);
    args_widen(out, left(g, from), right(g, pos), left(g, from), right(g, p));
    reveal(args_nested);
    reveal(optional_nested);
    each_push(out.args, left(g, from), right(g, p), e, left(g, from), right(g, p));
    let w = out.kwargs.push((g.text(pos), e));
    assert(kwargs_nested(w, left(g, from), right(g, p))) by {
        reveal(kwargs_nested);
        assert forall|i: int| 0 <= i < w.len() implies nested(
            (#[trigger] w[i]).1,
            left(g, from),
            right(g, p),
        ) by {
            if i < out.kwargs.len() {
                assert(w[i] == out.kwargs[i]);
            }
        }
    }
}

#[verifier::spinoff_prover]
proof fn call_spans(g: Input, n: int, start: int, pos: int, depth: int, e: ExprModel)
    requires
        stream(g, n),
        0 <= start < pos < g.len() - 1,
        stands(g, start, pos, e),
    ensures
        fine(g, n, start, grammar::call(g, start, pos, depth, e)),
    decreases g.len() - pos, 6int,
{
    reveal(grammar::call);
    call_args_spans(g, n, pos, depth);
    if let Ok((args, p)) = grammar::call_args(g, pos, depth) {
        order(g, n, start, pos, p, p);
        args_widen(args, left(g, pos), right(g, p), left(g, start), right(g, p));
        grow(g, n, start, start, pos, p, e);
        reveal(kind_nested);
        node_stands(g, n, start, p, KindModel::Call(Box::new(e), args));
    }
}

#[verifier::spinoff_prover]
proof fn dotted_spans(g: Input, n: int, pos: int)
    requires
        stream(g, n),
        0 <= pos < g.len(),
    ensures
        text_fine(g, n, pos, grammar::dotted_name(g, pos)),
{
    if g.is(pos, Kind::Name) {
        dotted_rest_spans(g, n, pos + 1, g.text(pos));
    }
}

#[verifier::spinoff_prover]
proof fn dotted_rest_spans(g: Input, n: int, pos: int, acc: Seq<char>)
    requires
        stream(g, n),
        0 <= pos < g.len(),
    ensures
        match grammar::dotted_rest(g, pos, acc) {
            Ok((_, p)) => pos <= p < g.len(),
            Err(x) => points(x, n),
        },
    decreases g.len() - pos,
{
    reveal(grammar::dotted_rest);
    if g.is(pos, Kind::Dot) && pos + 1 < g.len() && g.is(pos + 1, Kind::Name) {
        dotted_rest_spans(g, n, pos + 2, acc.push('.') + g.text(pos + 1));
    }
}

#[verifier::spinoff_prover]
proof fn optional_args_spans(g: Input, n: int, pos: int, depth: int)
    requires
        stream(g, n),
        0 <= pos < g.len(),
    ensures
        args_fine(g, n, pos, grammar::optional_args(g, pos, depth)),
    decreases g.len() - pos, 6int,
{
    reveal(grammar::optional_args);
    if g.is(pos, Kind::Lparen) {
        call_args_spans(g, n, pos, depth);
    }
}

/// A node with arguments stands where its operand and its arguments do.
#[verifier::spinoff_prover]
proof fn with_args(g: Input, n: int, start: int, pos: int, from: int, q: int, args: ArgsModel)
    requires
        stream(g, n),
        0 <= start < pos <= from <= q < g.len(),
        q > from ==> args_stand(g, from, q, args),
        q == from ==> args == ast::no_args(),
    ensures
        args_stand(g, start, q, args),
{
    if q > from {
        order(g, n, start, from, q, q);
        args_widen(args, left(g, from), right(g, q), left(g, start), right(g, q));
    } else {
        no_args_nested(left(g, start), right(g, q));
    }
}

#[verifier::spinoff_prover]
proof fn filter_spans(g: Input, n: int, start: int, pos: int, depth: int, e: ExprModel)
    requires
        stream(g, n),
        0 <= start < pos < g.len(),
        stands(g, start, pos, e),
    ensures
        fine(g, n, start, grammar::filter(g, start, pos, depth, e)),
    decreases g.len() - pos, 7int,
{
    reveal(grammar::filter);
    if g.is(pos, Kind::Pipe) {
        dotted_spans(g, n, pos + 1);
        if let Ok((name, p)) = grammar::moved_text(g, pos + 1, grammar::dotted_name(g, pos + 1)) {
            optional_args_spans(g, n, p, depth);
            if let Ok((args, q)) = grammar::moved_args(
                g,
                p - 1,
                grammar::optional_args(g, p, depth),
            ) {
                with_args(g, n, start, pos, p, q, args);
                let kind = KindModel::Filter(Box::new(e), name, args);
                grow(g, n, start, start, pos, q, e);
                reveal(kind_nested);
                node_stands(g, n, start, q, kind);
                filter_spans(g, n, start, q, depth, grammar::node(g, start, q, kind));
            }
        }
    }
}

#[verifier::spinoff_prover]
proof fn test_args_spans(g: Input, n: int, pos: int, depth: int)
    requires
        stream(g, n),
        0 <= pos < g.len(),
    ensures
        args_fine(g, n, pos, grammar::test_args(g, pos, depth)),
    decreases g.len() - pos, 9int,
{
    reveal(grammar::test_args);
    if g.is(pos, Kind::Lparen) {
        call_args_spans(g, n, pos, depth);
    } else if grammar::test_argument(g, pos) && !g.word(pos, "is"@) {
        primary_spans(g, n, pos, depth);
        if let Ok((e, p)) = grammar::moved(g, pos, grammar::primary(g, pos, depth)) {
            postfix_spans(g, n, pos, p, depth, e);
            if let Ok((arg, q)) = grammar::kept(g, p, grammar::postfix(g, pos, p, depth, e)) {
                order(g, n, pos, pos, q, q);
                no_args_nested(left(g, pos), right(g, q));
                let none = Seq::<ExprModel>::empty();
                each_push(none, left(g, pos), right(g, q), arg, left(g, pos), right(g, q));
                assert(none.push(arg) =~= seq![arg]);
                reveal(args_nested);
            }
        }
    }
}

#[verifier::spinoff_prover]
proof fn test_spans(g: Input, n: int, start: int, pos: int, depth: int, e: ExprModel)
    requires
        stream(g, n),
        0 <= start < pos < g.len(),
        stands(g, start, pos, e),
    ensures
        fine(g, n, start, grammar::test(g, start, pos, depth, e)),
    decreases g.len() - pos, 7int,
{
    reveal(grammar::test);
    let at = if g.word(pos + 1, "not"@) {
        pos + 2
    } else {
        pos + 1
    };
    if at < g.len() {
        dotted_spans(g, n, at);
        if let Ok((name, p)) = grammar::moved_text(g, at, grammar::dotted_name(g, at)) {
            test_args_spans(g, n, p, depth);
            if let Ok((args, q)) = grammar::moved_args(g, p - 1, grammar::test_args(g, p, depth)) {
                with_args(g, n, start, pos, p, q, args);
                let kind = KindModel::Test(Box::new(e), name, args);
                grow(g, n, start, start, pos, q, e);
                reveal(kind_nested);
                node_stands(g, n, start, q, kind);
                let t = grammar::node(g, start, q, kind);
                node_stands(g, n, start, q, KindModel::Unary(ast::UnOp::Not, Box::new(t)));
            }
        }
    }
}

/// Every node of an expression covers its own tokens and stands inside the node that holds it, and
/// every refusal points at a place of the text.
pub proof fn expression_spans(g: Input, pos: int, depth: int)
    requires
        lexer::tokens_ok(encode_utf8(g.src), g.toks),
        0 <= pos < g.len(),
    ensures
        fine(g, encode_utf8(g.src).len() as int, pos, grammar::expression(g, pos, depth)),
{
    expression_tree(g, encode_utf8(g.src).len() as int, pos, depth);
}

/// The items of a list stand where the list does.
pub proof fn item_nested(e: ExprModel, items: Seq<ExprModel>, i: int, low: int, high: int)
    requires
        e.kind == KindModel::List(items),
        nested(e, low, high),
        0 <= i < items.len(),
    ensures
        nested(items[i], low, high),
{
    reveal(nested);
    reveal(kind_nested);
    reveal(each_nested);
    assert(kind_nested(e.kind, e.span.start as int, e.span.end as int));
    assert(each_nested(items, e.span.start as int, e.span.end as int));
    assert(nested(items[i], e.span.start as int, e.span.end as int));
    widen(items[i], e.span.start as int, e.span.end as int, low, high);
}

} // verus!
