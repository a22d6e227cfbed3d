//! The grammar of expressions, as functions from a token stream and a position in it to a tree and
//! the position behind it.
//!
//! Precedence is the call chain:
//!
//! ```text
//! expression -> condexpr -> or -> and -> not -> compare -> math1 -> concat -> math2 -> pow
//!            -> unary -> primary,  then postfix and filters on the way back out
//! ```
//!
//! Accessors and filters attach at the *bottom* of the chain, so `r.stdout | length > 0` is a
//! comparison of a filter of an accessor. `**` is a loop and so binds to the left.

use crate::jinja::ast::{self, ArgsModel, BinOp, CmpOp, ConstModel, ExprModel, KindModel, UnOp};
use crate::jinja::lexer::{self, Cause, ErrorModel, Kind, Token};
use crate::parse::Span;
use vstd::prelude::*;

verus! {

/// A text and its tokens.
pub struct Input {
    pub src: Seq<char>,
    pub toks: Seq<Token>,
}

/// A tree and the position behind it, or a refusal.
pub type Parsed = Result<(ExprModel, int), ErrorModel>;

/// Arguments and the position behind them, or a refusal.
pub type ParsedArgs = Result<(ArgsModel, int), ErrorModel>;

/// A text and the position behind it, or a refusal.
pub type ParsedText = Result<(Seq<char>, int), ErrorModel>;

/// How deep expressions may nest.
pub const MAX_DEPTH: u32 = 24;

impl Input {
    pub open spec fn len(self) -> int {
        self.toks.len() as int
    }

    /// Is the token at `pos` of this kind?
    pub open spec fn is(self, pos: int, kind: Kind) -> bool {
        0 <= pos < self.toks.len() && self.toks[pos].kind == kind
    }

    /// The text of the token at `pos`.
    pub open spec fn text(self, pos: int) -> Seq<char> {
        lexer::covered(self.src, self.toks[pos].span)
    }

    /// Is the token at `pos` this word? Keywords are names with a given spelling.
    pub open spec fn word(self, pos: int, word: Seq<char>) -> bool {
        self.is(pos, Kind::Name) && self.text(pos) == word
    }
}

/// The refusal of the token at `pos`.
pub open spec fn fail(g: Input, pos: int, msg: Seq<char>) -> ErrorModel {
    ErrorModel {
        msg,
        span: g.toks[pos].span,
        cause: if g.is(pos, Kind::Eof) {
            Cause::Eof
        } else {
            Cause::Parse
        },
    }
}

/// The refusal of a token where another kind is needed.
pub open spec fn expected(g: Input, pos: int, kind: Kind) -> ErrorModel {
    fail(
        g,
        pos,
        "expected "@ + lexer::kind_name(kind) + ", got "@ + lexer::kind_name(g.toks[pos].kind),
    )
}

/// The refusal of what nests too deeply.
pub open spec fn too_deep(g: Input, pos: int) -> ErrorModel {
    ErrorModel {
        msg: "expression nests too deeply"@,
        span: g.toks[pos].span,
        cause: Cause::Depth,
    }
}

/// What stands for a step that does not move on. No rule takes one.
pub open spec fn stuck() -> ErrorModel {
    ErrorModel { msg: Seq::empty(), span: Span { start: 0, end: 0 }, cause: Cause::Parse }
}

/// A result that lies behind `pos`, inside the stream.
pub open spec fn moved(g: Input, pos: int, r: Parsed) -> Parsed {
    match r {
        Ok((e, p)) => if pos < p < g.toks.len() {
            Ok((e, p))
        } else {
            Err(stuck())
        },
        Err(e) => Err(e),
    }
}

/// A result that lies at `pos` or behind it, inside the stream.
pub open spec fn kept(g: Input, pos: int, r: Parsed) -> Parsed {
    moved(g, pos - 1, r)
}

pub open spec fn moved_args(g: Input, pos: int, r: ParsedArgs) -> ParsedArgs {
    match r {
        Ok((e, p)) => if pos < p < g.toks.len() {
            Ok((e, p))
        } else {
            Err(stuck())
        },
        Err(e) => Err(e),
    }
}

pub open spec fn moved_text(g: Input, pos: int, r: ParsedText) -> ParsedText {
    match r {
        Ok((e, p)) => if pos < p < g.toks.len() {
            Ok((e, p))
        } else {
            Err(stuck())
        },
        Err(e) => Err(e),
    }
}

/// What the tokens from `start` up to `pos` span; where there are none, the token at `start`.
pub open spec fn span_from(g: Input, start: int, pos: int) -> Span {
    Span {
        start: g.toks[start].span.start,
        end: if pos > start {
            g.toks[pos - 1].span.end
        } else {
            g.toks[start].span.end
        },
    }
}

pub open spec fn node(g: Input, start: int, pos: int, kind: KindModel) -> ExprModel {
    ExprModel { kind, span: span_from(g, start, pos) }
}

pub open spec fn bin(
    g: Input,
    start: int,
    pos: int,
    op: BinOp,
    left: ExprModel,
    right: ExprModel,
) -> ExprModel {
    node(g, start, pos, KindModel::Bin(op, Box::new(left), Box::new(right)))
}

/// One expression.
#[verifier::opaque]
pub open spec fn expression(g: Input, pos: int, depth: int) -> Parsed
    decreases g.len() - pos, 20int,
{
    if depth >= MAX_DEPTH {
        Err(too_deep(g, pos))
    } else {
        condexpr(g, pos, depth + 1)
    }
}

/// `a if b else c`; `else` is optional.
#[verifier::opaque]
pub open spec fn condexpr(g: Input, pos: int, depth: int) -> Parsed
    decreases g.len() - pos, 19int,
{
    match moved(g, pos, or_expr(g, pos, depth)) {
        Ok((e, p)) => cond_rest(g, pos, p, depth, e),
        Err(e) => Err(e),
    }
}

#[verifier::opaque]
pub open spec fn cond_rest(g: Input, start: int, pos: int, depth: int, e: ExprModel) -> Parsed
    decreases g.len() - pos, 0int,
{
    if g.word(pos, "if"@) {
        match moved(g, pos + 1, or_expr(g, pos + 1, depth)) {
            Ok((test, p)) => if g.word(p, "else"@) {
                match moved(g, p + 1, condexpr(g, p + 1, depth)) {
                    Ok((alt, q)) => cond_rest(
                        g,
                        start,
                        q,
                        depth,
                        node(
                            g,
                            start,
                            q,
                            KindModel::CondExpr(
                                Box::new(test),
                                Box::new(e),
                                Some(Box::new(alt)),
                            ),
                        ),
                    ),
                    Err(e) => Err(e),
                }
            } else {
                cond_rest(
                    g,
                    start,
                    p,
                    depth,
                    node(
                        g,
                        start,
                        p,
                        KindModel::CondExpr(Box::new(test), Box::new(e), None),
                    ),
                )
            },
            Err(e) => Err(e),
        }
    } else {
        Ok((e, pos))
    }
}

#[verifier::opaque]
pub open spec fn or_expr(g: Input, pos: int, depth: int) -> Parsed
    decreases g.len() - pos, 18int,
{
    match moved(g, pos, and_expr(g, pos, depth)) {
        Ok((e, p)) => or_rest(g, pos, p, depth, e),
        Err(e) => Err(e),
    }
}

#[verifier::opaque]
pub open spec fn or_rest(g: Input, start: int, pos: int, depth: int, left: ExprModel) -> Parsed
    decreases g.len() - pos, 0int,
{
    if g.word(pos, "or"@) {
        match moved(g, pos + 1, and_expr(g, pos + 1, depth)) {
            Ok((right, p)) => or_rest(
                g,
                start,
                p,
                depth,
                bin(g, start, p, BinOp::Or, left, right),
            ),
            Err(e) => Err(e),
        }
    } else {
        Ok((left, pos))
    }
}

#[verifier::opaque]
pub open spec fn and_expr(g: Input, pos: int, depth: int) -> Parsed
    decreases g.len() - pos, 17int,
{
    match moved(g, pos, not_expr(g, pos, depth)) {
        Ok((e, p)) => and_rest(g, pos, p, depth, e),
        Err(e) => Err(e),
    }
}

#[verifier::opaque]
pub open spec fn and_rest(g: Input, start: int, pos: int, depth: int, left: ExprModel) -> Parsed
    decreases g.len() - pos, 0int,
{
    if g.word(pos, "and"@) {
        match moved(g, pos + 1, not_expr(g, pos + 1, depth)) {
            Ok((right, p)) => and_rest(
                g,
                start,
                p,
                depth,
                bin(g, start, p, BinOp::And, left, right),
            ),
            Err(e) => Err(e),
        }
    } else {
        Ok((left, pos))
    }
}

#[verifier::opaque]
pub open spec fn not_expr(g: Input, pos: int, depth: int) -> Parsed
    decreases g.len() - pos, 16int,
{
    if g.word(pos, "not"@) {
        if depth >= MAX_DEPTH {
            Err(too_deep(g, pos + 1))
        } else {
            match moved(g, pos + 1, not_expr(g, pos + 1, depth + 1)) {
                Ok((e, p)) => Ok(
                    (node(g, pos, p, KindModel::Unary(UnOp::Not, Box::new(e))), p),
                ),
                Err(e) => Err(e),
            }
        }
    } else {
        compare(g, pos, depth)
    }
}

/// The comparison that a token stands for.
pub open spec fn comparison(kind: Kind) -> Option<CmpOp> {
    match kind {
        Kind::Eq => Some(CmpOp::Eq),
        Kind::Ne => Some(CmpOp::Ne),
        Kind::Gt => Some(CmpOp::Gt),
        Kind::Gteq => Some(CmpOp::Gteq),
        Kind::Lt => Some(CmpOp::Lt),
        Kind::Lteq => Some(CmpOp::Lteq),
        _ => None,
    }
}

/// The comparison at `pos` and how many tokens it takes.
pub open spec fn comparison_at(g: Input, pos: int) -> Option<(CmpOp, int)> {
    if pos < 0 || pos >= g.len() {
        None
    } else if comparison(g.toks[pos].kind) is Some {
        Some((comparison(g.toks[pos].kind)->0, 1))
    } else if g.word(pos, "in"@) {
        Some((CmpOp::In, 1))
    } else if g.word(pos, "not"@) && g.word(pos + 1, "in"@) {
        Some((CmpOp::NotIn, 2))
    } else {
        None
    }
}

/// A chain of comparisons is one node with a list of operands.
#[verifier::opaque]
pub open spec fn compare(g: Input, pos: int, depth: int) -> Parsed
    decreases g.len() - pos, 15int,
{
    match moved(g, pos, math1(g, pos, depth)) {
        Ok((e, p)) => compare_rest(g, pos, p, depth, e, Seq::empty()),
        Err(e) => Err(e),
    }
}

#[verifier::opaque]
pub open spec fn compare_rest(
    g: Input,
    start: int,
    pos: int,
    depth: int,
    e: ExprModel,
    ops: Seq<(CmpOp, ExprModel)>,
) -> Parsed
    decreases g.len() - pos, 0int,
{
    match comparison_at(g, pos) {
        Some((op, n)) => match moved(g, pos + n, math1(g, pos + n, depth)) {
            Ok((right, p)) => compare_rest(g, start, p, depth, e, ops.push((op, right))),
            Err(e) => Err(e),
        },
        None => if ops.len() == 0 {
            Ok((e, pos))
        } else {
            Ok((node(g, start, pos, KindModel::Compare(Box::new(e), ops)), pos))
        },
    }
}

/// The sum or difference that a token stands for.
pub open spec fn additive(kind: Kind) -> Option<BinOp> {
    match kind {
        Kind::Add => Some(BinOp::Add),
        Kind::Sub => Some(BinOp::Sub),
        _ => None,
    }
}

#[verifier::opaque]
pub open spec fn math1(g: Input, pos: int, depth: int) -> Parsed
    decreases g.len() - pos, 14int,
{
    match moved(g, pos, concat(g, pos, depth)) {
        Ok((e, p)) => math1_rest(g, pos, p, depth, e),
        Err(e) => Err(e),
    }
}

#[verifier::opaque]
pub open spec fn math1_rest(g: Input, start: int, pos: int, depth: int, left: ExprModel) -> Parsed
    decreases g.len() - pos, 0int,
{
    if 0 <= pos < g.len() && additive(g.toks[pos].kind) is Some {
        match moved(g, pos + 1, concat(g, pos + 1, depth)) {
            Ok((right, p)) => math1_rest(
                g,
                start,
                p,
                depth,
                bin(g, start, p, additive(g.toks[pos].kind)->0, left, right),
            ),
            Err(e) => Err(e),
        }
    } else {
        Ok((left, pos))
    }
}

/// `'a' ~ b ~ 'c'` is one node of three.
#[verifier::opaque]
pub open spec fn concat(g: Input, pos: int, depth: int) -> Parsed
    decreases g.len() - pos, 13int,
{
    match moved(g, pos, math2(g, pos, depth)) {
        Ok((e, p)) => concat_rest(g, pos, p, depth, seq![e]),
        Err(e) => Err(e),
    }
}

#[verifier::opaque]
pub open spec fn concat_rest(
    g: Input,
    start: int,
    pos: int,
    depth: int,
    args: Seq<ExprModel>,
) -> Parsed
    decreases g.len() - pos, 0int,
{
    if g.is(pos, Kind::Tilde) {
        match moved(g, pos + 1, math2(g, pos + 1, depth)) {
            Ok((e, p)) => concat_rest(g, start, p, depth, args.push(e)),
            Err(e) => Err(e),
        }
    } else if args.len() == 1 {
        Ok((args[0], pos))
    } else {
        Ok((node(g, start, pos, KindModel::Concat(args)), pos))
    }
}

/// The product or quotient that a token stands for.
pub open spec fn multiplicative(kind: Kind) -> Option<BinOp> {
    match kind {
        Kind::Mul => Some(BinOp::Mul),
        Kind::Div => Some(BinOp::Div),
        Kind::FloorDiv => Some(BinOp::FloorDiv),
        Kind::Mod => Some(BinOp::Mod),
        _ => None,
    }
}

#[verifier::opaque]
pub open spec fn math2(g: Input, pos: int, depth: int) -> Parsed
    decreases g.len() - pos, 12int,
{
    match moved(g, pos, pow(g, pos, depth)) {
        Ok((e, p)) => math2_rest(g, pos, p, depth, e),
        Err(e) => Err(e),
    }
}

#[verifier::opaque]
pub open spec fn math2_rest(g: Input, start: int, pos: int, depth: int, left: ExprModel) -> Parsed
    decreases g.len() - pos, 0int,
{
    if 0 <= pos < g.len() && multiplicative(g.toks[pos].kind) is Some {
        match moved(g, pos + 1, pow(g, pos + 1, depth)) {
            Ok((right, p)) => math2_rest(
                g,
                start,
                p,
                depth,
                bin(g, start, p, multiplicative(g.toks[pos].kind)->0, left, right),
            ),
            Err(e) => Err(e),
        }
    } else {
        Ok((left, pos))
    }
}

/// Binds to the left: `2**3**2` is 64.
#[verifier::opaque]
pub open spec fn pow(g: Input, pos: int, depth: int) -> Parsed
    decreases g.len() - pos, 11int,
{
    match moved(g, pos, unary(g, pos, depth, true)) {
        Ok((e, p)) => pow_rest(g, pos, p, depth, e),
        Err(e) => Err(e),
    }
}

#[verifier::opaque]
pub open spec fn pow_rest(g: Input, start: int, pos: int, depth: int, left: ExprModel) -> Parsed
    decreases g.len() - pos, 0int,
{
    if g.is(pos, Kind::Pow) {
        match moved(g, pos + 1, unary(g, pos + 1, depth, true)) {
            Ok((right, p)) => pow_rest(
                g,
                start,
                p,
                depth,
                bin(g, start, p, BinOp::Pow, left, right),
            ),
            Err(e) => Err(e),
        }
    } else {
        Ok((left, pos))
    }
}

/// The sign that a token stands for.
pub open spec fn sign(kind: Kind) -> Option<UnOp> {
    match kind {
        Kind::Sub => Some(UnOp::Neg),
        Kind::Add => Some(UnOp::Pos),
        _ => None,
    }
}

/// A signed or plain operand with its accessors; with `filters`, its filters and tests too. In
/// `-x|f` the filter applies to the negation.
#[verifier::opaque]
pub open spec fn unary(g: Input, pos: int, depth: int, filters: bool) -> Parsed
    decreases g.len() - pos, 10int,
{
    match moved(g, pos, operand(g, pos, depth)) {
        Ok((e, p)) => match kept(g, p, postfix(g, pos, p, depth, e)) {
            Ok((e, q)) => if filters {
                filtered(g, pos, q, depth, e)
            } else {
                Ok((e, q))
            },
            Err(e) => Err(e),
        },
        Err(e) => Err(e),
    }
}

#[verifier::opaque]
pub open spec fn operand(g: Input, pos: int, depth: int) -> Parsed
    decreases g.len() - pos, 9int,
{
    if 0 <= pos < g.len() && sign(g.toks[pos].kind) is Some {
        if depth >= MAX_DEPTH {
            Err(too_deep(g, pos + 1))
        } else {
            match moved(g, pos + 1, unary(g, pos + 1, depth + 1, false)) {
                Ok((e, p)) => Ok(
                    (
                        node(
                            g,
                            pos,
                            p,
                            KindModel::Unary(sign(g.toks[pos].kind)->0, Box::new(e)),
                        ),
                        p,
                    ),
                ),
                Err(e) => Err(e),
            }
        }
    } else {
        primary(g, pos, depth)
    }
}

/// What a name stands for on its own.
pub open spec fn name_kind(name: Seq<char>) -> KindModel {
    if name == "true"@ || name == "True"@ {
        KindModel::Const(ConstModel::Bool(true))
    } else if name == "false"@ || name == "False"@ {
        KindModel::Const(ConstModel::Bool(false))
    } else if name == "none"@ || name == "None"@ {
        KindModel::Const(ConstModel::Null)
    } else {
        KindModel::Name(name)
    }
}

/// Adjacent strings are one constant.
#[verifier::opaque]
pub open spec fn strings(g: Input, pos: int, acc: Seq<char>) -> ParsedText
    decreases g.len() - pos, 0int,
{
    if g.is(pos, Kind::Str) {
        match lexer::string_at(g.src, g.toks[pos].span) {
            Ok(s) => strings(g, pos + 1, acc + s),
            Err(e) => Err(e),
        }
    } else {
        Ok((acc, pos))
    }
}

#[verifier::opaque]
pub open spec fn primary(g: Input, pos: int, depth: int) -> Parsed
    decreases g.len() - pos, 8int,
{
    if pos < 0 || pos >= g.len() {
        Err(stuck())
    } else {
        match g.toks[pos].kind {
            Kind::Name => Ok((node(g, pos, pos + 1, name_kind(g.text(pos))), pos + 1)),
            Kind::Str => match strings(g, pos, Seq::empty()) {
                Ok((s, p)) => Ok((node(g, pos, p, KindModel::Const(ConstModel::Str(s))), p)),
                Err(e) => Err(e),
            },
            Kind::Int => match lexer::int_at(g.src, g.toks[pos].span) {
                Ok(v) => Ok(
                    (
                        node(g, pos, pos + 1, KindModel::Const(ConstModel::Int(v as i64))),
                        pos + 1,
                    ),
                ),
                Err(e) => Err(e),
            },
            Kind::Float => Ok(
                (
                    node(
                        g,
                        pos,
                        pos + 1,
                        KindModel::Const(
                            ConstModel::Float(
                                lexer::no_underscores(g.text(pos), g.text(pos).len() as int),
                            ),
                        ),
                    ),
                    pos + 1,
                ),
            ),
            Kind::Lparen => match kept(
                g,
                pos + 1,
                tuple(g, pos + 1, pos + 1, depth, Seq::empty(), false),
            ) {
                Ok((e, p)) => if g.is(p, Kind::Rparen) {
                    Ok((ExprModel { kind: e.kind, span: span_from(g, pos, p + 1) }, p + 1))
                } else {
                    Err(expected(g, p, Kind::Rparen))
                },
                Err(e) => Err(e),
            },
            Kind::Lbracket => list(g, pos, pos + 1, depth, Seq::empty()),
            Kind::Lbrace => dict(g, pos, pos + 1, depth, Seq::empty()),
            kind => Err(fail(g, pos, "unexpected "@ + lexer::kind_name(kind))),
        }
    }
}

/// A parenthesised expression, or a tuple where a comma stands in it.
#[verifier::opaque]
pub open spec fn tuple(
    g: Input,
    start: int,
    pos: int,
    depth: int,
    args: Seq<ExprModel>,
    is_tuple: bool,
) -> Parsed
    decreases g.len() - pos, 21int,
{
    if pos < 0 || pos >= g.len() {
        Err(stuck())
    } else if g.is(pos, Kind::Rparen) || g.is(pos, Kind::Eof) {
        Ok((tuple_of(g, start, pos, args, is_tuple), pos))
    } else {
        match moved(g, pos, expression(g, pos, depth)) {
            Ok((e, p)) => if g.is(p, Kind::Comma) {
                tuple(g, start, p + 1, depth, args.push(e), true)
            } else {
                Ok((tuple_of(g, start, p, args.push(e), is_tuple), p))
            },
            Err(e) => Err(e),
        }
    }
}

pub open spec fn tuple_of(
    g: Input,
    start: int,
    pos: int,
    args: Seq<ExprModel>,
    is_tuple: bool,
) -> ExprModel {
    if !is_tuple && args.len() > 0 {
        args.last()
    } else {
        node(g, start, pos, KindModel::Tuple(args))
    }
}

/// The rest of a list. A trailing comma is allowed.
#[verifier::opaque]
pub open spec fn list(
    g: Input,
    start: int,
    pos: int,
    depth: int,
    items: Seq<ExprModel>,
) -> Parsed
    decreases g.len() - pos, 21int,
{
    if pos < 0 || pos >= g.len() {
        Err(stuck())
    } else if g.is(pos, Kind::Rbracket) {
        Ok((node(g, start, pos + 1, KindModel::List(items)), pos + 1))
    } else if items.len() > 0 && !g.is(pos, Kind::Comma) {
        Err(expected(g, pos, Kind::Comma))
    } else {
        let at = if items.len() > 0 {
            pos + 1
        } else {
            pos
        };
        if items.len() > 0 && g.is(at, Kind::Rbracket) {
            Ok((node(g, start, at + 1, KindModel::List(items)), at + 1))
        } else {
            match moved(g, at, expression(g, at, depth)) {
                Ok((e, p)) => list(g, start, p, depth, items.push(e)),
                Err(e) => Err(e),
            }
        }
    }
}

/// The rest of a dictionary. A trailing comma is allowed.
#[verifier::opaque]
pub open spec fn dict(
    g: Input,
    start: int,
    pos: int,
    depth: int,
    items: Seq<(ExprModel, ExprModel)>,
) -> Parsed
    decreases g.len() - pos, 21int,
{
    if pos < 0 || pos >= g.len() {
        Err(stuck())
    } else if g.is(pos, Kind::Rbrace) {
        Ok((node(g, start, pos + 1, KindModel::Dict(items)), pos + 1))
    } else if items.len() > 0 && !g.is(pos, Kind::Comma) {
        Err(expected(g, pos, Kind::Comma))
    } else {
        let at = if items.len() > 0 {
            pos + 1
        } else {
            pos
        };
        if items.len() > 0 && g.is(at, Kind::Rbrace) {
            Ok((node(g, start, at + 1, KindModel::Dict(items)), at + 1))
        } else {
            match moved(g, at, expression(g, at, depth)) {
                Ok((key, p)) => if g.is(p, Kind::Colon) {
                    match moved(g, p + 1, expression(g, p + 1, depth)) {
                        Ok((value, q)) => dict(g, start, q, depth, items.push((key, value))),
                        Err(e) => Err(e),
                    }
                } else {
                    Err(expected(g, p, Kind::Colon))
                },
                Err(e) => Err(e),
            }
        }
    }
}

/// Accessors and calls, not filters.
#[verifier::opaque]
pub open spec fn postfix(g: Input, start: int, pos: int, depth: int, e: ExprModel) -> Parsed
    decreases g.len() - pos, 8int,
{
    if g.is(pos, Kind::Dot) || g.is(pos, Kind::Lbracket) {
        match moved(g, pos, subscript(g, start, pos, depth, e)) {
            Ok((e, p)) => postfix(g, start, p, depth, e),
            Err(e) => Err(e),
        }
    } else if g.is(pos, Kind::Lparen) {
        match moved(g, pos, call(g, start, pos, depth, e)) {
            Ok((e, p)) => postfix(g, start, p, depth, e),
            Err(e) => Err(e),
        }
    } else {
        Ok((e, pos))
    }
}

/// Filters and tests, applied after all accessors have bound.
#[verifier::opaque]
pub open spec fn filtered(g: Input, start: int, pos: int, depth: int, e: ExprModel) -> Parsed
    decreases g.len() - pos, 8int,
{
    if g.is(pos, Kind::Pipe) {
        match moved(g, pos, filter(g, start, pos, depth, e)) {
            Ok((e, p)) => filtered(g, start, p, depth, e),
            Err(e) => Err(e),
        }
    } else if g.word(pos, "is"@) {
        match moved(g, pos, test(g, start, pos, depth, e)) {
            Ok((e, p)) => filtered(g, start, p, depth, e),
            Err(e) => Err(e),
        }
    } else if g.is(pos, Kind::Lparen) {
        match moved(g, pos, call(g, start, pos, depth, e)) {
            Ok((e, p)) => filtered(g, start, p, depth, e),
            Err(e) => Err(e),
        }
    } else {
        Ok((e, pos))
    }
}

/// `.name` is an attribute; `.0`, `['k']`, `[i]` and a slice are items.
#[verifier::opaque]
pub open spec fn subscript(g: Input, start: int, pos: int, depth: int, e: ExprModel) -> Parsed
    decreases g.len() - pos, 7int,
{
    if pos < 0 || pos + 1 >= g.len() {
        Err(stuck())
    } else if g.is(pos, Kind::Dot) {
        let attr = g.toks[pos + 1];
        match attr.kind {
            Kind::Name => Ok(
                (
                    node(g, start, pos + 2, KindModel::Getattr(Box::new(e), g.text(pos + 1))),
                    pos + 2,
                ),
            ),
            Kind::Int => match lexer::int_at(g.src, attr.span) {
                Ok(v) => {
                    let arg = ExprModel {
                        kind: KindModel::Const(ConstModel::Int(v as i64)),
                        span: attr.span,
                    };
                    Ok(
                        (
                            node(
                                g,
                                start,
                                pos + 2,
                                KindModel::Getitem(Box::new(e), Box::new(arg)),
                            ),
                            pos + 2,
                        ),
                    )
                },
                Err(e) => Err(e),
            },
            _ => Err(fail(g, pos + 1, "expected name or number"@)),
        }
    } else {
        subscripts(g, start, pos + 1, depth, e, Seq::empty())
    }
}

/// The rest of a subscript in brackets. Several parts become a tuple.
#[verifier::opaque]
pub open spec fn subscripts(
    g: Input,
    start: int,
    pos: int,
    depth: int,
    e: ExprModel,
    args: Seq<ExprModel>,
) -> Parsed
    decreases g.len() - pos, 23int,
{
    if pos < 0 || pos >= g.len() {
        Err(stuck())
    } else if g.is(pos, Kind::Rbracket) {
        let arg = if args.len() == 1 {
            args[0]
        } else {
            node(g, start, pos + 1, KindModel::Tuple(args))
        };
        Ok((node(g, start, pos + 1, KindModel::Getitem(Box::new(e), Box::new(arg))), pos + 1))
    } else if args.len() > 0 && !g.is(pos, Kind::Comma) {
        Err(expected(g, pos, Kind::Comma))
    } else {
        let at = if args.len() > 0 {
            pos + 1
        } else {
            pos
        };
        match moved(g, at, subscribed(g, at, depth)) {
            Ok((arg, p)) => subscripts(g, start, p, depth, e, args.push(arg)),
            Err(e) => Err(e),
        }
    }
}

/// Does a part of a slice end at `pos`?
pub open spec fn part_ends(g: Input, pos: int) -> bool {
    g.is(pos, Kind::Rbracket) || g.is(pos, Kind::Comma)
}

/// One subscript, which may be a slice.
#[verifier::opaque]
pub open spec fn subscribed(g: Input, pos: int, depth: int) -> Parsed
    decreases g.len() - pos, 22int,
{
    if g.is(pos, Kind::Colon) {
        slice_stop(g, pos, pos + 1, depth, None)
    } else {
        match moved(g, pos, expression(g, pos, depth)) {
            Ok((e, p)) => if g.is(p, Kind::Colon) {
                slice_stop(g, pos, p + 1, depth, Some(Box::new(e)))
            } else {
                Ok((e, p))
            },
            Err(e) => Err(e),
        }
    }
}

/// A slice from its second part on.
#[verifier::opaque]
pub open spec fn slice_stop(
    g: Input,
    start: int,
    pos: int,
    depth: int,
    first: Option<Box<ExprModel>>,
) -> Parsed
    decreases g.len() - pos, 22int,
{
    if g.is(pos, Kind::Colon) || part_ends(g, pos) {
        slice_step(g, start, pos, depth, first, None)
    } else {
        match moved(g, pos, expression(g, pos, depth)) {
            Ok((e, p)) => slice_step(g, start, p, depth, first, Some(Box::new(e))),
            Err(e) => Err(e),
        }
    }
}

/// A slice from its third part on.
#[verifier::opaque]
pub open spec fn slice_step(
    g: Input,
    start: int,
    pos: int,
    depth: int,
    first: Option<Box<ExprModel>>,
    stop: Option<Box<ExprModel>>,
) -> Parsed
    decreases g.len() - pos, 21int,
{
    if !g.is(pos, Kind::Colon) {
        Ok((node(g, start, pos, KindModel::Slice(first, stop, None)), pos))
    } else if part_ends(g, pos + 1) {
        Ok((node(g, start, pos + 1, KindModel::Slice(first, stop, None)), pos + 1))
    } else {
        match moved(g, pos + 1, expression(g, pos + 1, depth)) {
            Ok((e, p)) => Ok(
                (node(g, start, p, KindModel::Slice(first, stop, Some(Box::new(e)))), p),
            ),
            Err(e) => Err(e),
        }
    }
}

/// The arguments in parentheses that open at `pos`.
#[verifier::opaque]
pub open spec fn call_args(g: Input, pos: int, depth: int) -> ParsedArgs
    decreases g.len() - pos, 5int,
{
    if pos < 0 || pos >= g.len() {
        Err(stuck())
    } else {
        args_rest(g, pos + 1, depth, ast::no_args(), false)
    }
}

/// The rest of the arguments. A trailing comma is allowed.
#[verifier::opaque]
pub open spec fn args_rest(
    g: Input,
    pos: int,
    depth: int,
    out: ArgsModel,
    require_comma: bool,
) -> ParsedArgs
    decreases g.len() - pos, 23int,
{
    if pos < 0 || pos >= g.len() {
        Err(stuck())
    } else if g.is(pos, Kind::Rparen) {
        Ok((out, pos + 1))
    } else if !require_comma {
        one_arg(g, pos, depth, out)
    } else if !g.is(pos, Kind::Comma) {
        Err(expected(g, pos, Kind::Comma))
    } else if g.is(pos + 1, Kind::Rparen) {
        Ok((out, pos + 2))
    } else {
        one_arg(g, pos + 1, depth, out)
    }
}

/// One argument and what follows it: nothing positional behind `*` or a keyword, nothing behind
/// `**`, and each of the two only once.
#[verifier::opaque]
pub open spec fn one_arg(g: Input, pos: int, depth: int, out: ArgsModel) -> ParsedArgs
    decreases g.len() - pos, 22int,
{
    let bad = "invalid syntax for function call expression"@;
    if pos < 0 || pos >= g.len() {
        Err(stuck())
    } else if g.is(pos, Kind::Mul) {
        if out.dyn_args is Some || out.dyn_kwargs is Some {
            Err(fail(g, pos, bad))
        } else {
            match moved(g, pos + 1, expression(g, pos + 1, depth)) {
                Ok((e, p)) => args_rest(
                    g,
                    p,
                    depth,
                    ArgsModel { dyn_args: Some(Box::new(e)), ..out },
                    true,
                ),
                Err(e) => Err(e),
            }
        }
    } else if g.is(pos, Kind::Pow) {
        if out.dyn_kwargs is Some {
            Err(fail(g, pos, bad))
        } else {
            match moved(g, pos + 1, expression(g, pos + 1, depth)) {
                Ok((e, p)) => args_rest(
                    g,
                    p,
                    depth,
                    ArgsModel { dyn_kwargs: Some(Box::new(e)), ..out },
                    true,
                ),
                Err(e) => Err(e),
            }
        }
    } else if g.is(pos, Kind::Name) && g.is(pos + 1, Kind::Assign) {
        if out.dyn_kwargs is Some {
            Err(fail(g, pos, bad))
        } else {
            match moved(g, pos + 2, expression(g, pos + 2, depth)) {
                Ok((e, p)) => args_rest(
                    g,
                    p,
                    depth,
                    ArgsModel { kwargs: out.kwargs.push((g.text(pos), e)), ..out },
                    true,
                ),
                Err(e) => Err(e),
            }
        }
    } else if out.dyn_args is Some || out.dyn_kwargs is Some || out.kwargs.len() > 0 {
        Err(fail(g, pos, bad))
    } else {
        match moved(g, pos, expression(g, pos, depth)) {
            Ok((e, p)) => args_rest(
                g,
                p,
                depth,
                ArgsModel { args: out.args.push(e), ..out },
                true,
            ),
            Err(e) => Err(e),
        }
    }
}

#[verifier::opaque]
pub open spec fn call(g: Input, start: int, pos: int, depth: int, e: ExprModel) -> Parsed
    decreases g.len() - pos, 6int,
{
    match call_args(g, pos, depth) {
        Ok((args, p)) => Ok((node(g, start, p, KindModel::Call(Box::new(e), args)), p)),
        Err(e) => Err(e),
    }
}

/// A name with dots in it.
pub open spec fn dotted_name(g: Input, pos: int) -> ParsedText {
    if !g.is(pos, Kind::Name) {
        Err(expected(g, pos, Kind::Name))
    } else {
        dotted_rest(g, pos + 1, g.text(pos))
    }
}

#[verifier::opaque]
pub open spec fn dotted_rest(g: Input, pos: int, acc: Seq<char>) -> ParsedText
    decreases g.len() - pos,
{
    if !g.is(pos, Kind::Dot) {
        Ok((acc, pos))
    } else if pos + 1 < g.len() && g.is(pos + 1, Kind::Name) {
        dotted_rest(g, pos + 2, acc.push('.') + g.text(pos + 1))
    } else {
        Err(expected(g, pos + 1, Kind::Name))
    }
}

/// The arguments at `pos`, where parentheses open there.
#[verifier::opaque]
pub open spec fn optional_args(g: Input, pos: int, depth: int) -> ParsedArgs
    decreases g.len() - pos, 6int,
{
    if g.is(pos, Kind::Lparen) {
        call_args(g, pos, depth)
    } else {
        Ok((ast::no_args(), pos))
    }
}

/// One filter after the other, for as long as pipes follow.
#[verifier::opaque]
pub open spec fn filter(g: Input, start: int, pos: int, depth: int, e: ExprModel) -> Parsed
    decreases g.len() - pos, 7int,
{
    if g.is(pos, Kind::Pipe) {
        match moved_text(g, pos + 1, dotted_name(g, pos + 1)) {
            Ok((name, p)) => match moved_args(g, p - 1, optional_args(g, p, depth)) {
                Ok((args, q)) => filter(
                    g,
                    start,
                    q,
                    depth,
                    node(g, start, q, KindModel::Filter(Box::new(e), name, args)),
                ),
                Err(e) => Err(e),
            },
            Err(e) => Err(e),
        }
    } else {
        Ok((e, pos))
    }
}

/// Can the token at `pos` begin the argument of a test that has no parentheses?
pub open spec fn test_argument(g: Input, pos: int) -> bool {
    &&& 0 <= pos < g.len()
    &&& match g.toks[pos].kind {
        Kind::Name | Kind::Str | Kind::Int | Kind::Float | Kind::Lbracket | Kind::Lbrace => true,
        _ => false,
    }
    &&& !g.word(pos, "else"@)
    &&& !g.word(pos, "or"@)
    &&& !g.word(pos, "and"@)
}

/// The arguments of a test: in parentheses, or one operand with accessors but no filters.
#[verifier::opaque]
pub open spec fn test_args(g: Input, pos: int, depth: int) -> ParsedArgs
    decreases g.len() - pos, 9int,
{
    if g.is(pos, Kind::Lparen) {
        call_args(g, pos, depth)
    } else if test_argument(g, pos) {
        if g.word(pos, "is"@) {
            Err(fail(g, pos, "You cannot chain multiple tests with is"@))
        } else {
            match moved(g, pos, primary(g, pos, depth)) {
                Ok((e, p)) => match kept(g, p, postfix(g, pos, p, depth, e)) {
                    Ok((arg, q)) => Ok((ArgsModel { args: seq![arg], ..ast::no_args() }, q)),
                    Err(e) => Err(e),
                },
                Err(e) => Err(e),
            }
        }
    } else {
        Ok((ast::no_args(), pos))
    }
}

/// `is defined`, `is not defined`, `is divisibleby 3`.
#[verifier::opaque]
pub open spec fn test(g: Input, start: int, pos: int, depth: int, e: ExprModel) -> Parsed
    decreases g.len() - pos, 7int,
{
    let negated = g.word(pos + 1, "not"@);
    let at = if negated {
        pos + 2
    } else {
        pos + 1
    };
    if pos < 0 || at >= g.len() {
        Err(stuck())
    } else {
        match moved_text(g, at, dotted_name(g, at)) {
            Ok((name, p)) => match moved_args(g, p - 1, test_args(g, p, depth)) {
                Ok((args, q)) => {
                    let t = node(g, start, q, KindModel::Test(Box::new(e), name, args));
                    if negated {
                        Ok((node(g, start, q, KindModel::Unary(UnOp::Not, Box::new(t))), q))
                    } else {
                        Ok((t, q))
                    }
                },
                Err(e) => Err(e),
            },
            Err(e) => Err(e),
        }
    }
}

/// The one expression that a whole text is.
pub open spec fn parsed(src: Seq<char>) -> Result<ExprModel, ErrorModel> {
    match lexer::lexed(src) {
        Err(e) => Err(e),
        Ok(toks) => {
            let g = Input { src, toks };
            match expression(g, 0, 0) {
                Err(e) => Err(e),
                Ok((e, p)) => if g.is(p, Kind::Eof) {
                    Ok(e)
                } else {
                    Err(
                        ErrorModel {
                            msg: "chunk after expression"@,
                            span: toks[p].span,
                            cause: Cause::Trailing,
                        },
                    )
                },
            }
        },
    }
}

} // verus!
