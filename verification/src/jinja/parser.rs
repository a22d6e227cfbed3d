//! The parser of expressions: recursive descent, one method per level of precedence.
//!
//! [`parse`] takes a whole text and refuses anything left over; [`expression_at`] reads one
//! expression out of a longer token stream.

use crate::jinja::ast::{self, Args, BinOp, CmpOp, Const, Expr, ExprKind, UnOp};
use crate::jinja::grammar::{self, Input, Parsed, ParsedArgs, ParsedText, MAX_DEPTH};
use crate::jinja::lexer::{self, int_value, kind_text, string_value, Cause, Error, Kind, Token};
use crate::parse::Span;
use crate::text::str_eq;
use vstd::prelude::*;
use vstd::utf8::encode_utf8;

verus! {

/// Parse one Jinja expression. The whole input must be one expression.
pub fn parse(src: &str) -> (r: Result<Expr, Error>)
    ensures
        match r {
            Ok(e) => grammar::parsed(src@) == Ok::<ast::ExprModel, lexer::ErrorModel>(e.view()),
            Err(e) => grammar::parsed(src@) == Err::<ast::ExprModel, lexer::ErrorModel>(e.view()),
        },
{
    let toks = lexer::tokens(src)?;
    let n: usize = toks.len();
    let p = Parser { src, toks: &toks };
    let (expr, pos) = p.parse_expression(0, 0)?;
    if !matches!(p.kind(pos), Kind::Eof) {
        return Err(
            Error {
                msg: "chunk after expression".to_owned(),
                span: toks[pos].span,
                cause: Cause::Trailing,
            },
        );
    }
    Ok(expr)
}

/// One expression from an existing token stream, plus where it stopped.
pub fn expression_at(src: &str, toks: &[Token], pos: usize) -> (r: Result<(Expr, usize), Error>)
    requires
        lexer::tokens_ok(encode_utf8(src@), toks@),
        pos < toks@.len(),
    ensures
        agrees(
            r,
            grammar::expression(Input { src: src@, toks: toks@ }, pos as int, 0),
            pos as int,
            toks@.len() as int,
        ),
{
    let n: usize = toks.len();
    let p = Parser { src, toks };
    p.parse_expression(pos, 0)
}

/// Does a result say what the grammar says, and lie behind `low`, inside the stream?
pub open spec fn agrees(r: Result<(Expr, usize), Error>, m: Parsed, low: int, n: int) -> bool {
    match r {
        Ok((e, p)) => m is Ok && m->Ok_0 == (e.view(), p as int) && low < p < n,
        Err(e) => m is Err && m->Err_0 == e.view(),
    }
}

pub open spec fn args_agree(r: Result<(Args, usize), Error>, m: ParsedArgs, low: int, n: int) -> bool {
    match r {
        Ok((e, p)) => m is Ok && m->Ok_0 == (e.view(), p as int) && low < p < n,
        Err(e) => m is Err && m->Err_0 == e.view(),
    }
}

pub open spec fn text_agrees(
    r: Result<(String, usize), Error>,
    m: ParsedText,
    low: int,
    n: int,
) -> bool {
    match r {
        Ok((s, p)) => m is Ok && m->Ok_0 == (s@, p as int) && low < p < n,
        Err(e) => m is Err && m->Err_0 == e.view(),
    }
}

fn push_expr(v: &mut Vec<Expr>, e: Expr)
    ensures
        ast::expr_models(final(v)@) == ast::expr_models(old(v)@).push(e.view()),
{
    let ghost before = ast::expr_models(v@);
    v.push(e);
    assert(ast::expr_models(v@) =~= before.push(e.view()));
}

struct Parser<'a> {
    src: &'a str,
    toks: &'a [Token],
}

impl<'a> Parser<'a> {
    spec fn g(&self) -> Input {
        Input { src: self.src@, toks: self.toks@ }
    }

    spec fn n(&self) -> int {
        self.toks@.len() as int
    }

    spec fn ready(&self, pos: usize, depth: u32) -> bool {
        &&& lexer::tokens_ok(encode_utf8(self.src@), self.toks@)
        &&& pos < self.toks@.len()
        &&& depth <= MAX_DEPTH
        &&& self.toks@.len() <= usize::MAX
    }

    // ------------------------------------------------------------------ stream

    fn kind(&self, pos: usize) -> (r: Kind)
        requires
            self.ready(pos, 0),
        ensures
            r == self.toks@[pos as int].kind,
            r != Kind::Eof ==> pos + 1 < self.n(),
    {
        self.toks[pos].kind
    }

    /// A keyword is a name with a given spelling, never its own kind of token.
    fn at_keyword(&self, pos: usize, word: &str) -> (r: bool)
        requires
            self.ready(pos, 0),
        ensures
            r == self.g().word(pos as int, word@),
            r ==> pos + 1 < self.n(),
    {
        matches!(self.kind(pos), Kind::Name) && str_eq(self.toks[pos].span.slice(self.src), word)
    }

    fn text_at(&self, pos: usize) -> (r: &'a str)
        requires
            self.ready(pos, 0),
        ensures
            r@ == self.g().text(pos as int),
    {
        self.toks[pos].span.slice(self.src)
    }

    fn expected(&self, pos: usize, kind: Kind) -> (r: Error)
        requires
            self.ready(pos, 0),
        ensures
            r.view() == grammar::expected(self.g(), pos as int, kind),
    {
        let mut msg = "expected ".to_owned();
        msg.append(kind_text(kind));
        msg.append(", got ");
        msg.append(kind_text(self.kind(pos)));
        self.fail_here(pos, msg)
    }

    fn too_deep(&self, pos: usize) -> (r: Error)
        requires
            self.ready(pos, 0),
        ensures
            r.view() == grammar::too_deep(self.g(), pos as int),
    {
        Error {
            msg: "expression nests too deeply".to_owned(),
            span: self.toks[pos].span,
            cause: Cause::Depth,
        }
    }

    /// A refusal at the end of the input is told from a refusal of a token by where it stands.
    fn fail_here(&self, pos: usize, msg: String) -> (r: Error)
        requires
            self.ready(pos, 0),
        ensures
            r.view() == grammar::fail(self.g(), pos as int, msg@),
    {
        let cause = match self.kind(pos) {
            Kind::Eof => Cause::Eof,
            _ => Cause::Parse,
        };
        Error { msg, span: self.toks[pos].span, cause }
    }

    fn span_from(&self, start: usize, pos: usize) -> (r: Span)
        requires
            self.ready(start, 0),
            pos <= self.n(),
        ensures
            r == grammar::span_from(self.g(), start as int, pos as int),
    {
        let from = self.toks[start].span.start;
        let to = if pos > start {
            self.toks[pos - 1].span.end
        } else {
            self.toks[start].span.end
        };
        Span { start: from, end: to }
    }

    fn node(&self, start: usize, pos: usize, kind: ExprKind) -> (r: Expr)
        requires
            self.ready(start, 0),
            pos <= self.n(),
        ensures
            r.view() == grammar::node(self.g(), start as int, pos as int, kind.view()),
    {
        Expr { kind, span: self.span_from(start, pos) }
    }

    fn bin(&self, start: usize, pos: usize, op: BinOp, left: Expr, right: Expr) -> (r: Expr)
        requires
            self.ready(start, 0),
            pos <= self.n(),
        ensures
            r.view() == grammar::bin(
                self.g(),
                start as int,
                pos as int,
                op,
                left.view(),
                right.view(),
            ),
    {
        self.node(
            start,
            pos,
            ExprKind::Bin { op, left: Box::new(left), right: Box::new(right) },
        )
    }

    // -------------------------------------------------------------- precedence

    #[verifier::spinoff_prover]
    fn parse_expression(&self, pos: usize, depth: u32) -> (r: Result<(Expr, usize), Error>)
        requires
            self.ready(pos, depth),
        ensures
            agrees(
                r,
                grammar::expression(self.g(), pos as int, depth as int),
                pos as int,
                self.n(),
            ),
        decreases self.toks@.len() - pos, 20int,
    {
        proof {
            reveal(grammar::expression);
        }
        if depth >= MAX_DEPTH {
            return Err(self.too_deep(pos));
        }
        self.parse_condexpr(pos, depth + 1)
    }

    #[verifier::spinoff_prover]
    fn parse_condexpr(&self, pos: usize, depth: u32) -> (r: Result<(Expr, usize), Error>)
        requires
            self.ready(pos, depth),
        ensures
            agrees(
                r,
                grammar::condexpr(self.g(), pos as int, depth as int),
                pos as int,
                self.n(),
            ),
        decreases self.toks@.len() - pos, 19int,
    {
        proof {
            reveal(grammar::condexpr);
            reveal(grammar::cond_rest);
        }
        let (mut expr, mut p) = match self.parse_or(pos, depth) {
            Ok(x) => x,
            Err(e) => return Err(e),
        };
        while self.at_keyword(p, "if")
            invariant
                self.ready(pos, depth),
                pos < p < self.n(),
                grammar::condexpr(self.g(), pos as int, depth as int) == grammar::cond_rest(
                    self.g(),
                    pos as int,
                    p as int,
                    depth as int,
                    expr.view(),
                ),
            decreases self.n() - p,
        {
            proof {
                reveal(grammar::condexpr);
                reveal(grammar::cond_rest);
            }
            let (test, q) = match self.parse_or(p + 1, depth) {
                Ok(x) => x,
                Err(e) => return Err(e),
            };
            if self.at_keyword(q, "else") {
                let (alt, end) = match self.parse_condexpr(q + 1, depth) {
                    Ok(x) => x,
                    Err(e) => return Err(e),
                };
                expr = self.node(
                    pos,
                    end,
                    ExprKind::CondExpr {
                        test: Box::new(test),
                        value: Box::new(expr),
                        or_else: Some(Box::new(alt)),
                    },
                );
                p = end;
            } else {
                expr = self.node(
                    pos,
                    q,
                    ExprKind::CondExpr {
                        test: Box::new(test),
                        value: Box::new(expr),
                        or_else: None,
                    },
                );
                p = q;
            }
        }
        Ok((expr, p))
    }

    #[verifier::spinoff_prover]
    fn parse_or(&self, pos: usize, depth: u32) -> (r: Result<(Expr, usize), Error>)
        requires
            self.ready(pos, depth),
        ensures
            agrees(
                r,
                grammar::or_expr(self.g(), pos as int, depth as int),
                pos as int,
                self.n(),
            ),
        decreases self.toks@.len() - pos, 18int,
    {
        proof {
            reveal(grammar::or_expr);
            reveal(grammar::or_rest);
        }
        let (mut left, mut p) = match self.parse_and(pos, depth) {
            Ok(x) => x,
            Err(e) => return Err(e),
        };
        while self.at_keyword(p, "or")
            invariant
                self.ready(pos, depth),
                pos < p < self.n(),
                grammar::or_expr(self.g(), pos as int, depth as int) == grammar::or_rest(
                    self.g(),
                    pos as int,
                    p as int,
                    depth as int,
                    left.view(),
                ),
            decreases self.n() - p,
        {
            proof {
                reveal(grammar::or_expr);
                reveal(grammar::or_rest);
            }
            let (right, q) = match self.parse_and(p + 1, depth) {
                Ok(x) => x,
                Err(e) => return Err(e),
            };
            left = self.bin(pos, q, BinOp::Or, left, right);
            p = q;
        }
        Ok((left, p))
    }

    #[verifier::spinoff_prover]
    fn parse_and(&self, pos: usize, depth: u32) -> (r: Result<(Expr, usize), Error>)
        requires
            self.ready(pos, depth),
        ensures
            agrees(
                r,
                grammar::and_expr(self.g(), pos as int, depth as int),
                pos as int,
                self.n(),
            ),
        decreases self.toks@.len() - pos, 17int,
    {
        proof {
            reveal(grammar::and_expr);
            reveal(grammar::and_rest);
        }
        let (mut left, mut p) = match self.parse_not(pos, depth) {
            Ok(x) => x,
            Err(e) => return Err(e),
        };
        while self.at_keyword(p, "and")
            invariant
                self.ready(pos, depth),
                pos < p < self.n(),
                grammar::and_expr(self.g(), pos as int, depth as int) == grammar::and_rest(
                    self.g(),
                    pos as int,
                    p as int,
                    depth as int,
                    left.view(),
                ),
            decreases self.n() - p,
        {
            proof {
                reveal(grammar::and_expr);
                reveal(grammar::and_rest);
            }
            let (right, q) = match self.parse_not(p + 1, depth) {
                Ok(x) => x,
                Err(e) => return Err(e),
            };
            left = self.bin(pos, q, BinOp::And, left, right);
            p = q;
        }
        Ok((left, p))
    }

    #[verifier::spinoff_prover]
    fn parse_not(&self, pos: usize, depth: u32) -> (r: Result<(Expr, usize), Error>)
        requires
            self.ready(pos, depth),
        ensures
            agrees(
                r,
                grammar::not_expr(self.g(), pos as int, depth as int),
                pos as int,
                self.n(),
            ),
        decreases self.toks@.len() - pos, 16int,
    {
        proof {
            reveal(grammar::not_expr);
        }
        if self.at_keyword(pos, "not") {
            if depth >= MAX_DEPTH {
                return Err(self.too_deep(pos + 1));
            }
            let (node, p) = match self.parse_not(pos + 1, depth + 1) {
                Ok(x) => x,
                Err(e) => return Err(e),
            };
            return Ok(
                (self.node(pos, p, ExprKind::Unary { op: UnOp::Not, node: Box::new(node) }), p),
            );
        }
        self.parse_compare(pos, depth)
    }

    /// The comparison at `pos` and how many tokens it takes.
    fn comparison_at(&self, pos: usize) -> (r: Option<(CmpOp, usize)>)
        requires
            self.ready(pos, 0),
        ensures
            r is Some == grammar::comparison_at(self.g(), pos as int) is Some,
            r is Some ==> grammar::comparison_at(self.g(), pos as int) == Some(
                ((r->0).0, (r->0).1 as int),
            ) && 1 <= (r->0).1 <= 2 && pos + (r->0).1 < self.n(),
    {
        match self.kind(pos) {
            Kind::Eq => Some((CmpOp::Eq, 1)),
            Kind::Ne => Some((CmpOp::Ne, 1)),
            Kind::Gt => Some((CmpOp::Gt, 1)),
            Kind::Gteq => Some((CmpOp::Gteq, 1)),
            Kind::Lt => Some((CmpOp::Lt, 1)),
            Kind::Lteq => Some((CmpOp::Lteq, 1)),
            _ => {
                if self.at_keyword(pos, "in") {
                    Some((CmpOp::In, 1))
                } else if self.at_keyword(pos, "not") && self.at_keyword(pos + 1, "in") {
                    Some((CmpOp::NotIn, 2))
                } else {
                    None
                }
            },
        }
    }

    #[verifier::spinoff_prover]
    fn parse_compare(&self, pos: usize, depth: u32) -> (r: Result<(Expr, usize), Error>)
        requires
            self.ready(pos, depth),
        ensures
            agrees(
                r,
                grammar::compare(self.g(), pos as int, depth as int),
                pos as int,
                self.n(),
            ),
        decreases self.toks@.len() - pos, 15int,
    {
        proof {
            reveal(grammar::compare);
            reveal(grammar::compare_rest);
        }
        let (expr, first) = match self.parse_math1(pos, depth) {
            Ok(x) => x,
            Err(e) => return Err(e),
        };
        let mut p: usize = first;
        let mut ops: Vec<(CmpOp, Expr)> = Vec::new();
        assert(ast::operand_models(ops@) =~= Seq::empty());
        let mut next = self.comparison_at(p);
        while next.is_some()
            invariant
                self.ready(pos, depth),
                pos < p < self.n(),
                next is Some == grammar::comparison_at(self.g(), p as int) is Some,
                next is Some ==> grammar::comparison_at(self.g(), p as int) == Some(
                    ((next->0).0, (next->0).1 as int),
                ) && 1 <= (next->0).1 <= 2 && p + (next->0).1 < self.n(),
                grammar::compare(self.g(), pos as int, depth as int) == grammar::compare_rest(
                    self.g(),
                    pos as int,
                    p as int,
                    depth as int,
                    expr.view(),
                    ast::operand_models(ops@),
                ),
            decreases self.n() - p,
        {
            proof {
                reveal(grammar::compare);
                reveal(grammar::compare_rest);
            }
            let (op, width) = next.unwrap();
            let (right, q) = match self.parse_math1(p + width, depth) {
                Ok(x) => x,
                Err(e) => return Err(e),
            };
            let ghost before = ast::operand_models(ops@);
            ops.push((op, right));
            assert(ast::operand_models(ops@) =~= before.push((op, right.view())));
            p = q;
            next = self.comparison_at(p);
        }
        if ops.len() == 0 {
            return Ok((expr, p));
        }
        Ok((self.node(pos, p, ExprKind::Compare { expr: Box::new(expr), ops }), p))
    }

    /// The sum or difference at `pos`.
    fn additive_at(&self, pos: usize) -> (r: Option<BinOp>)
        requires
            self.ready(pos, 0),
        ensures
            r == grammar::additive(self.toks@[pos as int].kind),
            r is Some ==> pos + 1 < self.n(),
    {
        match self.kind(pos) {
            Kind::Add => Some(BinOp::Add),
            Kind::Sub => Some(BinOp::Sub),
            _ => None,
        }
    }

    #[verifier::spinoff_prover]
    fn parse_math1(&self, pos: usize, depth: u32) -> (r: Result<(Expr, usize), Error>)
        requires
            self.ready(pos, depth),
        ensures
            agrees(
                r,
                grammar::math1(self.g(), pos as int, depth as int),
                pos as int,
                self.n(),
            ),
        decreases self.toks@.len() - pos, 14int,
    {
        proof {
            reveal(grammar::math1);
            reveal(grammar::math1_rest);
        }
        let (mut left, mut p) = match self.parse_concat(pos, depth) {
            Ok(x) => x,
            Err(e) => return Err(e),
        };
        let mut next = self.additive_at(p);
        while next.is_some()
            invariant
                self.ready(pos, depth),
                pos < p < self.n(),
                next == grammar::additive(self.toks@[p as int].kind),
                next is Some ==> p + 1 < self.n(),
                grammar::math1(self.g(), pos as int, depth as int) == grammar::math1_rest(
                    self.g(),
                    pos as int,
                    p as int,
                    depth as int,
                    left.view(),
                ),
            decreases self.n() - p,
        {
            proof {
                reveal(grammar::math1);
                reveal(grammar::math1_rest);
            }
            let (right, q) = match self.parse_concat(p + 1, depth) {
                Ok(x) => x,
                Err(e) => return Err(e),
            };
            left = self.bin(pos, q, next.unwrap(), left, right);
            p = q;
            next = self.additive_at(p);
        }
        Ok((left, p))
    }

    #[verifier::spinoff_prover]
    fn parse_concat(&self, pos: usize, depth: u32) -> (r: Result<(Expr, usize), Error>)
        requires
            self.ready(pos, depth),
        ensures
            agrees(
                r,
                grammar::concat(self.g(), pos as int, depth as int),
                pos as int,
                self.n(),
            ),
        decreases self.toks@.len() - pos, 13int,
    {
        proof {
            reveal(grammar::concat);
            reveal(grammar::concat_rest);
        }
        let (first, mut p) = match self.parse_math2(pos, depth) {
            Ok(x) => x,
            Err(e) => return Err(e),
        };
        let mut args: Vec<Expr> = Vec::new();
        push_expr(&mut args, first);
        assert(ast::expr_models(args@) =~= seq![first.view()]);
        while matches!(self.kind(p), Kind::Tilde)
            invariant
                self.ready(pos, depth),
                pos < p < self.n(),
                args@.len() >= 1,
                ast::expr_models(args@).len() == args@.len(),
                grammar::concat(self.g(), pos as int, depth as int) == grammar::concat_rest(
                    self.g(),
                    pos as int,
                    p as int,
                    depth as int,
                    ast::expr_models(args@),
                ),
            decreases self.n() - p,
        {
            proof {
                reveal(grammar::concat);
                reveal(grammar::concat_rest);
            }
            let (e, q) = match self.parse_math2(p + 1, depth) {
                Ok(x) => x,
                Err(e) => return Err(e),
            };
            push_expr(&mut args, e);
            p = q;
        }
        if args.len() == 1 {
            let ghost models = ast::expr_models(args@);
            assert(models[0] == args@[0].view());
            if let Some(only) = args.pop() {
                return Ok((only, p));
            }
        }
        Ok((self.node(pos, p, ExprKind::Concat(args)), p))
    }

    /// The product or quotient at `pos`.
    fn multiplicative_at(&self, pos: usize) -> (r: Option<BinOp>)
        requires
            self.ready(pos, 0),
        ensures
            r == grammar::multiplicative(self.toks@[pos as int].kind),
            r is Some ==> pos + 1 < self.n(),
    {
        match self.kind(pos) {
            Kind::Mul => Some(BinOp::Mul),
            Kind::Div => Some(BinOp::Div),
            Kind::FloorDiv => Some(BinOp::FloorDiv),
            Kind::Mod => Some(BinOp::Mod),
            _ => None,
        }
    }

    #[verifier::spinoff_prover]
    fn parse_math2(&self, pos: usize, depth: u32) -> (r: Result<(Expr, usize), Error>)
        requires
            self.ready(pos, depth),
        ensures
            agrees(
                r,
                grammar::math2(self.g(), pos as int, depth as int),
                pos as int,
                self.n(),
            ),
        decreases self.toks@.len() - pos, 12int,
    {
        proof {
            reveal(grammar::math2);
            reveal(grammar::math2_rest);
        }
        let (mut left, mut p) = match self.parse_pow(pos, depth) {
            Ok(x) => x,
            Err(e) => return Err(e),
        };
        let mut next = self.multiplicative_at(p);
        while next.is_some()
            invariant
                self.ready(pos, depth),
                pos < p < self.n(),
                next == grammar::multiplicative(self.toks@[p as int].kind),
                next is Some ==> p + 1 < self.n(),
                grammar::math2(self.g(), pos as int, depth as int) == grammar::math2_rest(
                    self.g(),
                    pos as int,
                    p as int,
                    depth as int,
                    left.view(),
                ),
            decreases self.n() - p,
        {
            proof {
                reveal(grammar::math2);
                reveal(grammar::math2_rest);
            }
            let (right, q) = match self.parse_pow(p + 1, depth) {
                Ok(x) => x,
                Err(e) => return Err(e),
            };
            left = self.bin(pos, q, next.unwrap(), left, right);
            p = q;
            next = self.multiplicative_at(p);
        }
        Ok((left, p))
    }

    #[verifier::spinoff_prover]
    fn parse_pow(&self, pos: usize, depth: u32) -> (r: Result<(Expr, usize), Error>)
        requires
            self.ready(pos, depth),
        ensures
            agrees(r, grammar::pow(self.g(), pos as int, depth as int), pos as int, self.n()),
        decreases self.toks@.len() - pos, 11int,
    {
        proof {
            reveal(grammar::pow);
            reveal(grammar::pow_rest);
        }
        let (mut left, mut p) = match self.parse_unary(pos, depth, true) {
            Ok(x) => x,
            Err(e) => return Err(e),
        };
        while matches!(self.kind(p), Kind::Pow)
            invariant
                self.ready(pos, depth),
                pos < p < self.n(),
                grammar::pow(self.g(), pos as int, depth as int) == grammar::pow_rest(
                    self.g(),
                    pos as int,
                    p as int,
                    depth as int,
                    left.view(),
                ),
            decreases self.n() - p,
        {
            proof {
                reveal(grammar::pow);
                reveal(grammar::pow_rest);
            }
            let (right, q) = match self.parse_unary(p + 1, depth, true) {
                Ok(x) => x,
                Err(e) => return Err(e),
            };
            left = self.bin(pos, q, BinOp::Pow, left, right);
            p = q;
        }
        Ok((left, p))
    }

    /// The bottom of the chain, and where accessors and filters attach.
    #[verifier::spinoff_prover]
    fn parse_unary(&self, pos: usize, depth: u32, with_filter: bool) -> (r: Result<
        (Expr, usize),
        Error,
    >)
        requires
            self.ready(pos, depth),
        ensures
            agrees(
                r,
                grammar::unary(self.g(), pos as int, depth as int, with_filter),
                pos as int,
                self.n(),
            ),
        decreases self.toks@.len() - pos, 10int,
    {
        proof {
            reveal(grammar::unary);
        }
        let (node, p) = match self.parse_operand(pos, depth) {
            Ok(x) => x,
            Err(e) => return Err(e),
        };
        let (node, q) = match self.parse_postfix(pos, p, depth, node) {
            Ok(x) => x,
            Err(e) => return Err(e),
        };
        if with_filter {
            self.parse_filter_expr(pos, q, depth, node)
        } else {
            Ok((node, q))
        }
    }

    #[verifier::spinoff_prover]
    fn parse_operand(&self, pos: usize, depth: u32) -> (r: Result<(Expr, usize), Error>)
        requires
            self.ready(pos, depth),
        ensures
            agrees(
                r,
                grammar::operand(self.g(), pos as int, depth as int),
                pos as int,
                self.n(),
            ),
        decreases self.toks@.len() - pos, 9int,
    {
        proof {
            reveal(grammar::operand);
        }
        let op = match self.kind(pos) {
            Kind::Sub => UnOp::Neg,
            Kind::Add => UnOp::Pos,
            _ => return self.parse_primary(pos, depth),
        };
        if depth >= MAX_DEPTH {
            return Err(self.too_deep(pos + 1));
        }
        let (node, p) = match self.parse_unary(pos + 1, depth + 1, false) {
            Ok(x) => x,
            Err(e) => return Err(e),
        };
        Ok((self.node(pos, p, ExprKind::Unary { op, node: Box::new(node) }), p))
    }

    /// Adjacent strings concatenate at parse time: `'a' 'b'` is one constant.
    #[verifier::spinoff_prover]
    fn parse_strings(&self, pos: usize) -> (r: Result<(String, usize), Error>)
        requires
            self.ready(pos, 0),
        ensures
            text_agrees(
                r,
                grammar::strings(self.g(), pos as int, Seq::empty()),
                pos - 1,
                self.n(),
            ),
            r is Ok && self.toks@[pos as int].kind == Kind::Str ==> pos < (r->Ok_0).1,
    {
        proof {
            reveal(grammar::strings);
        }
        let mut buf = String::new();
        let mut p: usize = pos;
        while matches!(self.kind(p), Kind::Str)
            invariant
                self.ready(pos, 0),
                pos <= p < self.n(),
                p == pos || self.toks@[pos as int].kind == Kind::Str,
                grammar::strings(self.g(), pos as int, Seq::empty()) == grammar::strings(
                    self.g(),
                    p as int,
                    buf@,
                ),
            decreases self.n() - p,
        {
            proof {
                reveal(grammar::strings);
            }
            assert(lexer::token_ok(encode_utf8(self.src@), self.toks@[p as int]));
            let s = match string_value(self.src, self.toks[p].span) {
                Ok(s) => s,
                Err(e) => return Err(e),
            };
            buf.append(s.as_str());
            p += 1;
        }
        Ok((buf, p))
    }

    #[verifier::spinoff_prover]
    fn parse_primary(&self, pos: usize, depth: u32) -> (r: Result<(Expr, usize), Error>)
        requires
            self.ready(pos, depth),
        ensures
            agrees(
                r,
                grammar::primary(self.g(), pos as int, depth as int),
                pos as int,
                self.n(),
            ),
        decreases self.toks@.len() - pos, 8int,
    {
        proof {
            reveal(grammar::primary);
        }
        match self.kind(pos) {
            Kind::Name => {
                let name = self.text_at(pos);
                let kind = if str_eq(name, "true") || str_eq(name, "True") {
                    ExprKind::Const(Const::Bool(true))
                } else if str_eq(name, "false") || str_eq(name, "False") {
                    ExprKind::Const(Const::Bool(false))
                } else if str_eq(name, "none") || str_eq(name, "None") {
                    ExprKind::Const(Const::Null)
                } else {
                    ExprKind::Name(name.to_owned())
                };
                Ok((self.node(pos, pos + 1, kind), pos + 1))
            },
            Kind::Str => {
                let (s, p) = match self.parse_strings(pos) {
                    Ok(x) => x,
                    Err(e) => return Err(e),
                };
                Ok((self.node(pos, p, ExprKind::Const(Const::Str(s))), p))
            },
            Kind::Int => {
                let v = match int_value(self.src, self.toks[pos].span) {
                    Ok(v) => v,
                    Err(e) => return Err(e),
                };
                Ok((self.node(pos, pos + 1, ExprKind::Const(Const::Int(v))), pos + 1))
            },
            Kind::Float => {
                let v = lexer::float_text(self.src, self.toks[pos].span);
                Ok((self.node(pos, pos + 1, ExprKind::Const(Const::Float(v))), pos + 1))
            },
            Kind::Lparen => {
                let (node, p) = match self.parse_tuple(pos + 1, depth) {
                    Ok(x) => x,
                    Err(e) => return Err(e),
                };
                if !matches!(self.kind(p), Kind::Rparen) {
                    return Err(self.expected(p, Kind::Rparen));
                }
                // The node covers the parentheses, which is what a reader expects the cursor to
                // select.
                Ok((Expr { kind: node.kind, span: self.span_from(pos, p + 1) }, p + 1))
            },
            Kind::Lbracket => self.parse_list(pos, depth),
            Kind::Lbrace => self.parse_dict(pos, depth),
            kind => {
                let mut msg = "unexpected ".to_owned();
                msg.append(kind_text(kind));
                Err(self.fail_here(pos, msg))
            },
        }
    }

    // -------------------------------------------------------------- containers

    /// A parenthesised expression, or a tuple where a comma stands in it. A bare `1, 2` is no
    /// expression.
    #[verifier::spinoff_prover]
    fn parse_tuple(&self, start: usize, depth: u32) -> (r: Result<(Expr, usize), Error>)
        requires
            self.ready(start, depth),
        ensures
            agrees(
                r,
                grammar::tuple(
                    self.g(),
                    start as int,
                    start as int,
                    depth as int,
                    Seq::empty(),
                    false,
                ),
                start - 1,
                self.n(),
            ),
        decreases self.toks@.len() - start, 21int,
    {
        proof {
            reveal(grammar::tuple);
        }
        let mut args: Vec<Expr> = Vec::new();
        let mut is_tuple = false;
        let mut p: usize = start;
        assert(ast::expr_models(args@) =~= Seq::empty());
        loop
            invariant_except_break
                self.ready(start, depth),
                start <= p < self.n(),
                !is_tuple ==> args@.len() == 0,
                grammar::tuple(
                    self.g(),
                    start as int,
                    start as int,
                    depth as int,
                    Seq::empty(),
                    false,
                ) == grammar::tuple(
                    self.g(),
                    start as int,
                    p as int,
                    depth as int,
                    ast::expr_models(args@),
                    is_tuple,
                ),
            invariant
                self.ready(start, depth),
                start <= p < self.n(),
            ensures
                !is_tuple ==> args@.len() <= 1,
                grammar::tuple(
                    self.g(),
                    start as int,
                    start as int,
                    depth as int,
                    Seq::empty(),
                    false,
                ) == Ok::<(ast::ExprModel, int), lexer::ErrorModel>(
                    (
                        grammar::tuple_of(
                            self.g(),
                            start as int,
                            p as int,
                            ast::expr_models(args@),
                            is_tuple,
                        ),
                        p as int,
                    ),
                ),
            decreases self.n() - p,
        {
            proof {
                reveal(grammar::tuple);
            }
            if matches!(self.kind(p), Kind::Rparen | Kind::Eof) {
                break ;
            }
            let (e, q) = match self.parse_expression(p, depth) {
                Ok(x) => x,
                Err(e) => return Err(e),
            };
            push_expr(&mut args, e);
            p = q;
            if !matches!(self.kind(p), Kind::Comma) {
                break ;
            }
            is_tuple = true;
            p += 1;
        }
        if !is_tuple {
            let ghost models = ast::expr_models(args@);
            if args.len() == 1 {
                assert(models.last() == args@[0].view());
            }
            if let Some(only) = args.pop() {
                return Ok((only, p));
            }
        }
        Ok((self.node(start, p, ExprKind::Tuple(args)), p))
    }

    #[verifier::spinoff_prover]
    fn parse_list(&self, start: usize, depth: u32) -> (r: Result<(Expr, usize), Error>)
        requires
            self.ready(start, depth),
            start + 1 < self.n(),
        ensures
            agrees(
                r,
                grammar::list(self.g(), start as int, start + 1, depth as int, Seq::empty()),
                start as int,
                self.n(),
            ),
        decreases self.toks@.len() - start, 0int,
    {
        proof {
            reveal(grammar::list);
        }
        let mut items: Vec<Expr> = Vec::new();
        let mut p: usize = start + 1;
        assert(ast::expr_models(items@) =~= Seq::empty());
        while !matches!(self.kind(p), Kind::Rbracket)
            invariant
                self.ready(start, depth),
                start < p < self.n(),
                ast::expr_models(items@).len() == items@.len(),
                grammar::list(self.g(), start as int, start + 1, depth as int, Seq::empty())
                    == grammar::list(
                    self.g(),
                    start as int,
                    p as int,
                    depth as int,
                    ast::expr_models(items@),
                ),
            decreases self.n() - p,
        {
            proof {
                reveal(grammar::list);
            }
            let mut at: usize = p;
            if items.len() > 0 {
                if !matches!(self.kind(p), Kind::Comma) {
                    return Err(self.expected(p, Kind::Comma));
                }
                at = p + 1;
                if matches!(self.kind(at), Kind::Rbracket) {
                    return Ok((self.node(start, at + 1, ExprKind::List(items)), at + 1));
                }
            }
            let (e, q) = match self.parse_expression(at, depth) {
                Ok(x) => x,
                Err(e) => return Err(e),
            };
            push_expr(&mut items, e);
            p = q;
        }
        Ok((self.node(start, p + 1, ExprKind::List(items)), p + 1))
    }

    #[verifier::spinoff_prover]
    fn parse_dict(&self, start: usize, depth: u32) -> (r: Result<(Expr, usize), Error>)
        requires
            self.ready(start, depth),
            start + 1 < self.n(),
        ensures
            agrees(
                r,
                grammar::dict(self.g(), start as int, start + 1, depth as int, Seq::empty()),
                start as int,
                self.n(),
            ),
        decreases self.toks@.len() - start, 0int,
    {
        proof {
            reveal(grammar::dict);
        }
        let mut items: Vec<(Expr, Expr)> = Vec::new();
        let mut p: usize = start + 1;
        assert(ast::pair_models(items@) =~= Seq::empty());
        while !matches!(self.kind(p), Kind::Rbrace)
            invariant
                self.ready(start, depth),
                start < p < self.n(),
                ast::pair_models(items@).len() == items@.len(),
                grammar::dict(self.g(), start as int, start + 1, depth as int, Seq::empty())
                    == grammar::dict(
                    self.g(),
                    start as int,
                    p as int,
                    depth as int,
                    ast::pair_models(items@),
                ),
            decreases self.n() - p,
        {
            proof {
                reveal(grammar::dict);
            }
            let mut at: usize = p;
            if items.len() > 0 {
                if !matches!(self.kind(p), Kind::Comma) {
                    return Err(self.expected(p, Kind::Comma));
                }
                at = p + 1;
                if matches!(self.kind(at), Kind::Rbrace) {
                    return Ok((self.node(start, at + 1, ExprKind::Dict(items)), at + 1));
                }
            }
            let (key, q) = match self.parse_expression(at, depth) {
                Ok(x) => x,
                Err(e) => return Err(e),
            };
            if !matches!(self.kind(q), Kind::Colon) {
                return Err(self.expected(q, Kind::Colon));
            }
            let (value, end) = match self.parse_expression(q + 1, depth) {
                Ok(x) => x,
                Err(e) => return Err(e),
            };
            let ghost before = ast::pair_models(items@);
            items.push((key, value));
            assert(ast::pair_models(items@) =~= before.push((key.view(), value.view())));
            p = end;
        }
        Ok((self.node(start, p + 1, ExprKind::Dict(items)), p + 1))
    }

    // ----------------------------------------------------------------- postfix

    /// Accessors and calls. Deliberately *not* filters.
    #[verifier::spinoff_prover]
    fn parse_postfix(&self, start: usize, pos: usize, depth: u32, node: Expr) -> (r: Result<
        (Expr, usize),
        Error,
    >)
        requires
            self.ready(pos, depth),
            start <= pos,
        ensures
            agrees(
                r,
                grammar::postfix(
                    self.g(),
                    start as int,
                    pos as int,
                    depth as int,
                    node.view(),
                ),
                pos - 1,
                self.n(),
            ),
        decreases self.toks@.len() - pos, 8int,
    {
        proof {
            reveal(grammar::postfix);
        }
        let ghost whole = grammar::postfix(
            self.g(),
            start as int,
            pos as int,
            depth as int,
            node.view(),
        );
        let mut cur = node;
        let mut p: usize = pos;
        let mut going = true;
        while going
            invariant
                self.ready(pos, depth),
                start <= pos <= p < self.n(),
                whole == grammar::postfix(
                    self.g(),
                    start as int,
                    pos as int,
                    depth as int,
                    node.view(),
                ),
                whole == if going {
                    grammar::postfix(
                        self.g(),
                        start as int,
                        p as int,
                        depth as int,
                        cur.view(),
                    )
                } else {
                    Ok((cur.view(), p as int))
                },
            decreases self.n() - p, (if going { 1int } else { 0int }),
        {
            proof {
                reveal(grammar::postfix);
            }
            match self.kind(p) {
                Kind::Dot | Kind::Lbracket => {
                    let (e, q) = match self.parse_subscript(start, p, depth, cur) {
                        Ok(x) => x,
                        Err(e) => return Err(e),
                    };
                    cur = e;
                    p = q;
                },
                Kind::Lparen => {
                    let (e, q) = match self.parse_call(start, p, depth, cur) {
                        Ok(x) => x,
                        Err(e) => return Err(e),
                    };
                    cur = e;
                    p = q;
                },
                _ => {
                    going = false;
                },
            }
        }
        Ok((cur, p))
    }

    /// Filters and tests, applied *after* all accessors have bound: `r.stdout | length` filters
    /// the accessor and not the root.
    #[verifier::spinoff_prover]
    fn parse_filter_expr(&self, start: usize, pos: usize, depth: u32, node: Expr) -> (r: Result<
        (Expr, usize),
        Error,
    >)
        requires
            self.ready(pos, depth),
            start <= pos,
        ensures
            agrees(
                r,
                grammar::filtered(
                    self.g(),
                    start as int,
                    pos as int,
                    depth as int,
                    node.view(),
                ),
                pos - 1,
                self.n(),
            ),
        decreases self.toks@.len() - pos, 8int,
    {
        proof {
            reveal(grammar::filtered);
        }
        let ghost whole = grammar::filtered(
            self.g(),
            start as int,
            pos as int,
            depth as int,
            node.view(),
        );
        let mut cur = node;
        let mut p: usize = pos;
        let mut going = true;
        while going
            invariant
                self.ready(pos, depth),
                start <= pos <= p < self.n(),
                whole == grammar::filtered(
                    self.g(),
                    start as int,
                    pos as int,
                    depth as int,
                    node.view(),
                ),
                whole == if going {
                    grammar::filtered(
                        self.g(),
                        start as int,
                        p as int,
                        depth as int,
                        cur.view(),
                    )
                } else {
                    Ok((cur.view(), p as int))
                },
            decreases self.n() - p, (if going { 1int } else { 0int }),
        {
            proof {
                reveal(grammar::filtered);
            }
            let kind = self.kind(p);
            if matches!(kind, Kind::Pipe) {
                let (e, q) = match self.parse_filter(start, p, depth, cur) {
                    Ok(x) => x,
                    Err(e) => return Err(e),
                };
                cur = e;
                p = q;
            } else if self.at_keyword(p, "is") {
                let (e, q) = match self.parse_test(start, p, depth, cur) {
                    Ok(x) => x,
                    Err(e) => return Err(e),
                };
                cur = e;
                p = q;
            } else if matches!(kind, Kind::Lparen) {
                let (e, q) = match self.parse_call(start, p, depth, cur) {
                    Ok(x) => x,
                    Err(e) => return Err(e),
                };
                cur = e;
                p = q;
            } else {
                going = false;
            }
        }
        Ok((cur, p))
    }

    /// `.name` is an attribute; everything else (`.0`, `['k']`, `[i]`, a slice) is an item whose
    /// argument is an expression.
    #[verifier::spinoff_prover]
    fn parse_subscript(&self, start: usize, pos: usize, depth: u32, node: Expr) -> (r: Result<
        (Expr, usize),
        Error,
    >)
        requires
            self.ready(pos, depth),
            start <= pos,
            self.toks@[pos as int].kind == Kind::Dot || self.toks@[pos as int].kind
                == Kind::Lbracket,
        ensures
            agrees(
                r,
                grammar::subscript(
                    self.g(),
                    start as int,
                    pos as int,
                    depth as int,
                    node.view(),
                ),
                pos as int,
                self.n(),
            ),
        decreases self.toks@.len() - pos, 7int,
    {
        proof {
            reveal(grammar::subscript);
        }
        if !matches!(self.kind(pos), Kind::Dot) {
            return self.parse_subscripts(start, pos, depth, node);
        }
        let attr = self.toks[pos + 1];
        match self.kind(pos + 1) {
            Kind::Name => {
                let name = self.text_at(pos + 1).to_owned();
                let kind = ExprKind::Getattr { node: Box::new(node), attr: name };
                Ok((self.node(start, pos + 2, kind), pos + 2))
            },
            Kind::Int => {
                let idx = match int_value(self.src, attr.span) {
                    Ok(v) => v,
                    Err(e) => return Err(e),
                };
                let arg = Expr { kind: ExprKind::Const(Const::Int(idx)), span: attr.span };
                assert(arg.view().kind == ast::KindModel::Const(ast::ConstModel::Int(idx)));
                let kind = ExprKind::Getitem { node: Box::new(node), arg: Box::new(arg) };
                Ok((self.node(start, pos + 2, kind), pos + 2))
            },
            _ => Err(self.fail_here(pos + 1, "expected name or number".to_owned())),
        }
    }

    /// The bracket that opens at `pos`. Several comma-separated subscripts become a tuple.
    #[verifier::spinoff_prover]
    fn parse_subscripts(&self, start: usize, pos: usize, depth: u32, node: Expr) -> (r: Result<
        (Expr, usize),
        Error,
    >)
        requires
            self.ready(pos, depth),
            start <= pos,
            pos + 1 < self.n(),
        ensures
            agrees(
                r,
                grammar::subscripts(
                    self.g(),
                    start as int,
                    pos + 1,
                    depth as int,
                    node.view(),
                    Seq::empty(),
                ),
                pos as int,
                self.n(),
            ),
        decreases self.toks@.len() - pos, 0int,
    {
        proof {
            reveal(grammar::subscripts);
        }
        let mut args: Vec<Expr> = Vec::new();
        let mut p: usize = pos + 1;
        assert(ast::expr_models(args@) =~= Seq::empty());
        while !matches!(self.kind(p), Kind::Rbracket)
            invariant
                self.ready(pos, depth),
                start <= pos < p < self.n(),
                ast::expr_models(args@).len() == args@.len(),
                grammar::subscripts(
                    self.g(),
                    start as int,
                    pos + 1,
                    depth as int,
                    node.view(),
                    Seq::empty(),
                ) == grammar::subscripts(
                    self.g(),
                    start as int,
                    p as int,
                    depth as int,
                    node.view(),
                    ast::expr_models(args@),
                ),
            decreases self.n() - p,
        {
            proof {
                reveal(grammar::subscripts);
            }
            let mut at: usize = p;
            if args.len() > 0 {
                if !matches!(self.kind(p), Kind::Comma) {
                    return Err(self.expected(p, Kind::Comma));
                }
                at = p + 1;
            }
            let (e, q) = match self.parse_subscribed(at, depth) {
                Ok(x) => x,
                Err(e) => return Err(e),
            };
            push_expr(&mut args, e);
            p = q;
        }
        let ghost models = ast::expr_models(args@);
        let arg = if args.len() == 1 {
            assert(models[0] == args@[0].view());
            match args.pop() {
                Some(only) => only,
                None => self.node(start, p + 1, ExprKind::Tuple(Vec::new())),
            }
        } else {
            self.node(start, p + 1, ExprKind::Tuple(args))
        };
        let kind = ExprKind::Getitem { node: Box::new(node), arg: Box::new(arg) };
        Ok((self.node(start, p + 1, kind), p + 1))
    }

    fn part_ends(&self, pos: usize) -> (r: bool)
        requires
            self.ready(pos, 0),
        ensures
            r == grammar::part_ends(self.g(), pos as int),
    {
        matches!(self.kind(pos), Kind::Rbracket | Kind::Comma)
    }

    /// One subscript, which may be a slice.
    #[verifier::spinoff_prover]
    fn parse_subscribed(&self, pos: usize, depth: u32) -> (r: Result<(Expr, usize), Error>)
        requires
            self.ready(pos, depth),
        ensures
            agrees(
                r,
                grammar::subscribed(self.g(), pos as int, depth as int),
                pos as int,
                self.n(),
            ),
        decreases self.toks@.len() - pos, 22int,
    {
        proof {
            reveal(grammar::subscribed);
            reveal(grammar::slice_stop);
            reveal(grammar::slice_step);
        }
        let mut start: Option<Box<Expr>> = None;
        let mut p: usize = pos;
        if matches!(self.kind(pos), Kind::Colon) {
            p = pos + 1;
        } else {
            let (node, q) = match self.parse_expression(pos, depth) {
                Ok(x) => x,
                Err(e) => return Err(e),
            };
            if !matches!(self.kind(q), Kind::Colon) {
                return Ok((node, q));
            }
            start = Some(Box::new(node));
            p = q + 1;
        }
        let ghost whole = grammar::slice_stop(
            self.g(),
            pos as int,
            p as int,
            depth as int,
            ast::optional_model(start),
        );
        assert(whole == grammar::subscribed(self.g(), pos as int, depth as int));

        let mut stop: Option<Box<Expr>> = None;
        if !matches!(self.kind(p), Kind::Colon) && !self.part_ends(p) {
            let (node, q) = match self.parse_expression(p, depth) {
                Ok(x) => x,
                Err(e) => return Err(e),
            };
            stop = Some(Box::new(node));
            p = q;
        }
        assert(whole == grammar::slice_step(
            self.g(),
            pos as int,
            p as int,
            depth as int,
            ast::optional_model(start),
            ast::optional_model(stop),
        ));

        let mut step: Option<Box<Expr>> = None;
        if matches!(self.kind(p), Kind::Colon) {
            p = p + 1;
            if !self.part_ends(p) {
                let (node, q) = match self.parse_expression(p, depth) {
                    Ok(x) => x,
                    Err(e) => return Err(e),
                };
                step = Some(Box::new(node));
                p = q;
            }
        }
        Ok((self.node(pos, p, ExprKind::Slice { start, stop, step }), p))
    }

    // -------------------------------------------------------- calls and filters

    /// The arguments in parentheses: no positional one behind `*` or a keyword, no `*` behind
    /// `**`.
    #[verifier::spinoff_prover]
    fn parse_call_args(&self, pos: usize, depth: u32) -> (r: Result<(Args, usize), Error>)
        requires
            self.ready(pos, depth),
            self.toks@[pos as int].kind == Kind::Lparen,
        ensures
            args_agree(
                r,
                grammar::call_args(self.g(), pos as int, depth as int),
                pos as int,
                self.n(),
            ),
        decreases self.toks@.len() - pos, 5int,
    {
        proof {
            reveal(grammar::call_args);
            reveal(grammar::args_rest);
        }
        let ghost whole = grammar::call_args(self.g(), pos as int, depth as int);
        let open = self.kind(pos);
        let mut args: Vec<Expr> = Vec::new();
        let mut kwargs: Vec<(String, Expr)> = Vec::new();
        let mut dyn_args: Option<Box<Expr>> = None;
        let mut dyn_kwargs: Option<Box<Expr>> = None;
        let mut require_comma = false;
        let mut p: usize = pos + 1;
        assert(ast::expr_models(args@) =~= Seq::empty());
        assert(ast::kwarg_models(kwargs@) =~= Seq::empty());
        while !matches!(self.kind(p), Kind::Rparen)
            invariant
                self.ready(pos, depth),
                pos < p < self.n(),
                ast::kwarg_models(kwargs@).len() == kwargs@.len(),
                whole == grammar::call_args(self.g(), pos as int, depth as int),
                whole == grammar::args_rest(
                    self.g(),
                    p as int,
                    depth as int,
                    args_model(args@, kwargs@, dyn_args, dyn_kwargs),
                    require_comma,
                ),
            decreases self.n() - p,
        {
            proof {
                reveal(grammar::call_args);
                reveal(grammar::args_rest);
            }
            let mut at: usize = p;
            if require_comma {
                if !matches!(self.kind(p), Kind::Comma) {
                    return Err(self.expected(p, Kind::Comma));
                }
                at = p + 1;
                if matches!(self.kind(at), Kind::Rparen) {
                    return Ok((Args { args, kwargs, dyn_args, dyn_kwargs }, at + 1));
                }
            }
            let ghost out = args_model(args@, kwargs@, dyn_args, dyn_kwargs);
            assert(whole == grammar::one_arg(self.g(), at as int, depth as int, out));
            assert(out.kwargs.len() == kwargs@.len());
            let one = self.parse_one_arg(
                at,
                depth,
                dyn_args.is_some(),
                dyn_kwargs.is_some(),
                kwargs.len() > 0,
            );
            assert(one_arg_agrees(one, self.g(), at as int, depth as int, out));
            match one {
                Ok((OneArg::Star(e), q)) => {
                    dyn_args = Some(Box::new(e));
                    p = q;
                },
                Ok((OneArg::DoubleStar(e), q)) => {
                    dyn_kwargs = Some(Box::new(e));
                    p = q;
                },
                Ok((OneArg::Keyword(key, e), q)) => {
                    let ghost before = ast::kwarg_models(kwargs@);
                    kwargs.push((key, e));
                    assert(ast::kwarg_models(kwargs@) =~= before.push((key@, e.view())));
                    p = q;
                },
                Ok((OneArg::Positional(e), q)) => {
                    push_expr(&mut args, e);
                    p = q;
                },
                Err(e) => return Err(e),
            }
            require_comma = true;
        }
        Ok((Args { args, kwargs, dyn_args, dyn_kwargs }, p + 1))
    }

    /// One argument, when `*`, `**` and keywords have been seen or not.
    #[verifier::spinoff_prover]
    fn parse_one_arg(
        &self,
        pos: usize,
        depth: u32,
        starred: bool,
        double_starred: bool,
        keyworded: bool,
    ) -> (r: Result<(OneArg, usize), Error>)
        requires
            self.ready(pos, depth),
        ensures
            forall|out: ast::ArgsModel|
                (out.dyn_args is Some == starred) && (out.dyn_kwargs is Some == double_starred) && (
                (out.kwargs.len() > 0) == keyworded) ==> #[trigger] one_arg_agrees(
                    r,
                    self.g(),
                    pos as int,
                    depth as int,
                    out,
                ),
        decreases self.toks@.len() - pos, 22int,
    {
        proof {
            reveal(grammar::one_arg);
        }
        let kind = self.kind(pos);
        if matches!(kind, Kind::Mul) {
            if starred || double_starred {
                return Err(self.bad_call(pos));
            }
            match self.parse_expression(pos + 1, depth) {
                Ok((e, q)) => Ok((OneArg::Star(e), q)),
                Err(e) => Err(e),
            }
        } else if matches!(kind, Kind::Pow) {
            if double_starred {
                return Err(self.bad_call(pos));
            }
            match self.parse_expression(pos + 1, depth) {
                Ok((e, q)) => Ok((OneArg::DoubleStar(e), q)),
                Err(e) => Err(e),
            }
        } else if matches!(kind, Kind::Name) && matches!(self.kind(pos + 1), Kind::Assign) {
            if double_starred {
                return Err(self.bad_call(pos));
            }
            let key = self.text_at(pos).to_owned();
            let second = self.kind(pos + 1);
            match self.parse_expression(pos + 2, depth) {
                Ok((e, q)) => Ok((OneArg::Keyword(key, e), q)),
                Err(e) => Err(e),
            }
        } else {
            if starred || double_starred || keyworded {
                return Err(self.bad_call(pos));
            }
            match self.parse_expression(pos, depth) {
                Ok((e, q)) => Ok((OneArg::Positional(e), q)),
                Err(e) => Err(e),
            }
        }
    }

    fn bad_call(&self, pos: usize) -> (r: Error)
        requires
            self.ready(pos, 0),
        ensures
            r.view() == grammar::fail(
                self.g(),
                pos as int,
                "invalid syntax for function call expression"@,
            ),
    {
        self.fail_here(pos, "invalid syntax for function call expression".to_owned())
    }

    #[verifier::spinoff_prover]
    fn parse_call(&self, start: usize, pos: usize, depth: u32, node: Expr) -> (r: Result<
        (Expr, usize),
        Error,
    >)
        requires
            self.ready(pos, depth),
            start <= pos,
            self.toks@[pos as int].kind == Kind::Lparen,
        ensures
            agrees(
                r,
                grammar::call(self.g(), start as int, pos as int, depth as int, node.view()),
                pos as int,
                self.n(),
            ),
        decreases self.toks@.len() - pos, 6int,
    {
        proof {
            reveal(grammar::call);
        }
        let (args, p) = match self.parse_call_args(pos, depth) {
            Ok(x) => x,
            Err(e) => return Err(e),
        };
        Ok((self.node(start, p, ExprKind::Call { node: Box::new(node), args }), p))
    }

    /// A name may be dotted: the dots are joined into it rather than parsed as accessors.
    #[verifier::spinoff_prover]
    fn parse_dotted_name(&self, pos: usize) -> (r: Result<(String, usize), Error>)
        requires
            self.ready(pos, 0),
        ensures
            text_agrees(r, grammar::dotted_name(self.g(), pos as int), pos as int, self.n()),
    {
        proof {
            reveal(grammar::dotted_rest);
        }
        if !matches!(self.kind(pos), Kind::Name) {
            return Err(self.expected(pos, Kind::Name));
        }
        let mut name = self.text_at(pos).to_owned();
        let mut p: usize = pos + 1;
        while matches!(self.kind(p), Kind::Dot)
            invariant
                self.ready(pos, 0),
                pos < p < self.n(),
                grammar::dotted_name(self.g(), pos as int) == grammar::dotted_rest(
                    self.g(),
                    p as int,
                    name@,
                ),
            decreases self.n() - p,
        {
            proof {
                reveal(grammar::dotted_rest);
            }
            if !matches!(self.kind(p + 1), Kind::Name) {
                return Err(self.expected(p + 1, Kind::Name));
            }
            name.push('.');
            name.append(self.text_at(p + 1));
            p += 2;
        }
        Ok((name, p))
    }

    #[verifier::spinoff_prover]
    fn parse_optional_args(&self, pos: usize, depth: u32) -> (r: Result<(Args, usize), Error>)
        requires
            self.ready(pos, depth),
        ensures
            args_agree(
                r,
                grammar::optional_args(self.g(), pos as int, depth as int),
                pos - 1,
                self.n(),
            ),
        decreases self.toks@.len() - pos, 6int,
    {
        proof {
            reveal(grammar::optional_args);
        }
        if matches!(self.kind(pos), Kind::Lparen) {
            self.parse_call_args(pos, depth)
        } else {
            Ok((Args::new(), pos))
        }
    }

    #[verifier::spinoff_prover]
    fn parse_filter(&self, start: usize, pos: usize, depth: u32, node: Expr) -> (r: Result<
        (Expr, usize),
        Error,
    >)
        requires
            self.ready(pos, depth),
            start <= pos,
            self.toks@[pos as int].kind == Kind::Pipe,
        ensures
            agrees(
                r,
                grammar::filter(self.g(), start as int, pos as int, depth as int, node.view()),
                pos as int,
                self.n(),
            ),
        decreases self.toks@.len() - pos, 7int,
    {
        proof {
            reveal(grammar::filter);
        }
        let ghost whole = grammar::filter(
            self.g(),
            start as int,
            pos as int,
            depth as int,
            node.view(),
        );
        let mut cur = node;
        let mut p: usize = pos;
        while matches!(self.kind(p), Kind::Pipe)
            invariant
                self.ready(pos, depth),
                start <= pos <= p < self.n(),
                self.toks@[pos as int].kind == Kind::Pipe,
                whole == grammar::filter(
                    self.g(),
                    start as int,
                    pos as int,
                    depth as int,
                    node.view(),
                ),
                whole == grammar::filter(
                    self.g(),
                    start as int,
                    p as int,
                    depth as int,
                    cur.view(),
                ),
            decreases self.n() - p,
        {
            proof {
                reveal(grammar::filter);
            }
            let (name, q) = match self.parse_dotted_name(p + 1) {
                Ok(x) => x,
                Err(e) => return Err(e),
            };
            let (args, end) = match self.parse_optional_args(q, depth) {
                Ok(x) => x,
                Err(e) => return Err(e),
            };
            cur = self.node(start, end, ExprKind::Filter { node: Box::new(cur), name, args });
            p = end;
        }
        Ok((cur, p))
    }

    /// The arguments of a test: in parentheses, or one operand with accessors but no filters.
    #[verifier::spinoff_prover]
    fn parse_test_args(&self, pos: usize, depth: u32) -> (r: Result<(Args, usize), Error>)
        requires
            self.ready(pos, depth),
        ensures
            args_agree(
                r,
                grammar::test_args(self.g(), pos as int, depth as int),
                pos - 1,
                self.n(),
            ),
        decreases self.toks@.len() - pos, 9int,
    {
        proof {
            reveal(grammar::test_args);
        }
        if matches!(self.kind(pos), Kind::Lparen) {
            return self.parse_call_args(pos, depth);
        }
        if matches!(
            self.kind(pos),
            Kind::Name | Kind::Str | Kind::Int | Kind::Float | Kind::Lbracket | Kind::Lbrace
        ) && !self.at_keyword(pos, "else") && !self.at_keyword(pos, "or") && !self.at_keyword(
            pos,
            "and",
        ) {
            if self.at_keyword(pos, "is") {
                return Err(
                    self.fail_here(pos, "You cannot chain multiple tests with is".to_owned()),
                );
            }
            let (operand, p) = match self.parse_primary(pos, depth) {
                Ok(x) => x,
                Err(e) => return Err(e),
            };
            let (arg, q) = match self.parse_postfix(pos, p, depth, operand) {
                Ok(x) => x,
                Err(e) => return Err(e),
            };
            let mut only: Vec<Expr> = Vec::new();
            push_expr(&mut only, arg);
            let args = Args { args: only, kwargs: Vec::new(), dyn_args: None, dyn_kwargs: None };
            assert(args.view().args =~= seq![arg.view()]);
            assert(args.view().kwargs =~= Seq::empty());
            return Ok((args, q));
        }
        Ok((Args::new(), pos))
    }

    /// A negated test is a test wrapped in a `not`.
    #[verifier::spinoff_prover]
    fn parse_test(&self, start: usize, pos: usize, depth: u32, node: Expr) -> (r: Result<
        (Expr, usize),
        Error,
    >)
        requires
            self.ready(pos, depth),
            start <= pos,
            pos + 1 < self.n(),
        ensures
            agrees(
                r,
                grammar::test(self.g(), start as int, pos as int, depth as int, node.view()),
                pos as int,
                self.n(),
            ),
        decreases self.toks@.len() - pos, 7int,
    {
        proof {
            reveal(grammar::test);
        }
        let negated = self.at_keyword(pos + 1, "not");
        let at: usize = if negated {
            pos + 2
        } else {
            pos + 1
        };
        let (name, p) = match self.parse_dotted_name(at) {
            Ok(x) => x,
            Err(e) => return Err(e),
        };
        let (args, q) = match self.parse_test_args(p, depth) {
            Ok(x) => x,
            Err(e) => return Err(e),
        };
        let test = self.node(start, q, ExprKind::Test { node: Box::new(node), name, args });
        if negated {
            return Ok(
                (self.node(start, q, ExprKind::Unary { op: UnOp::Not, node: Box::new(test) }), q),
            );
        }
        Ok((test, q))
    }
}

/// One argument of a call.
enum OneArg {
    Positional(Expr),
    Keyword(String, Expr),
    Star(Expr),
    DoubleStar(Expr),
}

/// The arguments with one more.
spec fn with_arg(out: ast::ArgsModel, arg: OneArg) -> ast::ArgsModel {
    match arg {
        OneArg::Positional(e) => ast::ArgsModel { args: out.args.push(e.view()), ..out },
        OneArg::Keyword(k, e) => ast::ArgsModel { kwargs: out.kwargs.push((k@, e.view())), ..out },
        OneArg::Star(e) => ast::ArgsModel { dyn_args: Some(Box::new(e.view())), ..out },
        OneArg::DoubleStar(e) => ast::ArgsModel { dyn_kwargs: Some(Box::new(e.view())), ..out },
    }
}

/// Does one argument, behind those in `out`, agree with the grammar?
spec fn one_arg_agrees(
    r: Result<(OneArg, usize), Error>,
    g: Input,
    pos: int,
    depth: int,
    out: ast::ArgsModel,
) -> bool {
    let m = grammar::one_arg(g, pos, depth, out);
    match r {
        Ok((arg, p)) => pos < p < g.len() && m == grammar::args_rest(
            g,
            p as int,
            depth,
            with_arg(out, arg),
            true,
        ),
        Err(e) => m is Err && m->Err_0 == e.view(),
    }
}

/// The arguments that the four buckets hold.
spec fn args_model(
    args: Seq<Expr>,
    kwargs: Seq<(String, Expr)>,
    dyn_args: Option<Box<Expr>>,
    dyn_kwargs: Option<Box<Expr>>,
) -> ast::ArgsModel {
    ast::ArgsModel {
        args: ast::expr_models(args),
        kwargs: ast::kwarg_models(kwargs),
        dyn_args: ast::optional_model(dyn_args),
        dyn_kwargs: ast::optional_model(dyn_kwargs),
    }
}

} // verus!
