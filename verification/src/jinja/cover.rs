//! The tree of a text covers the text: its root spans every token but the end.

use crate::jinja::ast::{BinOp, CmpOp, ExprModel, KindModel};
use crate::jinja::breadth;
use crate::jinja::grammar::{self, Input, Parsed};
use crate::jinja::lexer::{self, ErrorModel, Kind, Token};
use vstd::prelude::*;
use vstd::utf8::encode_utf8;

verus! {

/// Does a tree span the tokens from `start` to the position behind it?
spec fn covers(g: Input, start: int, r: Parsed) -> bool {
    match r {
        Ok((e, p)) => e.span == grammar::span_from(g, start, p),
        Err(_) => true,
    }
}

#[verifier::spinoff_prover]
proof fn list_covers(g: Input, start: int, pos: int, depth: int, items: Seq<ExprModel>)
    ensures
        covers(g, start, grammar::list(g, start, pos, depth, items)),
    decreases g.len() - pos,
{
    reveal(grammar::list);
    if 0 <= pos < g.len() {
        let at = if items.len() > 0 {
            pos + 1
        } else {
            pos
        };
        if let Ok((e, p)) = grammar::moved(g, at, grammar::expression(g, at, depth)) {
            list_covers(g, start, p, depth, items.push(e));
        }
    }
}

#[verifier::spinoff_prover]
proof fn dict_covers(g: Input, start: int, pos: int, depth: int, items: Seq<(ExprModel, ExprModel)>)
    ensures
        covers(g, start, grammar::dict(g, start, pos, depth, items)),
    decreases g.len() - pos,
{
    reveal(grammar::dict);
    if 0 <= pos < g.len() {
        let at = if items.len() > 0 {
            pos + 1
        } else {
            pos
        };
        if let Ok((key, p)) = grammar::moved(g, at, grammar::expression(g, at, depth)) {
            if let Ok((value, q)) = grammar::moved(
                g,
                p + 1,
                grammar::expression(g, p + 1, depth),
            ) {
                dict_covers(g, start, q, depth, items.push((key, value)));
            }
        }
    }
}

#[verifier::spinoff_prover]
proof fn subscripts_cover(
    g: Input,
    start: int,
    pos: int,
    depth: int,
    e: ExprModel,
    args: Seq<ExprModel>,
)
    ensures
        covers(g, start, grammar::subscripts(g, start, pos, depth, e, args)),
    decreases g.len() - pos,
{
    reveal(grammar::subscripts);
    if 0 <= pos < g.len() {
        let at = if args.len() > 0 {
            pos + 1
        } else {
            pos
        };
        if let Ok((arg, p)) = grammar::moved(g, at, grammar::subscribed(g, at, depth)) {
            subscripts_cover(g, start, p, depth, e, args.push(arg));
        }
    }
}

#[verifier::spinoff_prover]
proof fn accessor_covers(g: Input, start: int, pos: int, depth: int, e: ExprModel)
    ensures
        covers(g, start, grammar::subscript(g, start, pos, depth, e)),
        covers(g, start, grammar::call(g, start, pos, depth, e)),
        covers(g, start, grammar::test(g, start, pos, depth, e)),
{
    reveal(grammar::subscript);
    reveal(grammar::call);
    reveal(grammar::test);
    subscripts_cover(g, start, pos + 1, depth, e, Seq::empty());
}

#[verifier::spinoff_prover]
proof fn filter_covers(g: Input, start: int, pos: int, depth: int, e: ExprModel)
    requires
        e.span == grammar::span_from(g, start, pos),
    ensures
        covers(g, start, grammar::filter(g, start, pos, depth, e)),
    decreases g.len() - pos,
{
    reveal(grammar::filter);
    if g.is(pos, Kind::Pipe) {
        if let Ok((name, p)) = grammar::moved_text(g, pos + 1, grammar::dotted_name(g, pos + 1)) {
            if let Ok((args, q)) = grammar::moved_args(
                g,
                p - 1,
                grammar::optional_args(g, p, depth),
            ) {
                let kind = KindModel::Filter(Box::new(e), name, args);
                filter_covers(g, start, q, depth, grammar::node(g, start, q, kind));
            }
        }
    }
}

#[verifier::spinoff_prover]
proof fn postfix_covers(g: Input, start: int, pos: int, depth: int, e: ExprModel)
    requires
        e.span == grammar::span_from(g, start, pos),
    ensures
        covers(g, start, grammar::postfix(g, start, pos, depth, e)),
    decreases g.len() - pos,
{
    reveal(grammar::postfix);
    accessor_covers(g, start, pos, depth, e);
    if g.is(pos, Kind::Dot) || g.is(pos, Kind::Lbracket) {
        if let Ok((e, p)) = grammar::moved(g, pos, grammar::subscript(g, start, pos, depth, e)) {
            postfix_covers(g, start, p, depth, e);
        }
    } else if g.is(pos, Kind::Lparen) {
        if let Ok((e, p)) = grammar::moved(g, pos, grammar::call(g, start, pos, depth, e)) {
            postfix_covers(g, start, p, depth, e);
        }
    }
}

#[verifier::spinoff_prover]
proof fn filtered_covers(g: Input, start: int, pos: int, depth: int, e: ExprModel)
    requires
        e.span == grammar::span_from(g, start, pos),
    ensures
        covers(g, start, grammar::filtered(g, start, pos, depth, e)),
    decreases g.len() - pos,
{
    reveal(grammar::filtered);
    accessor_covers(g, start, pos, depth, e);
    filter_covers(g, start, pos, depth, e);
    if g.is(pos, Kind::Pipe) {
        if let Ok((e, p)) = grammar::moved(g, pos, grammar::filter(g, start, pos, depth, e)) {
            filtered_covers(g, start, p, depth, e);
        }
    } else if g.word(pos, "is"@) {
        if let Ok((e, p)) = grammar::moved(g, pos, grammar::test(g, start, pos, depth, e)) {
            filtered_covers(g, start, p, depth, e);
        }
    } else if g.is(pos, Kind::Lparen) {
        if let Ok((e, p)) = grammar::moved(g, pos, grammar::call(g, start, pos, depth, e)) {
            filtered_covers(g, start, p, depth, e);
        }
    }
}

#[verifier::spinoff_prover]
proof fn operand_covers(g: Input, pos: int, depth: int)
    ensures
        covers(g, pos, grammar::operand(g, pos, depth)),
{
    reveal(grammar::operand);
    reveal(grammar::primary);
    list_covers(g, pos, pos + 1, depth, Seq::empty());
    dict_covers(g, pos, pos + 1, depth, Seq::empty());
}

#[verifier::spinoff_prover]
proof fn unary_covers(g: Input, pos: int, depth: int)
    ensures
        covers(g, pos, grammar::unary(g, pos, depth, true)),
{
    reveal(grammar::unary);
    operand_covers(g, pos, depth);
    if let Ok((e, p)) = grammar::moved(g, pos, grammar::operand(g, pos, depth)) {
        postfix_covers(g, pos, p, depth, e);
        if let Ok((e, q)) = grammar::kept(g, p, grammar::postfix(g, pos, p, depth, e)) {
            filtered_covers(g, pos, q, depth, e);
        }
    }
}

#[verifier::spinoff_prover]
proof fn pow_rest_covers(g: Input, start: int, pos: int, depth: int, e: ExprModel)
    requires
        e.span == grammar::span_from(g, start, pos),
    ensures
        covers(g, start, grammar::pow_rest(g, start, pos, depth, e)),
    decreases g.len() - pos,
{
    reveal(grammar::pow_rest);
    if g.is(pos, Kind::Pow) {
        if let Ok((right, p)) = grammar::moved(
            g,
            pos + 1,
            grammar::unary(g, pos + 1, depth, true),
        ) {
            let both = grammar::bin(g, start, p, BinOp::Pow, e, right);
            pow_rest_covers(g, start, p, depth, both);
        }
    }
}

#[verifier::spinoff_prover]
proof fn math2_rest_covers(g: Input, start: int, pos: int, depth: int, e: ExprModel)
    requires
        e.span == grammar::span_from(g, start, pos),
    ensures
        covers(g, start, grammar::math2_rest(g, start, pos, depth, e)),
    decreases g.len() - pos,
{
    reveal(grammar::math2_rest);
    if 0 <= pos < g.len() && grammar::multiplicative(g.toks[pos].kind) is Some {
        if let Ok((right, p)) = grammar::moved(g, pos + 1, grammar::pow(g, pos + 1, depth)) {
            let op = grammar::multiplicative(g.toks[pos].kind)->0;
            math2_rest_covers(g, start, p, depth, grammar::bin(g, start, p, op, e, right));
        }
    }
}

#[verifier::spinoff_prover]
proof fn math2_covers(g: Input, pos: int, depth: int)
    ensures
        covers(g, pos, grammar::math2(g, pos, depth)),
{
    reveal(grammar::math2);
    reveal(grammar::pow);
    unary_covers(g, pos, depth);
    if let Ok((e, p)) = grammar::moved(g, pos, grammar::unary(g, pos, depth, true)) {
        pow_rest_covers(g, pos, p, depth, e);
    }
    if let Ok((e, p)) = grammar::moved(g, pos, grammar::pow(g, pos, depth)) {
        math2_rest_covers(g, pos, p, depth, e);
    }
}

#[verifier::spinoff_prover]
proof fn concat_rest_covers(g: Input, start: int, pos: int, depth: int, args: Seq<ExprModel>)
    requires
        args.len() == 1 ==> args[0].span == grammar::span_from(g, start, pos),
        args.len() > 0,
    ensures
        covers(g, start, grammar::concat_rest(g, start, pos, depth, args)),
    decreases g.len() - pos,
{
    reveal(grammar::concat_rest);
    if g.is(pos, Kind::Tilde) {
        if let Ok((e, p)) = grammar::moved(g, pos + 1, grammar::math2(g, pos + 1, depth)) {
            concat_rest_covers(g, start, p, depth, args.push(e));
        }
    }
}

#[verifier::spinoff_prover]
proof fn math1_rest_covers(g: Input, start: int, pos: int, depth: int, e: ExprModel)
    requires
        e.span == grammar::span_from(g, start, pos),
    ensures
        covers(g, start, grammar::math1_rest(g, start, pos, depth, e)),
    decreases g.len() - pos,
{
    reveal(grammar::math1_rest);
    if 0 <= pos < g.len() && grammar::additive(g.toks[pos].kind) is Some {
        if let Ok((right, p)) = grammar::moved(g, pos + 1, grammar::concat(g, pos + 1, depth)) {
            let op = grammar::additive(g.toks[pos].kind)->0;
            math1_rest_covers(g, start, p, depth, grammar::bin(g, start, p, op, e, right));
        }
    }
}

#[verifier::spinoff_prover]
proof fn math1_covers(g: Input, pos: int, depth: int)
    ensures
        covers(g, pos, grammar::math1(g, pos, depth)),
{
    reveal(grammar::math1);
    reveal(grammar::concat);
    math2_covers(g, pos, depth);
    if let Ok((e, p)) = grammar::moved(g, pos, grammar::math2(g, pos, depth)) {
        concat_rest_covers(g, pos, p, depth, seq![e]);
    }
    if let Ok((e, p)) = grammar::moved(g, pos, grammar::concat(g, pos, depth)) {
        math1_rest_covers(g, pos, p, depth, e);
    }
}

#[verifier::spinoff_prover]
proof fn compare_rest_covers(
    g: Input,
    start: int,
    pos: int,
    depth: int,
    e: ExprModel,
    ops: Seq<(CmpOp, ExprModel)>,
)
    requires
        ops.len() == 0 ==> e.span == grammar::span_from(g, start, pos),
    ensures
        covers(g, start, grammar::compare_rest(g, start, pos, depth, e, ops)),
    decreases g.len() - pos,
{
    reveal(grammar::compare_rest);
    if let Some((op, n)) = grammar::comparison_at(g, pos) {
        if let Ok((right, p)) = grammar::moved(g, pos + n, grammar::math1(g, pos + n, depth)) {
            compare_rest_covers(g, start, p, depth, e, ops.push((op, right)));
        }
    }
}

#[verifier::spinoff_prover]
proof fn compare_covers(g: Input, pos: int, depth: int)
    ensures
        covers(g, pos, grammar::compare(g, pos, depth)),
{
    reveal(grammar::compare);
    math1_covers(g, pos, depth);
    if let Ok((e, p)) = grammar::moved(g, pos, grammar::math1(g, pos, depth)) {
        compare_rest_covers(g, pos, p, depth, e, Seq::empty());
    }
}

#[verifier::spinoff_prover]
proof fn not_covers(g: Input, pos: int, depth: int)
    ensures
        covers(g, pos, grammar::not_expr(g, pos, depth)),
{
    reveal(grammar::not_expr);
    compare_covers(g, pos, depth);
}

#[verifier::spinoff_prover]
proof fn and_rest_covers(g: Input, start: int, pos: int, depth: int, e: ExprModel)
    requires
        e.span == grammar::span_from(g, start, pos),
    ensures
        covers(g, start, grammar::and_rest(g, start, pos, depth, e)),
    decreases g.len() - pos,
{
    reveal(grammar::and_rest);
    if g.word(pos, "and"@) {
        if let Ok((right, p)) = grammar::moved(g, pos + 1, grammar::not_expr(g, pos + 1, depth)) {
            let both = grammar::bin(g, start, p, BinOp::And, e, right);
            and_rest_covers(g, start, p, depth, both);
        }
    }
}

#[verifier::spinoff_prover]
proof fn or_rest_covers(g: Input, start: int, pos: int, depth: int, e: ExprModel)
    requires
        e.span == grammar::span_from(g, start, pos),
    ensures
        covers(g, start, grammar::or_rest(g, start, pos, depth, e)),
    decreases g.len() - pos,
{
    reveal(grammar::or_rest);
    if g.word(pos, "or"@) {
        if let Ok((right, p)) = grammar::moved(g, pos + 1, grammar::and_expr(g, pos + 1, depth)) {
            let both = grammar::bin(g, start, p, BinOp::Or, e, right);
            or_rest_covers(g, start, p, depth, both);
        }
    }
}

#[verifier::spinoff_prover]
proof fn or_covers(g: Input, pos: int, depth: int)
    ensures
        covers(g, pos, grammar::or_expr(g, pos, depth)),
{
    reveal(grammar::or_expr);
    reveal(grammar::and_expr);
    not_covers(g, pos, depth);
    if let Ok((e, p)) = grammar::moved(g, pos, grammar::not_expr(g, pos, depth)) {
        and_rest_covers(g, pos, p, depth, e);
    }
    if let Ok((e, p)) = grammar::moved(g, pos, grammar::and_expr(g, pos, depth)) {
        or_rest_covers(g, pos, p, depth, e);
    }
}

#[verifier::spinoff_prover]
proof fn cond_rest_covers(g: Input, start: int, pos: int, depth: int, e: ExprModel)
    requires
        e.span == grammar::span_from(g, start, pos),
    ensures
        covers(g, start, grammar::cond_rest(g, start, pos, depth, e)),
        grammar::cond_rest(g, start, pos, depth, e) is Ok ==> pos <= grammar::cond_rest(
            g,
            start,
            pos,
            depth,
            e,
        )->Ok_0.1,
    decreases g.len() - pos,
{
    reveal(grammar::cond_rest);
    if g.word(pos, "if"@) {
        if let Ok((test, p)) = grammar::moved(g, pos + 1, grammar::or_expr(g, pos + 1, depth)) {
            if g.word(p, "else"@) {
                if let Ok((alt, q)) = grammar::moved(
                    g,
                    p + 1,
                    grammar::condexpr(g, p + 1, depth),
                ) {
                    let kind = KindModel::CondExpr(
                        Box::new(test),
                        Box::new(e),
                        Some(Box::new(alt)),
                    );
                    cond_rest_covers(g, start, q, depth, grammar::node(g, start, q, kind));
                }
            } else {
                let kind = KindModel::CondExpr(
                    Box::new(test),
                    Box::new(e),
                    None,
                );
                cond_rest_covers(g, start, p, depth, grammar::node(g, start, p, kind));
            }
        }
    }
}

#[verifier::spinoff_prover]
proof fn condexpr_covers(g: Input, pos: int, depth: int)
    ensures
        match grammar::condexpr(g, pos, depth) {
            Ok((e, p)) => pos < p && e.span == grammar::span_from(g, pos, p),
            Err(_) => true,
        },
{
    reveal(grammar::condexpr);
    or_covers(g, pos, depth);
    if let Ok((e, p)) = grammar::moved(g, pos, grammar::or_expr(g, pos, depth)) {
        cond_rest_covers(g, pos, p, depth, e);
    }
}

/// An expression spans its tokens, from the first of them to the end of the last.
#[verifier::spinoff_prover]
pub proof fn an_expression_covers_its_tokens(g: Input, pos: int, depth: int)
    ensures
        match grammar::expression(g, pos, depth) {
            Ok((e, p)) => pos < p && e.span == grammar::span_from(g, pos, p),
            Err(_) => true,
        },
{
    reveal(grammar::expression);
    condexpr_covers(g, pos, depth + 1);
}

/// Only the last of the tokens is the end.
#[verifier::spinoff_prover]
pub proof fn one_end(b: Seq<u8>, i: int, acc: Seq<Token>)
    requires
        forall|k: int| 0 <= k < acc.len() ==> (#[trigger] acc[k]).kind != Kind::Eof,
    ensures
        match lexer::lex_from(b, i, acc) {
            Ok(toks) => forall|k: int|
                0 <= k < toks.len() - 1 ==> (#[trigger] toks[k]).kind != Kind::Eof,
            Err(_) => true,
        },
    decreases b.len() - i,
{
    if 0 <= i < b.len() {
        if lexer::blank(b[i]) {
            one_end(b, i + 1, acc);
        } else if let Some((kind, end)) = lexer::lexeme(b, i) {
            if i < end <= b.len() {
                one_end(b, end, acc.push(lexer::token(kind, i, end)));
            }
        }
    }
}

/// The tree of a text covers it: the root begins with the first token and ends with the last one
/// before the end.
#[verifier::spinoff_prover]
pub proof fn the_root_covers_the_text(src: Seq<char>, toks: Seq<Token>)
    requires
        lexer::lexed(src) == Ok::<Seq<Token>, ErrorModel>(toks),
        grammar::parsed(src) is Ok,
    ensures
        toks.len() >= 2,
        grammar::parsed(src)->Ok_0.span.start == toks[0].span.start,
        grammar::parsed(src)->Ok_0.span.end == toks[toks.len() - 2].span.end,
{
    let g = Input { src, toks };
    an_expression_covers_its_tokens(g, 0, 0);
    breadth::tokens_have_an_end(encode_utf8(src), 0, Seq::empty());
    one_end(encode_utf8(src), 0, Seq::empty());
}

} // verus!
