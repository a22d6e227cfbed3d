//! What the parser promises of whole expressions: one that nests too deeply is refused, not
//! followed, and nothing is left over behind one.

use crate::jinja::grammar::{self, Input, Parsed, MAX_DEPTH};
use crate::jinja::lexer::{self, Cause, ErrorModel, Kind, Token};
use vstd::prelude::*;

verus! {

/// Was it refused for its depth?
pub open spec fn too_deep(r: Parsed) -> bool {
    r is Err && r->Err_0.cause == Cause::Depth
}

/// Does a parenthesis, a bracket or a brace open at `pos`?
pub open spec fn bracket_at(g: Input, pos: int) -> bool {
    g.is(pos, Kind::Lparen) || g.is(pos, Kind::Lbracket) || g.is(pos, Kind::Lbrace)
}

pub open spec fn sign_at(g: Input, pos: int) -> bool {
    g.is(pos, Kind::Sub) || g.is(pos, Kind::Add)
}

/// Does another expression begin inside of one at `pos`? Behind a sign `not` is a name.
pub open spec fn nests_at(g: Input, pos: int) -> bool {
    bracket_at(g, pos) || g.word(pos, "not"@) || (sign_at(g, pos) && !g.word(pos + 1, "not"@))
}

/// Does something end at `pos`?
pub open spec fn closes_at(g: Input, pos: int) -> bool {
    g.is(pos, Kind::Rparen) || g.is(pos, Kind::Rbracket) || g.is(pos, Kind::Rbrace) || g.is(
        pos,
        Kind::Eof,
    )
}

/// `k` expressions begin inside of one another from `pos` on, and the innermost is not empty.
pub open spec fn nested(g: Input, pos: int, k: int) -> bool {
    &&& 0 <= k
    &&& 0 <= pos
    &&& pos + k < g.len()
    &&& forall|i: int| pos <= i < pos + k ==> #[trigger] nests_at(g, i)
    &&& !closes_at(g, pos + k)
}

proof fn inner_is_nested(g: Input, pos: int, k: int)
    requires
        nested(g, pos, k),
        k > 0,
    ensures
        nested(g, pos + 1, k - 1),
        nests_at(g, pos),
        !closes_at(g, pos + 1),
{
    if k > 1 {
        assert(nests_at(g, pos + 1));
    }
}

/// An expression in which more expressions nest than there is depth left for is refused for it.
#[verifier::spinoff_prover]
pub proof fn deep_expressions_are_refused(g: Input, pos: int, depth: int, k: int)
    requires
        nested(g, pos, k),
        depth + k >= MAX_DEPTH,
    ensures
        too_deep(grammar::expression(g, pos, depth)),
    decreases k, 2int,
{
    if depth < MAX_DEPTH {
        deep_negations(g, pos, depth + 1, k);
        assert(too_deep(grammar::and_expr(g, pos, depth + 1))) by {
            reveal(grammar::and_expr);
        }
        assert(too_deep(grammar::or_expr(g, pos, depth + 1))) by {
            reveal(grammar::or_expr);
        }
        assert(too_deep(grammar::condexpr(g, pos, depth + 1))) by {
            reveal(grammar::condexpr);
        }
    }
    assert(too_deep(grammar::expression(g, pos, depth))) by {
        reveal(grammar::expression);
    }
}

#[verifier::spinoff_prover]
proof fn deep_negations(g: Input, pos: int, depth: int, k: int)
    requires
        nested(g, pos, k),
        k > 0,
        depth + k > MAX_DEPTH,
    ensures
        too_deep(grammar::not_expr(g, pos, depth)),
    decreases k, 1int,
{
    inner_is_nested(g, pos, k);
    if g.word(pos, "not"@) {
        if depth < MAX_DEPTH {
            deep_negations(g, pos + 1, depth + 1, k - 1);
        }
    } else {
        deep_operands(g, pos, depth, k, true);
        assert(too_deep(grammar::pow(g, pos, depth))) by {
            reveal(grammar::pow);
        }
        assert(too_deep(grammar::math2(g, pos, depth))) by {
            reveal(grammar::math2);
        }
        assert(too_deep(grammar::concat(g, pos, depth))) by {
            reveal(grammar::concat);
        }
        assert(too_deep(grammar::math1(g, pos, depth))) by {
            reveal(grammar::math1);
        }
        assert(too_deep(grammar::compare(g, pos, depth))) by {
            reveal(grammar::compare);
        }
    }
    assert(too_deep(grammar::not_expr(g, pos, depth))) by {
        reveal(grammar::not_expr);
        reveal(grammar::compare);
    }
}

#[verifier::spinoff_prover]
proof fn deep_operands(g: Input, pos: int, depth: int, k: int, filters: bool)
    requires
        nested(g, pos, k),
        k > 0,
        depth + k > MAX_DEPTH,
        !g.word(pos, "not"@),
    ensures
        too_deep(grammar::unary(g, pos, depth, filters)),
    decreases k, 0int,
{
    inner_is_nested(g, pos, k);
    if sign_at(g, pos) {
        if depth < MAX_DEPTH {
            deep_operands(g, pos + 1, depth + 1, k - 1, false);
        }
    } else {
        deep_expressions_are_refused(g, pos + 1, depth, k - 1);
        if g.is(pos, Kind::Lparen) {
            assert(too_deep(grammar::tuple(g, pos + 1, pos + 1, depth, Seq::empty(), false))) by {
                reveal(grammar::tuple);
            }
        } else if g.is(pos, Kind::Lbracket) {
            assert(too_deep(grammar::list(g, pos, pos + 1, depth, Seq::empty()))) by {
                reveal(grammar::list);
            }
        } else {
            assert(too_deep(grammar::dict(g, pos, pos + 1, depth, Seq::empty()))) by {
                reveal(grammar::dict);
            }
        }
        assert(too_deep(grammar::primary(g, pos, depth))) by {
            reveal(grammar::primary);
        }
    }
    assert(too_deep(grammar::operand(g, pos, depth))) by {
        reveal(grammar::operand);
        reveal(grammar::unary);
        reveal(grammar::primary);
    }
    assert(too_deep(grammar::unary(g, pos, depth, filters))) by {
        reveal(grammar::unary);
        reveal(grammar::operand);
    }
}

/// A text that opens with more nested expressions than the limit is refused, whatever follows.
pub proof fn deep_nesting_is_refused(src: Seq<char>, toks: Seq<Token>, k: int)
    requires
        lexer::lexed(src) == Ok::<Seq<Token>, ErrorModel>(toks),
        k >= MAX_DEPTH,
        nested((Input { src, toks }), 0, k),
    ensures
        grammar::parsed(src) is Err,
        grammar::parsed(src)->Err_0.cause == Cause::Depth,
{
    deep_expressions_are_refused(Input { src, toks }, 0, 0, k);
}

/// Nothing is left over: where a text is an expression, the expression takes all of its tokens but
/// the end.
pub proof fn an_expression_takes_every_token(src: Seq<char>)
    requires
        grammar::parsed(src) is Ok,
    ensures
        lexer::lexed(src) is Ok,
        ({
            let g = Input { src, toks: lexer::lexed(src)->Ok_0 };
            &&& grammar::expression(g, 0, 0) is Ok
            &&& (grammar::expression(g, 0, 0)->Ok_0).0 == grammar::parsed(src)->Ok_0
            &&& g.is((grammar::expression(g, 0, 0)->Ok_0).1, Kind::Eof)
        }),
{
}

} // verus!
