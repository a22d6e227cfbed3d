//! Breadth is not depth: what an expression is refused for is how deep it nests, not how long it
//! is.
//!
//! At a place of an expression there are open the brackets that are not closed yet, and the `not`s
//! and signs whose operand is not over yet. An expression in which there are never as many of them
//! as the limit is not refused for its depth.

use crate::jinja::ast::{self, ArgsModel, BinOp, CmpOp, ExprModel, KindModel};
use crate::jinja::grammar::{self, Input, Parsed, ParsedArgs, ParsedText, MAX_DEPTH};
use crate::jinja::lexer::{self, Cause, ErrorModel, Kind, Token};
use vstd::prelude::*;
use vstd::utf8::encode_utf8;

verus! {

/// How a token changes the number of open brackets.
pub open spec fn bracket(kind: Kind) -> int {
    match kind {
        Kind::Lparen | Kind::Lbracket | Kind::Lbrace => 1,
        Kind::Rparen | Kind::Rbracket | Kind::Rbrace => -1,
        _ => 0,
    }
}

/// How many brackets are open before the token at `pos`.
pub open spec fn opens(g: Input, pos: int) -> int
    decreases pos,
{
    if pos <= 0 || pos > g.len() {
        0
    } else {
        opens(g, pos - 1) + bracket(g.toks[pos - 1].kind)
    }
}

/// Does an operand begin behind a token of this kind?
pub open spec fn leads(kind: Kind) -> bool {
    match kind {
        Kind::Lparen | Kind::Lbracket | Kind::Lbrace => true,
        Kind::Comma | Kind::Colon | Kind::Assign => true,
        Kind::Add | Kind::Sub | Kind::Mul | Kind::Div | Kind::FloorDiv | Kind::Mod => true,
        Kind::Pow | Kind::Tilde | Kind::Eq | Kind::Ne => true,
        Kind::Gt | Kind::Gteq | Kind::Lt | Kind::Lteq => true,
        _ => false,
    }
}

/// Does an operand begin at `pos`?
pub open spec fn fresh(g: Input, pos: int) -> bool {
    ||| pos == 0
    ||| 0 < pos <= g.len() && leads(g.toks[pos - 1].kind)
    ||| g.word(pos - 1, "and"@) || g.word(pos - 1, "or"@) || g.word(pos - 1, "not"@)
    ||| g.word(pos - 1, "if"@) || g.word(pos - 1, "else"@) || g.word(pos - 1, "in"@)
}

pub open spec fn sign_at(g: Input, pos: int) -> bool {
    g.is(pos, Kind::Add) || g.is(pos, Kind::Sub)
}

/// Is the token at `i` a `not` or a sign before its operand?
pub open spec fn prefix(g: Input, i: int) -> bool {
    fresh(g, i) && (g.word(i, "not"@) || sign_at(g, i))
}

/// Is the token at `c` an `and`, an `or` or an `else` between operands?
pub open spec fn joins(g: Input, c: int) -> bool {
    &&& g.word(c, "and"@) || g.word(c, "or"@) || g.word(c, "else"@)
    &&& !fresh(g, c)
    &&& !g.word(c - 1, "is"@)
    &&& !g.is(c - 1, Kind::Pipe)
    &&& !g.is(c - 1, Kind::Dot)
}

/// Is the operand of a `not` over at the token at `c`, where the token is not in brackets?
pub open spec fn ends_not(g: Input, c: int) -> bool {
    joins(g, c) || g.is(c, Kind::Comma) || g.is(c, Kind::Colon) || g.is(c, Kind::Assign)
}

/// Is the operand of a sign over at the token at `c`, where the token is not in brackets?
pub open spec fn ends_sign(g: Input, c: int) -> bool {
    ||| ends_not(g, c)
    ||| sign_at(g, c) && !fresh(g, c)
    ||| g.is(c, Kind::Mul) || g.is(c, Kind::Div) || g.is(c, Kind::FloorDiv) || g.is(c, Kind::Mod)
    ||| g.is(c, Kind::Pow) || g.is(c, Kind::Tilde) || g.is(c, Kind::Eq) || g.is(c, Kind::Ne)
    ||| g.is(c, Kind::Gt) || g.is(c, Kind::Gteq) || g.is(c, Kind::Lt) || g.is(c, Kind::Lteq)
}

/// Is the operand of the `not` or sign at `i` not over before `pos`?
#[verifier::opaque]
pub open spec fn lasts(g: Input, i: int, pos: int) -> bool {
    &&& prefix(g, i)
    &&& i < pos
    &&& forall|c: int| i < c <= pos ==> #[trigger] opens(g, c) >= opens(g, i)
    &&& forall|c: int|
        i < c < pos && #[trigger] opens(g, c) == opens(g, i) ==> !ends_not(g, c) && (sign_at(
            g,
            i,
        ) ==> !ends_sign(g, c))
}

/// Which of them count: with 0 those outside the innermost bracket, with 1 the `not`s in it too,
/// with 2 all.
pub open spec fn counts(g: Input, i: int, pos: int, which: int) -> bool {
    lasts(g, i, pos) && (opens(g, i) < opens(g, pos) || which >= 2 || (which >= 1 && g.word(
        i,
        "not"@,
    )))
}

/// How many of the first `n` tokens count at `pos`.
pub open spec fn tally(g: Input, pos: int, n: int, which: int) -> int
    decreases n,
{
    if n <= 0 {
        0
    } else {
        tally(g, pos, n - 1, which) + if counts(g, n - 1, pos, which) {
            1int
        } else {
            0
        }
    }
}

/// How many brackets, `not`s and signs are open before the token at `pos`.
pub open spec fn nesting(g: Input, pos: int) -> int {
    opens(g, pos) + tally(g, pos, pos, 2)
}

/// Is the nesting below the limit everywhere?
pub open spec fn shallow(g: Input) -> bool {
    forall|pos: int| 0 <= pos <= g.len() ==> #[trigger] nesting(g, pos) < MAX_DEPTH
}

// ------------------------------------------------------------------ counting

proof fn tally_grows(g: Input, pos: int, p: int, n: int, m: int, which: int, other: int)
    requires
        n <= m,
        forall|i: int|
            0 <= i < n && #[trigger] counts(g, i, pos, which) ==> counts(g, i, p, other),
    ensures
        0 <= tally(g, pos, n, which) <= tally(g, p, m, other),
    decreases m,
{
    if n > 0 && n == m {
        tally_grows(g, pos, p, n - 1, m - 1, which, other);
        assert(counts(g, n - 1, pos, which) ==> counts(g, n - 1, p, other));
    } else if m > 0 && n < m {
        tally_grows(g, pos, p, n, m - 1, which, other);
    }
}

/// Do the tokens from `pos` to `p` keep the brackets that are open at `pos`, and, at their level,
/// end no `not` with 1 and no sign with 2?
#[verifier::opaque]
spec fn region(g: Input, pos: int, p: int, which: int) -> bool {
    &&& 0 <= pos <= p <= g.len()
    &&& forall|c: int| pos <= c < p ==> #[trigger] opens(g, c) >= opens(g, pos)
    &&& forall|c: int|
        pos <= c < p && #[trigger] opens(g, c) == opens(g, pos) ==> (which >= 1 ==> !ends_not(
            g,
            c,
        )) && (which >= 2 ==> !ends_sign(g, c))
}

proof fn region_weakens(g: Input, pos: int, p: int, which: int, other: int)
    requires
        region(g, pos, p, which),
        other <= which,
    ensures
        region(g, pos, p, other),
{
    reveal(region);
}

proof fn region_joins(g: Input, pos: int, m: int, p: int, which: int)
    requires
        region(g, pos, m, which),
        region(g, m, p, which),
        opens(g, m) == opens(g, pos),
    ensures
        region(g, pos, p, which),
{
    reveal(region);
    assert forall|c: int| pos <= c < p implies #[trigger] opens(g, c) >= opens(g, pos) by {
        if c < m {
        } else {
        }
    }
    assert forall|c: int| pos <= c < p && #[trigger] opens(g, c) == opens(g, pos) implies (which
        >= 1 ==> !ends_not(g, c)) && (which >= 2 ==> !ends_sign(g, c)) by {
        if c < m {
        } else {
        }
    }
}

/// What is open at `pos` is open behind a region too.
proof fn carry(g: Input, pos: int, p: int, which: int)
    requires
        region(g, pos, p, which),
        opens(g, p) == opens(g, pos),
    ensures
        tally(g, pos, pos, which) <= tally(g, p, p, which),
{
    reveal(region);
    assert forall|i: int| 0 <= i < pos && #[trigger] counts(g, i, pos, which) implies counts(
        g,
        i,
        p,
        which,
    ) by {
        reveal(lasts);
        assert(opens(g, pos) >= opens(g, i));
        assert forall|c: int| i < c <= p implies #[trigger] opens(g, c) >= opens(g, i) by {
            if c <= pos {
            } else if c < p {
                assert(opens(g, c) >= opens(g, pos));
            }
        }
        assert forall|c: int| i < c < p && #[trigger] opens(g, c) == opens(g, i) implies !ends_not(
            g,
            c,
        ) && (sign_at(g, i) ==> !ends_sign(g, c)) by {
            if c < pos {
            } else {
                assert(opens(g, c) >= opens(g, pos));
            }
        }
    }
    tally_grows(g, pos, p, pos, p, which, which);
}

/// What is open before a bracket is open, outside, behind it.
proof fn enter(g: Input, pos: int)
    requires
        0 <= pos < g.len(),
        bracket(g.toks[pos].kind) == 1,
    ensures
        opens(g, pos + 1) == opens(g, pos) + 1,
        tally(g, pos, pos, 2) <= tally(g, pos + 1, pos + 1, 0),
{
    assert forall|i: int| 0 <= i < pos && #[trigger] counts(g, i, pos, 2) implies counts(
        g,
        i,
        pos + 1,
        0,
    ) by {
        reveal(lasts);
        assert(opens(g, pos) >= opens(g, i));
        assert(!ends_sign(g, pos));
    }
    tally_grows(g, pos, pos + 1, pos, pos + 1, 2, 0);
}

/// A prefix is one more that is open behind it.
proof fn one_more(g: Input, pos: int, which: int)
    requires
        0 <= pos < g.len(),
        prefix(g, pos),
        which >= 2 || (which == 1 && g.word(pos, "not"@)),
    ensures
        opens(g, pos + 1) == opens(g, pos),
        region(g, pos, pos + 1, which),
        tally(g, pos, pos, which) + 1 <= tally(g, pos + 1, pos + 1, which),
{
    words_differ();
    reveal(region);
    assert forall|i: int| 0 <= i < pos && #[trigger] counts(g, i, pos, which) implies counts(
        g,
        i,
        pos + 1,
        which,
    ) by {
        reveal(lasts);
        assert(opens(g, pos) >= opens(g, i));
    }
    tally_grows(g, pos, pos + 1, pos, pos, which, which);
    assert(counts(g, pos, pos + 1, which)) by {
        reveal(lasts);
    }
}

/// The words of the grammar are different ones.
proof fn words_differ()
    ensures
        "not"@ != "and"@ && "not"@ != "or"@ && "not"@ != "else"@,
        "in"@ != "and"@ && "in"@ != "or"@ && "in"@ != "else"@,
        "is"@ != "and"@ && "is"@ != "or"@ && "is"@ != "else"@,
        "if"@ != "and"@ && "if"@ != "or"@ && "if"@ != "else"@,
{
    reveal_strlit("not");
    reveal_strlit("and");
    reveal_strlit("or");
    reveal_strlit("else");
    reveal_strlit("in");
    reveal_strlit("is");
    reveal_strlit("if");
    assert("not"@[0] == 'n');
    assert("and"@[0] == 'a');
    assert("or"@[0] == 'o');
    assert("else"@[0] == 'e');
    assert("in"@[0] == 'i');
    assert("is"@[0] == 'i');
    assert("if"@[0] == 'i');
}

// ------------------------------------------------------------------ the rules

/// Is the nesting below the limit, and is there an end to the tokens?
spec fn ready(g: Input) -> bool {
    shallow(g) && g.toks.len() > 0 && g.toks.last().kind == Kind::Eof
}

/// Is no more depth used at `pos` than is open there? An expression takes one more.
spec fn bound(g: Input, pos: int, depth: int, which: int) -> bool {
    depth <= 1 + opens(g, pos) + tally(g, pos, pos, which)
}

/// The same of a place where a whole expression begins.
spec fn within(g: Input, pos: int, depth: int) -> bool {
    depth <= opens(g, pos) + tally(g, pos, pos, 0)
}

/// A result that is no refusal for depth, and that takes a region.
spec fn flat(g: Input, pos: int, which: int, r: Parsed) -> bool {
    match r {
        Ok((_, p)) => opens(g, p) == opens(g, pos) && region(g, pos, p, which),
        Err(x) => x.cause != Cause::Depth,
    }
}

spec fn flat_args(g: Input, pos: int, which: int, r: ParsedArgs) -> bool {
    match r {
        Ok((_, p)) => opens(g, p) == opens(g, pos) && region(g, pos, p, which),
        Err(x) => x.cause != Cause::Depth,
    }
}

spec fn flat_text(g: Input, pos: int, which: int, r: ParsedText) -> bool {
    match r {
        Ok((_, p)) => opens(g, p) == opens(g, pos) && region(g, pos, p, which),
        Err(x) => x.cause != Cause::Depth,
    }
}

/// The same of a result that takes the bracket that closes what it stands in.
spec fn inner(g: Input, pos: int, r: Parsed) -> bool {
    match r {
        Ok((_, p)) => opens(g, p) == opens(g, pos) - 1 && region(g, pos, p, 0),
        Err(x) => x.cause != Cause::Depth,
    }
}

spec fn inner_args(g: Input, pos: int, r: ParsedArgs) -> bool {
    match r {
        Ok((_, p)) => opens(g, p) == opens(g, pos) - 1 && region(g, pos, p, 0),
        Err(x) => x.cause != Cause::Depth,
    }
}

proof fn bound_grows(g: Input, pos: int, depth: int, which: int, other: int)
    requires
        bound(g, pos, depth, which),
        which <= other,
    ensures
        bound(g, pos, depth, other),
{
    tally_grows(g, pos, pos, pos, pos, which, other);
}

/// Over one token that is no bracket.
proof fn over(g: Input, pos: int, which: int)
    requires
        0 <= pos < g.len(),
        bracket(g.toks[pos].kind) == 0,
        which >= 1 ==> !ends_not(g, pos),
        which >= 2 ==> !ends_sign(g, pos),
    ensures
        opens(g, pos + 1) == opens(g, pos),
        region(g, pos, pos + 1, which),
{
    reveal(region);
}

/// The bound holds behind a region.
proof fn go(g: Input, pos: int, p: int, depth: int, which: int)
    requires
        region(g, pos, p, which),
        opens(g, p) == opens(g, pos),
    ensures
        bound(g, pos, depth, which) ==> bound(g, p, depth, which),
        which == 0 && within(g, pos, depth) ==> within(g, p, depth),
{
    carry(g, pos, p, which);
}

/// No token, no change.
proof fn stay(g: Input, pos: int, which: int)
    requires
        0 <= pos <= g.len(),
    ensures
        region(g, pos, pos, which),
{
    reveal(region);
}

/// From a bracket to behind the one that closes it.
proof fn closed(g: Input, pos: int, p: int)
    requires
        0 <= pos < g.len(),
        bracket(g.toks[pos].kind) == 1,
        region(g, pos + 1, p, 0),
        opens(g, p) == opens(g, pos + 1) - 1,
    ensures
        opens(g, p) == opens(g, pos),
        region(g, pos, p, 2),
{
    reveal(region);
    assert(opens(g, pos + 1) == opens(g, pos) + 1);
    assert forall|c: int| pos <= c < p implies #[trigger] opens(g, c) >= opens(g, pos) by {
        if c > pos {
            assert(opens(g, c) >= opens(g, pos + 1));
        }
    }
    assert forall|c: int| pos <= c < p && #[trigger] opens(g, c) == opens(
        g,
        pos,
    ) implies !ends_not(g, c) && !ends_sign(g, c) by {
        if c > pos {
            assert(opens(g, c) >= opens(g, pos + 1));
        }
    }
}

/// Over the bracket that closes what `pos` stands in.
proof fn close(g: Input, pos: int, p: int)
    requires
        0 <= p < g.len(),
        bracket(g.toks[p].kind) == -1,
        region(g, pos, p, 0),
        opens(g, p) == opens(g, pos),
    ensures
        opens(g, p + 1) == opens(g, pos) - 1,
        region(g, pos, p + 1, 0),
{
    reveal(region);
}

#[verifier::spinoff_prover]
proof fn expression_flat(g: Input, pos: int, depth: int)
    requires
        ready(g),
        0 <= pos < g.len(),
        within(g, pos, depth),
        fresh(g, pos),
    ensures
        flat(g, pos, 0, grammar::expression(g, pos, depth)),
    decreases g.len() - pos, 20int,
{
    reveal(grammar::expression);
    tally_grows(g, pos, pos, pos, pos, 0, 2);
    assert(nesting(g, pos) < MAX_DEPTH);
    condexpr_flat(g, pos, depth + 1);
}

#[verifier::spinoff_prover]
proof fn condexpr_flat(g: Input, pos: int, depth: int)
    requires
        ready(g),
        0 <= pos < g.len(),
        bound(g, pos, depth, 0),
        fresh(g, pos),
    ensures
        flat(g, pos, 0, grammar::condexpr(g, pos, depth)),
    decreases g.len() - pos, 19int,
{
    reveal(grammar::condexpr);
    or_expr_flat(g, pos, depth);
    if let Ok((e, p)) = grammar::moved(g, pos, grammar::or_expr(g, pos, depth)) {
        go(g, pos, p, depth, 0);
        cond_rest_flat(g, pos, p, depth, e);
        if let Ok((_, q)) = grammar::cond_rest(g, pos, p, depth, e) {
            region_joins(g, pos, p, q, 0);
        }
    }
}

#[verifier::spinoff_prover]
proof fn cond_rest_flat(g: Input, start: int, pos: int, depth: int, e: ExprModel)
    requires
        ready(g),
        0 <= pos < g.len(),
        bound(g, pos, depth, 0),
    ensures
        flat(g, pos, 0, grammar::cond_rest(g, start, pos, depth, e)),
    decreases g.len() - pos, 0int,
{
    reveal(grammar::cond_rest);
    stay(g, pos, 0);
    if g.word(pos, "if"@) {
        over(g, pos, 0);
        go(g, pos, pos + 1, depth, 0);
        or_expr_flat(g, pos + 1, depth);
        if let Ok((test, p)) = grammar::moved(g, pos + 1, grammar::or_expr(g, pos + 1, depth)) {
            region_joins(g, pos, pos + 1, p, 0);
            go(g, pos, p, depth, 0);
            if g.word(p, "else"@) {
                over(g, p, 0);
                region_joins(g, pos, p, p + 1, 0);
                go(g, pos, p + 1, depth, 0);
                condexpr_flat(g, p + 1, depth);
                if let Ok((alt, q)) = grammar::moved(g, p + 1, grammar::condexpr(g, p + 1, depth)) {
                    region_joins(g, pos, p + 1, q, 0);
                    go(g, pos, q, depth, 0);
                    let kind = KindModel::CondExpr(Box::new(test), Box::new(e), Some(Box::new(alt)));
                    let next = grammar::node(g, start, q, kind);
                    cond_rest_flat(g, start, q, depth, next);
                    if let Ok((_, z)) = grammar::cond_rest(g, start, q, depth, next) {
                        region_joins(g, pos, q, z, 0);
                    }
                }
            } else {
                let kind = KindModel::CondExpr(Box::new(test), Box::new(e), None);
                let next = grammar::node(g, start, p, kind);
                cond_rest_flat(g, start, p, depth, next);
                if let Ok((_, z)) = grammar::cond_rest(g, start, p, depth, next) {
                    region_joins(g, pos, p, z, 0);
                }
            }
        }
    }
}

#[verifier::spinoff_prover]
proof fn or_expr_flat(g: Input, pos: int, depth: int)
    requires
        ready(g),
        0 <= pos < g.len(),
        bound(g, pos, depth, 0),
        fresh(g, pos),
    ensures
        flat(g, pos, 0, grammar::or_expr(g, pos, depth)),
    decreases g.len() - pos, 18int,
{
    reveal(grammar::or_expr);
    and_expr_flat(g, pos, depth);
    if let Ok((e, p)) = grammar::moved(g, pos, grammar::and_expr(g, pos, depth)) {
        go(g, pos, p, depth, 0);
        or_rest_flat(g, pos, p, depth, e);
        if let Ok((_, q)) = grammar::or_rest(g, pos, p, depth, e) {
            region_joins(g, pos, p, q, 0);
        }
    }
}

#[verifier::spinoff_prover]
proof fn or_rest_flat(g: Input, start: int, pos: int, depth: int, left: ExprModel)
    requires
        ready(g),
        0 <= pos < g.len(),
        bound(g, pos, depth, 0),
    ensures
        flat(g, pos, 0, grammar::or_rest(g, start, pos, depth, left)),
    decreases g.len() - pos, 0int,
{
    reveal(grammar::or_rest);
    stay(g, pos, 0);
    if g.word(pos, "or"@) {
        over(g, pos, 0);
        go(g, pos, pos + 1, depth, 0);
        and_expr_flat(g, pos + 1, depth);
        if let Ok((right, p)) = grammar::moved(g, pos + 1, grammar::and_expr(g, pos + 1, depth)) {
            region_joins(g, pos, pos + 1, p, 0);
            go(g, pos, p, depth, 0);
            let next = grammar::bin(g, start, p, BinOp::Or, left, right);
            or_rest_flat(g, start, p, depth, next);
            if let Ok((_, q)) = grammar::or_rest(g, start, p, depth, next) {
                region_joins(g, pos, p, q, 0);
            }
        }
    }
}

#[verifier::spinoff_prover]
proof fn and_expr_flat(g: Input, pos: int, depth: int)
    requires
        ready(g),
        0 <= pos < g.len(),
        bound(g, pos, depth, 0),
        fresh(g, pos),
    ensures
        flat(g, pos, 0, grammar::and_expr(g, pos, depth)),
    decreases g.len() - pos, 17int,
{
    reveal(grammar::and_expr);
    bound_grows(g, pos, depth, 0, 1);
    not_expr_flat(g, pos, depth);
    if let Ok((e, p)) = grammar::moved(g, pos, grammar::not_expr(g, pos, depth)) {
        region_weakens(g, pos, p, 1, 0);
        go(g, pos, p, depth, 0);
        and_rest_flat(g, pos, p, depth, e);
        if let Ok((_, q)) = grammar::and_rest(g, pos, p, depth, e) {
            region_joins(g, pos, p, q, 0);
        }
    }
}

#[verifier::spinoff_prover]
proof fn and_rest_flat(g: Input, start: int, pos: int, depth: int, left: ExprModel)
    requires
        ready(g),
        0 <= pos < g.len(),
        bound(g, pos, depth, 0),
    ensures
        flat(g, pos, 0, grammar::and_rest(g, start, pos, depth, left)),
    decreases g.len() - pos, 0int,
{
    reveal(grammar::and_rest);
    stay(g, pos, 0);
    if g.word(pos, "and"@) {
        over(g, pos, 0);
        go(g, pos, pos + 1, depth, 0);
        bound_grows(g, pos + 1, depth, 0, 1);
        not_expr_flat(g, pos + 1, depth);
        if let Ok((right, p)) = grammar::moved(g, pos + 1, grammar::not_expr(g, pos + 1, depth)) {
            region_weakens(g, pos + 1, p, 1, 0);
            region_joins(g, pos, pos + 1, p, 0);
            go(g, pos, p, depth, 0);
            let next = grammar::bin(g, start, p, BinOp::And, left, right);
            and_rest_flat(g, start, p, depth, next);
            if let Ok((_, q)) = grammar::and_rest(g, start, p, depth, next) {
                region_joins(g, pos, p, q, 0);
            }
        }
    }
}

#[verifier::spinoff_prover]
proof fn not_expr_flat(g: Input, pos: int, depth: int)
    requires
        ready(g),
        0 <= pos < g.len(),
        bound(g, pos, depth, 1),
        fresh(g, pos),
    ensures
        flat(g, pos, 1, grammar::not_expr(g, pos, depth)),
    decreases g.len() - pos, 16int,
{
    reveal(grammar::not_expr);
    if g.word(pos, "not"@) {
        one_more(g, pos, 1);
        tally_grows(g, pos + 1, pos + 1, pos + 1, pos + 1, 1, 2);
        assert(nesting(g, pos + 1) < MAX_DEPTH);
        not_expr_flat(g, pos + 1, depth + 1);
        if let Ok((e, p)) = grammar::moved(g, pos + 1, grammar::not_expr(g, pos + 1, depth + 1)) {
            region_joins(g, pos, pos + 1, p, 1);
        }
    } else {
        compare_flat(g, pos, depth);
    }
}

#[verifier::spinoff_prover]
proof fn compare_flat(g: Input, pos: int, depth: int)
    requires
        ready(g),
        0 <= pos < g.len(),
        bound(g, pos, depth, 1),
        fresh(g, pos),
    ensures
        flat(g, pos, 1, grammar::compare(g, pos, depth)),
    decreases g.len() - pos, 15int,
{
    reveal(grammar::compare);
    math1_flat(g, pos, depth);
    if let Ok((e, p)) = grammar::moved(g, pos, grammar::math1(g, pos, depth)) {
        go(g, pos, p, depth, 1);
        compare_rest_flat(g, pos, p, depth, e, Seq::empty());
        if let Ok((_, q)) = grammar::compare_rest(g, pos, p, depth, e, Seq::empty()) {
            region_joins(g, pos, p, q, 1);
        }
    }
}

#[verifier::spinoff_prover]
proof fn compare_rest_flat(
    g: Input,
    start: int,
    pos: int,
    depth: int,
    e: ExprModel,
    ops: Seq<(CmpOp, ExprModel)>,
)
    requires
        ready(g),
        0 <= pos < g.len(),
        bound(g, pos, depth, 1),
    ensures
        flat(g, pos, 1, grammar::compare_rest(g, start, pos, depth, e, ops)),
    decreases g.len() - pos, 0int,
{
    reveal(grammar::compare_rest);
    words_differ();
    stay(g, pos, 1);
    if let Some((op, n)) = grammar::comparison_at(g, pos) {
        over(g, pos, 1);
        if n == 2 {
            over(g, pos + 1, 1);
            region_joins(g, pos, pos + 1, pos + 2, 1);
        }
        go(g, pos, pos + n, depth, 1);
        math1_flat(g, pos + n, depth);
        if let Ok((right, p)) = grammar::moved(g, pos + n, grammar::math1(g, pos + n, depth)) {
            region_joins(g, pos, pos + n, p, 1);
            go(g, pos, p, depth, 1);
            compare_rest_flat(g, start, p, depth, e, ops.push((op, right)));
            if let Ok((_, q)) = grammar::compare_rest(g, start, p, depth, e, ops.push((op, right))) {
                region_joins(g, pos, p, q, 1);
            }
        }
    }
}

#[verifier::spinoff_prover]
proof fn math1_flat(g: Input, pos: int, depth: int)
    requires
        ready(g),
        0 <= pos < g.len(),
        bound(g, pos, depth, 1),
        fresh(g, pos),
    ensures
        flat(g, pos, 1, grammar::math1(g, pos, depth)),
    decreases g.len() - pos, 14int,
{
    reveal(grammar::math1);
    concat_flat(g, pos, depth);
    if let Ok((e, p)) = grammar::moved(g, pos, grammar::concat(g, pos, depth)) {
        go(g, pos, p, depth, 1);
        math1_rest_flat(g, pos, p, depth, e);
        if let Ok((_, q)) = grammar::math1_rest(g, pos, p, depth, e) {
            region_joins(g, pos, p, q, 1);
        }
    }
}

#[verifier::spinoff_prover]
proof fn math1_rest_flat(g: Input, start: int, pos: int, depth: int, left: ExprModel)
    requires
        ready(g),
        0 <= pos < g.len(),
        bound(g, pos, depth, 1),
    ensures
        flat(g, pos, 1, grammar::math1_rest(g, start, pos, depth, left)),
    decreases g.len() - pos, 0int,
{
    reveal(grammar::math1_rest);
    stay(g, pos, 1);
    if grammar::additive(g.toks[pos].kind) is Some {
        over(g, pos, 1);
        go(g, pos, pos + 1, depth, 1);
        concat_flat(g, pos + 1, depth);
        if let Ok((right, p)) = grammar::moved(g, pos + 1, grammar::concat(g, pos + 1, depth)) {
            region_joins(g, pos, pos + 1, p, 1);
            go(g, pos, p, depth, 1);
            let op = grammar::additive(g.toks[pos].kind)->0;
            let next = grammar::bin(g, start, p, op, left, right);
            math1_rest_flat(g, start, p, depth, next);
            if let Ok((_, q)) = grammar::math1_rest(g, start, p, depth, next) {
                region_joins(g, pos, p, q, 1);
            }
        }
    }
}

#[verifier::spinoff_prover]
proof fn concat_flat(g: Input, pos: int, depth: int)
    requires
        ready(g),
        0 <= pos < g.len(),
        bound(g, pos, depth, 1),
        fresh(g, pos),
    ensures
        flat(g, pos, 1, grammar::concat(g, pos, depth)),
    decreases g.len() - pos, 13int,
{
    reveal(grammar::concat);
    math2_flat(g, pos, depth);
    if let Ok((e, p)) = grammar::moved(g, pos, grammar::math2(g, pos, depth)) {
        go(g, pos, p, depth, 1);
        concat_rest_flat(g, pos, p, depth, seq![e]);
        if let Ok((_, q)) = grammar::concat_rest(g, pos, p, depth, seq![e]) {
            region_joins(g, pos, p, q, 1);
        }
    }
}

#[verifier::spinoff_prover]
proof fn concat_rest_flat(g: Input, start: int, pos: int, depth: int, left: Seq<ExprModel>)
    requires
        ready(g),
        0 <= pos < g.len(),
        bound(g, pos, depth, 1),
    ensures
        flat(g, pos, 1, grammar::concat_rest(g, start, pos, depth, left)),
    decreases g.len() - pos, 0int,
{
    reveal(grammar::concat_rest);
    stay(g, pos, 1);
    if g.is(pos, Kind::Tilde) {
        over(g, pos, 1);
        go(g, pos, pos + 1, depth, 1);
        math2_flat(g, pos + 1, depth);
        if let Ok((right, p)) = grammar::moved(g, pos + 1, grammar::math2(g, pos + 1, depth)) {
            region_joins(g, pos, pos + 1, p, 1);
            go(g, pos, p, depth, 1);
            let next = left.push(right);
            concat_rest_flat(g, start, p, depth, next);
            if let Ok((_, q)) = grammar::concat_rest(g, start, p, depth, next) {
                region_joins(g, pos, p, q, 1);
            }
        }
    }
}

#[verifier::spinoff_prover]
proof fn math2_flat(g: Input, pos: int, depth: int)
    requires
        ready(g),
        0 <= pos < g.len(),
        bound(g, pos, depth, 1),
        fresh(g, pos),
    ensures
        flat(g, pos, 1, grammar::math2(g, pos, depth)),
    decreases g.len() - pos, 12int,
{
    reveal(grammar::math2);
    pow_flat(g, pos, depth);
    if let Ok((e, p)) = grammar::moved(g, pos, grammar::pow(g, pos, depth)) {
        go(g, pos, p, depth, 1);
        math2_rest_flat(g, pos, p, depth, e);
        if let Ok((_, q)) = grammar::math2_rest(g, pos, p, depth, e) {
            region_joins(g, pos, p, q, 1);
        }
    }
}

#[verifier::spinoff_prover]
proof fn math2_rest_flat(g: Input, start: int, pos: int, depth: int, left: ExprModel)
    requires
        ready(g),
        0 <= pos < g.len(),
        bound(g, pos, depth, 1),
    ensures
        flat(g, pos, 1, grammar::math2_rest(g, start, pos, depth, left)),
    decreases g.len() - pos, 0int,
{
    reveal(grammar::math2_rest);
    stay(g, pos, 1);
    if grammar::multiplicative(g.toks[pos].kind) is Some {
        over(g, pos, 1);
        go(g, pos, pos + 1, depth, 1);
        pow_flat(g, pos + 1, depth);
        if let Ok((right, p)) = grammar::moved(g, pos + 1, grammar::pow(g, pos + 1, depth)) {
            region_joins(g, pos, pos + 1, p, 1);
            go(g, pos, p, depth, 1);
            let op = grammar::multiplicative(g.toks[pos].kind)->0;
            let next = grammar::bin(g, start, p, op, left, right);
            math2_rest_flat(g, start, p, depth, next);
            if let Ok((_, q)) = grammar::math2_rest(g, start, p, depth, next) {
                region_joins(g, pos, p, q, 1);
            }
        }
    }
}

#[verifier::spinoff_prover]
proof fn pow_flat(g: Input, pos: int, depth: int)
    requires
        ready(g),
        0 <= pos < g.len(),
        bound(g, pos, depth, 1),
        fresh(g, pos),
    ensures
        flat(g, pos, 1, grammar::pow(g, pos, depth)),
    decreases g.len() - pos, 11int,
{
    reveal(grammar::pow);
    bound_grows(g, pos, depth, 1, 2);
    unary_flat(g, pos, depth, true);
    if let Ok((e, p)) = grammar::moved(g, pos, grammar::unary(g, pos, depth, true)) {
        region_weakens(g, pos, p, 2, 1);
        go(g, pos, p, depth, 1);
        pow_rest_flat(g, pos, p, depth, e);
        if let Ok((_, q)) = grammar::pow_rest(g, pos, p, depth, e) {
            region_joins(g, pos, p, q, 1);
        }
    }
}

#[verifier::spinoff_prover]
proof fn pow_rest_flat(g: Input, start: int, pos: int, depth: int, left: ExprModel)
    requires
        ready(g),
        0 <= pos < g.len(),
        bound(g, pos, depth, 1),
    ensures
        flat(g, pos, 1, grammar::pow_rest(g, start, pos, depth, left)),
    decreases g.len() - pos, 0int,
{
    reveal(grammar::pow_rest);
    stay(g, pos, 1);
    if g.is(pos, Kind::Pow) {
        over(g, pos, 1);
        go(g, pos, pos + 1, depth, 1);
        bound_grows(g, pos + 1, depth, 1, 2);
        unary_flat(g, pos + 1, depth, true);
        if let Ok((right, p)) = grammar::moved(g, pos + 1, grammar::unary(g, pos + 1, depth, true)) {
            region_weakens(g, pos + 1, p, 2, 1);
            region_joins(g, pos, pos + 1, p, 1);
            go(g, pos, p, depth, 1);
            let next = grammar::bin(g, start, p, BinOp::Pow, left, right);
            pow_rest_flat(g, start, p, depth, next);
            if let Ok((_, q)) = grammar::pow_rest(g, start, p, depth, next) {
                region_joins(g, pos, p, q, 1);
            }
        }
    }
}

#[verifier::spinoff_prover]
proof fn unary_flat(g: Input, pos: int, depth: int, filters: bool)
    requires
        ready(g),
        0 <= pos < g.len(),
        bound(g, pos, depth, 2),
        fresh(g, pos),
    ensures
        flat(g, pos, 2, grammar::unary(g, pos, depth, filters)),
    decreases g.len() - pos, 10int,
{
    reveal(grammar::unary);
    operand_flat(g, pos, depth);
    if let Ok((e, p)) = grammar::moved(g, pos, grammar::operand(g, pos, depth)) {
        go(g, pos, p, depth, 2);
        postfix_flat(g, pos, p, depth, e);
        if let Ok((e, q)) = grammar::kept(g, p, grammar::postfix(g, pos, p, depth, e)) {
            region_joins(g, pos, p, q, 2);
            go(g, pos, q, depth, 2);
            if filters {
                filtered_flat(g, pos, q, depth, e);
                if let Ok((_, z)) = grammar::filtered(g, pos, q, depth, e) {
                    region_joins(g, pos, q, z, 2);
                }
            }
        }
    }
}

#[verifier::spinoff_prover]
proof fn operand_flat(g: Input, pos: int, depth: int)
    requires
        ready(g),
        0 <= pos < g.len(),
        bound(g, pos, depth, 2),
        fresh(g, pos),
    ensures
        flat(g, pos, 2, grammar::operand(g, pos, depth)),
    decreases g.len() - pos, 9int,
{
    reveal(grammar::operand);
    if grammar::sign(g.toks[pos].kind) is Some {
        one_more(g, pos, 2);
        assert(nesting(g, pos + 1) < MAX_DEPTH);
        unary_flat(g, pos + 1, depth + 1, false);
        if let Ok((e, p)) = grammar::moved(
            g,
            pos + 1,
            grammar::unary(g, pos + 1, depth + 1, false),
        ) {
            region_joins(g, pos, pos + 1, p, 2);
        }
    } else {
        primary_flat(g, pos, depth);
    }
}

#[verifier::spinoff_prover]
proof fn strings_flat(g: Input, pos: int, acc: Seq<char>)
    requires
        ready(g),
        0 <= pos < g.len(),
    ensures
        flat_text(g, pos, 2, grammar::strings(g, pos, acc)),
    decreases g.len() - pos, 0int,
{
    reveal(grammar::strings);
    stay(g, pos, 2);
    if g.is(pos, Kind::Str) {
        over(g, pos, 2);
        if let Ok(s) = lexer::string_at(g.src, g.toks[pos].span) {
            strings_flat(g, pos + 1, acc + s);
            if let Ok((_, p)) = grammar::strings(g, pos + 1, acc + s) {
                region_joins(g, pos, pos + 1, p, 2);
            }
        }
    }
}

#[verifier::spinoff_prover]
proof fn primary_flat(g: Input, pos: int, depth: int)
    requires
        ready(g),
        0 <= pos < g.len(),
        bound(g, pos, depth, 2),
        !joins(g, pos),
    ensures
        flat(g, pos, 2, grammar::primary(g, pos, depth)),
    decreases g.len() - pos, 8int,
{
    reveal(grammar::primary);
    match g.toks[pos].kind {
        Kind::Name | Kind::Int | Kind::Float => {
            over(g, pos, 2);
        },
        Kind::Str => {
            strings_flat(g, pos, Seq::empty());
        },
        Kind::Lparen => {
            enter(g, pos);
            tuple_flat(g, pos + 1, pos + 1, depth, Seq::empty(), false);
            if let Ok((e, p)) = grammar::kept(
                g,
                pos + 1,
                grammar::tuple(g, pos + 1, pos + 1, depth, Seq::empty(), false),
            ) {
                if g.is(p, Kind::Rparen) {
                    close(g, pos + 1, p);
                    closed(g, pos, p + 1);
                }
            }
        },
        Kind::Lbracket => {
            enter(g, pos);
            list_flat(g, pos, pos + 1, depth, Seq::empty());
            if let Ok((_, p)) = grammar::list(g, pos, pos + 1, depth, Seq::empty()) {
                closed(g, pos, p);
            }
        },
        Kind::Lbrace => {
            enter(g, pos);
            dict_flat(g, pos, pos + 1, depth, Seq::empty());
            if let Ok((_, p)) = grammar::dict(g, pos, pos + 1, depth, Seq::empty()) {
                closed(g, pos, p);
            }
        },
        _ => {},
    }
}

#[verifier::spinoff_prover]
proof fn tuple_flat(
    g: Input,
    start: int,
    pos: int,
    depth: int,
    args: Seq<ExprModel>,
    is_tuple: bool,
)
    requires
        ready(g),
        0 <= pos < g.len(),
        within(g, pos, depth),
        fresh(g, pos),
    ensures
        flat(g, pos, 0, grammar::tuple(g, start, pos, depth, args, is_tuple)),
    decreases g.len() - pos, 21int,
{
    reveal(grammar::tuple);
    stay(g, pos, 0);
    if !g.is(pos, Kind::Rparen) && !g.is(pos, Kind::Eof) {
        expression_flat(g, pos, depth);
        if let Ok((e, p)) = grammar::moved(g, pos, grammar::expression(g, pos, depth)) {
            if g.is(p, Kind::Comma) {
                over(g, p, 0);
                region_joins(g, pos, p, p + 1, 0);
                go(g, pos, p + 1, depth, 0);
                tuple_flat(g, start, p + 1, depth, args.push(e), true);
                if let Ok((_, q)) = grammar::tuple(g, start, p + 1, depth, args.push(e), true) {
                    region_joins(g, pos, p + 1, q, 0);
                }
            }
        }
    }
}

#[verifier::spinoff_prover]
proof fn list_flat(g: Input, start: int, pos: int, depth: int, items: Seq<ExprModel>)
    requires
        ready(g),
        0 <= pos < g.len(),
        within(g, pos, depth),
        items.len() == 0 ==> fresh(g, pos),
    ensures
        inner(g, pos, grammar::list(g, start, pos, depth, items)),
    decreases g.len() - pos, 21int,
{
    reveal(grammar::list);
    stay(g, pos, 0);
    if g.is(pos, Kind::Rbracket) {
        close(g, pos, pos);
    } else if items.len() == 0 || g.is(pos, Kind::Comma) {
        let at = if items.len() > 0 {
            pos + 1
        } else {
            pos
        };
        if items.len() > 0 {
            over(g, pos, 0);
            go(g, pos, pos + 1, depth, 0);
        }
        if items.len() > 0 && g.is(at, Kind::Rbracket) {
            close(g, pos, at);
        } else {
            expression_flat(g, at, depth);
            if let Ok((e, p)) = grammar::moved(g, at, grammar::expression(g, at, depth)) {
                region_joins(g, pos, at, p, 0);
                go(g, pos, p, depth, 0);
                list_flat(g, start, p, depth, items.push(e));
                if let Ok((_, q)) = grammar::list(g, start, p, depth, items.push(e)) {
                    region_joins(g, pos, p, q, 0);
                }
            }
        }
    }
}

#[verifier::spinoff_prover]
proof fn dict_flat(
    g: Input,
    start: int,
    pos: int,
    depth: int,
    items: Seq<(ExprModel, ExprModel)>,
)
    requires
        ready(g),
        0 <= pos < g.len(),
        within(g, pos, depth),
        items.len() == 0 ==> fresh(g, pos),
    ensures
        inner(g, pos, grammar::dict(g, start, pos, depth, items)),
    decreases g.len() - pos, 21int,
{
    reveal(grammar::dict);
    stay(g, pos, 0);
    if g.is(pos, Kind::Rbrace) {
        close(g, pos, pos);
    } else if items.len() == 0 || g.is(pos, Kind::Comma) {
        let at = if items.len() > 0 {
            pos + 1
        } else {
            pos
        };
        if items.len() > 0 {
            over(g, pos, 0);
            go(g, pos, pos + 1, depth, 0);
        }
        if items.len() > 0 && g.is(at, Kind::Rbrace) {
            close(g, pos, at);
        } else {
            expression_flat(g, at, depth);
            if let Ok((key, p)) = grammar::moved(g, at, grammar::expression(g, at, depth)) {
                region_joins(g, pos, at, p, 0);
                if g.is(p, Kind::Colon) {
                    over(g, p, 0);
                    region_joins(g, pos, p, p + 1, 0);
                    go(g, pos, p + 1, depth, 0);
                    expression_flat(g, p + 1, depth);
                    if let Ok((value, q)) = grammar::moved(
                        g,
                        p + 1,
                        grammar::expression(g, p + 1, depth),
                    ) {
                        region_joins(g, pos, p + 1, q, 0);
                        go(g, pos, q, depth, 0);
                        let next = items.push((key, value));
                        dict_flat(g, start, q, depth, next);
                        if let Ok((_, z)) = grammar::dict(g, start, q, depth, next) {
                            region_joins(g, pos, q, z, 0);
                        }
                    }
                }
            }
        }
    }
}

#[verifier::spinoff_prover]
proof fn postfix_flat(g: Input, start: int, pos: int, depth: int, e: ExprModel)
    requires
        ready(g),
        0 <= pos < g.len(),
        bound(g, pos, depth, 2),
    ensures
        flat(g, pos, 2, grammar::postfix(g, start, pos, depth, e)),
    decreases g.len() - pos, 8int,
{
    reveal(grammar::postfix);
    stay(g, pos, 2);
    if g.is(pos, Kind::Dot) || g.is(pos, Kind::Lbracket) {
        subscript_flat(g, start, pos, depth, e);
        if let Ok((e, p)) = grammar::moved(g, pos, grammar::subscript(g, start, pos, depth, e)) {
            go(g, pos, p, depth, 2);
            postfix_flat(g, start, p, depth, e);
            if let Ok((_, q)) = grammar::postfix(g, start, p, depth, e) {
                region_joins(g, pos, p, q, 2);
            }
        }
    } else if g.is(pos, Kind::Lparen) {
        call_flat(g, start, pos, depth, e);
        if let Ok((e, p)) = grammar::moved(g, pos, grammar::call(g, start, pos, depth, e)) {
            go(g, pos, p, depth, 2);
            postfix_flat(g, start, p, depth, e);
            if let Ok((_, q)) = grammar::postfix(g, start, p, depth, e) {
                region_joins(g, pos, p, q, 2);
            }
        }
    }
}

#[verifier::spinoff_prover]
proof fn filtered_flat(g: Input, start: int, pos: int, depth: int, e: ExprModel)
    requires
        ready(g),
        0 <= pos < g.len(),
        bound(g, pos, depth, 2),
    ensures
        flat(g, pos, 2, grammar::filtered(g, start, pos, depth, e)),
    decreases g.len() - pos, 8int,
{
    reveal(grammar::filtered);
    stay(g, pos, 2);
    if g.is(pos, Kind::Pipe) {
        filter_flat(g, start, pos, depth, e);
        if let Ok((e, p)) = grammar::moved(g, pos, grammar::filter(g, start, pos, depth, e)) {
            go(g, pos, p, depth, 2);
            filtered_flat(g, start, p, depth, e);
            if let Ok((_, q)) = grammar::filtered(g, start, p, depth, e) {
                region_joins(g, pos, p, q, 2);
            }
        }
    } else if g.word(pos, "is"@) {
        test_flat(g, start, pos, depth, e);
        if let Ok((e, p)) = grammar::moved(g, pos, grammar::test(g, start, pos, depth, e)) {
            go(g, pos, p, depth, 2);
            filtered_flat(g, start, p, depth, e);
            if let Ok((_, q)) = grammar::filtered(g, start, p, depth, e) {
                region_joins(g, pos, p, q, 2);
            }
        }
    } else if g.is(pos, Kind::Lparen) {
        call_flat(g, start, pos, depth, e);
        if let Ok((e, p)) = grammar::moved(g, pos, grammar::call(g, start, pos, depth, e)) {
            go(g, pos, p, depth, 2);
            filtered_flat(g, start, p, depth, e);
            if let Ok((_, q)) = grammar::filtered(g, start, p, depth, e) {
                region_joins(g, pos, p, q, 2);
            }
        }
    }
}

#[verifier::spinoff_prover]
proof fn subscript_flat(g: Input, start: int, pos: int, depth: int, e: ExprModel)
    requires
        ready(g),
        0 <= pos < g.len(),
        bound(g, pos, depth, 2),
        g.is(pos, Kind::Dot) || g.is(pos, Kind::Lbracket),
    ensures
        flat(g, pos, 2, grammar::subscript(g, start, pos, depth, e)),
    decreases g.len() - pos, 7int,
{
    reveal(grammar::subscript);
    if pos + 1 < g.len() {
        if g.is(pos, Kind::Dot) {
            over(g, pos, 2);
            if g.is(pos + 1, Kind::Name) || g.is(pos + 1, Kind::Int) {
                over(g, pos + 1, 2);
                region_joins(g, pos, pos + 1, pos + 2, 2);
            }
        } else {
            enter(g, pos);
            subscripts_flat(g, start, pos + 1, depth, e, Seq::empty());
            if let Ok((_, p)) = grammar::subscripts(g, start, pos + 1, depth, e, Seq::empty()) {
                closed(g, pos, p);
            }
        }
    }
}

#[verifier::spinoff_prover]
proof fn subscripts_flat(
    g: Input,
    start: int,
    pos: int,
    depth: int,
    e: ExprModel,
    args: Seq<ExprModel>,
)
    requires
        ready(g),
        0 <= pos < g.len(),
        within(g, pos, depth),
        args.len() == 0 ==> fresh(g, pos),
    ensures
        inner(g, pos, grammar::subscripts(g, start, pos, depth, e, args)),
    decreases g.len() - pos, 23int,
{
    reveal(grammar::subscripts);
    stay(g, pos, 0);
    if g.is(pos, Kind::Rbracket) {
        close(g, pos, pos);
    } else if args.len() == 0 || g.is(pos, Kind::Comma) {
        let at = if args.len() > 0 {
            pos + 1
        } else {
            pos
        };
        if args.len() > 0 {
            over(g, pos, 0);
            go(g, pos, pos + 1, depth, 0);
        }
        subscribed_flat(g, at, depth);
        if let Ok((arg, p)) = grammar::moved(g, at, grammar::subscribed(g, at, depth)) {
            region_joins(g, pos, at, p, 0);
            go(g, pos, p, depth, 0);
            subscripts_flat(g, start, p, depth, e, args.push(arg));
            if let Ok((_, q)) = grammar::subscripts(g, start, p, depth, e, args.push(arg)) {
                region_joins(g, pos, p, q, 0);
            }
        }
    }
}

#[verifier::spinoff_prover]
proof fn subscribed_flat(g: Input, pos: int, depth: int)
    requires
        ready(g),
        0 <= pos < g.len(),
        within(g, pos, depth),
        fresh(g, pos),
    ensures
        flat(g, pos, 0, grammar::subscribed(g, pos, depth)),
    decreases g.len() - pos, 22int,
{
    reveal(grammar::subscribed);
    if g.is(pos, Kind::Colon) {
        over(g, pos, 0);
        go(g, pos, pos + 1, depth, 0);
        slice_stop_flat(g, pos, pos + 1, depth, None);
        if let Ok((_, q)) = grammar::slice_stop(g, pos, pos + 1, depth, None) {
            region_joins(g, pos, pos + 1, q, 0);
        }
    } else {
        expression_flat(g, pos, depth);
        if let Ok((e, p)) = grammar::moved(g, pos, grammar::expression(g, pos, depth)) {
            if g.is(p, Kind::Colon) {
                over(g, p, 0);
                region_joins(g, pos, p, p + 1, 0);
                go(g, pos, p + 1, depth, 0);
                slice_stop_flat(g, pos, p + 1, depth, Some(Box::new(e)));
                if let Ok((_, q)) = grammar::slice_stop(g, pos, p + 1, depth, Some(Box::new(e))) {
                    region_joins(g, pos, p + 1, q, 0);
                }
            }
        }
    }
}

#[verifier::spinoff_prover]
proof fn slice_stop_flat(
    g: Input,
    start: int,
    pos: int,
    depth: int,
    first: Option<Box<ExprModel>>,
)
    requires
        ready(g),
        0 <= pos < g.len(),
        within(g, pos, depth),
        fresh(g, pos),
    ensures
        flat(g, pos, 0, grammar::slice_stop(g, start, pos, depth, first)),
    decreases g.len() - pos, 22int,
{
    reveal(grammar::slice_stop);
    if g.is(pos, Kind::Colon) || grammar::part_ends(g, pos) {
        slice_step_flat(g, start, pos, depth, first, None);
    } else {
        expression_flat(g, pos, depth);
        if let Ok((e, p)) = grammar::moved(g, pos, grammar::expression(g, pos, depth)) {
            go(g, pos, p, depth, 0);
            slice_step_flat(g, start, p, depth, first, Some(Box::new(e)));
            if let Ok((_, q)) = grammar::slice_step(g, start, p, depth, first, Some(Box::new(e))) {
                region_joins(g, pos, p, q, 0);
            }
        }
    }
}

#[verifier::spinoff_prover]
proof fn slice_step_flat(
    g: Input,
    start: int,
    pos: int,
    depth: int,
    first: Option<Box<ExprModel>>,
    stop: Option<Box<ExprModel>>,
)
    requires
        ready(g),
        0 <= pos < g.len(),
        within(g, pos, depth),
    ensures
        flat(g, pos, 0, grammar::slice_step(g, start, pos, depth, first, stop)),
    decreases g.len() - pos, 21int,
{
    reveal(grammar::slice_step);
    stay(g, pos, 0);
    if g.is(pos, Kind::Colon) {
        over(g, pos, 0);
        if !grammar::part_ends(g, pos + 1) {
            go(g, pos, pos + 1, depth, 0);
            expression_flat(g, pos + 1, depth);
            if let Ok((e, p)) = grammar::moved(g, pos + 1, grammar::expression(g, pos + 1, depth)) {
                region_joins(g, pos, pos + 1, p, 0);
            }
        }
    }
}

#[verifier::spinoff_prover]
proof fn call_args_flat(g: Input, pos: int, depth: int)
    requires
        ready(g),
        0 <= pos < g.len(),
        bound(g, pos, depth, 2),
        g.is(pos, Kind::Lparen),
    ensures
        flat_args(g, pos, 2, grammar::call_args(g, pos, depth)),
    decreases g.len() - pos, 5int,
{
    reveal(grammar::call_args);
    enter(g, pos);
    args_rest_flat(g, pos + 1, depth, ast::no_args(), false);
    if let Ok((_, p)) = grammar::args_rest(g, pos + 1, depth, ast::no_args(), false) {
        closed(g, pos, p);
    }
}

#[verifier::spinoff_prover]
proof fn args_rest_flat(g: Input, pos: int, depth: int, out: ArgsModel, require_comma: bool)
    requires
        ready(g),
        0 <= pos < g.len(),
        within(g, pos, depth),
        !require_comma ==> fresh(g, pos),
    ensures
        inner_args(g, pos, grammar::args_rest(g, pos, depth, out, require_comma)),
    decreases g.len() - pos, 23int,
{
    reveal(grammar::args_rest);
    stay(g, pos, 0);
    if g.is(pos, Kind::Rparen) {
        close(g, pos, pos);
    } else if !require_comma {
        one_arg_flat(g, pos, depth, out);
    } else if g.is(pos, Kind::Comma) {
        over(g, pos, 0);
        if g.is(pos + 1, Kind::Rparen) {
            close(g, pos, pos + 1);
        } else {
            go(g, pos, pos + 1, depth, 0);
            one_arg_flat(g, pos + 1, depth, out);
            if let Ok((_, q)) = grammar::one_arg(g, pos + 1, depth, out) {
                region_joins(g, pos, pos + 1, q, 0);
            }
        }
    }
}

/// An argument whose expression begins at `at`, and what follows it.
#[verifier::spinoff_prover]
proof fn value_flat(g: Input, pos: int, at: int, depth: int, p: int, out: ArgsModel)
    requires
        ready(g),
        0 <= pos <= at < p < g.len(),
        within(g, pos, depth),
        region(g, pos, at, 0),
        opens(g, at) == opens(g, pos),
        region(g, at, p, 0),
        opens(g, p) == opens(g, at),
    ensures
        inner_args(g, pos, grammar::args_rest(g, p, depth, out, true)),
    decreases g.len() - p, 24int,
{
    region_joins(g, pos, at, p, 0);
    go(g, pos, p, depth, 0);
    args_rest_flat(g, p, depth, out, true);
    if let Ok((_, q)) = grammar::args_rest(g, p, depth, out, true) {
        region_joins(g, pos, p, q, 0);
    }
}

#[verifier::spinoff_prover]
proof fn one_arg_flat(g: Input, pos: int, depth: int, out: ArgsModel)
    requires
        ready(g),
        0 <= pos < g.len(),
        within(g, pos, depth),
        fresh(g, pos),
    ensures
        inner_args(g, pos, grammar::one_arg(g, pos, depth, out)),
    decreases g.len() - pos, 22int,
{
    reveal(grammar::one_arg);
    stay(g, pos, 0);
    if g.is(pos, Kind::Mul) || g.is(pos, Kind::Pow) {
        over(g, pos, 0);
        go(g, pos, pos + 1, depth, 0);
        expression_flat(g, pos + 1, depth);
        if let Ok((e, p)) = grammar::moved(g, pos + 1, grammar::expression(g, pos + 1, depth)) {
            let one = ArgsModel { dyn_args: Some(Box::new(e)), ..out };
            let two = ArgsModel { dyn_kwargs: Some(Box::new(e)), ..out };
            value_flat(g, pos, pos + 1, depth, p, one);
            value_flat(g, pos, pos + 1, depth, p, two);
        }
    } else if g.is(pos, Kind::Name) && g.is(pos + 1, Kind::Assign) {
        over(g, pos, 0);
        over(g, pos + 1, 0);
        region_joins(g, pos, pos + 1, pos + 2, 0);
        go(g, pos, pos + 2, depth, 0);
        expression_flat(g, pos + 2, depth);
        if let Ok((e, p)) = grammar::moved(g, pos + 2, grammar::expression(g, pos + 2, depth)) {
            let next = ArgsModel { kwargs: out.kwargs.push((g.text(pos), e)), ..out };
            value_flat(g, pos, pos + 2, depth, p, next);
        }
    } else {
        expression_flat(g, pos, depth);
        if let Ok((e, p)) = grammar::moved(g, pos, grammar::expression(g, pos, depth)) {
            value_flat(g, pos, pos, depth, p, ArgsModel { args: out.args.push(e), ..out });
        }
    }
}

#[verifier::spinoff_prover]
proof fn call_flat(g: Input, start: int, pos: int, depth: int, e: ExprModel)
    requires
        ready(g),
        0 <= pos < g.len(),
        bound(g, pos, depth, 2),
        g.is(pos, Kind::Lparen),
    ensures
        flat(g, pos, 2, grammar::call(g, start, pos, depth, e)),
    decreases g.len() - pos, 6int,
{
    reveal(grammar::call);
    call_args_flat(g, pos, depth);
}

#[verifier::spinoff_prover]
proof fn dotted_rest_flat(g: Input, pos: int, acc: Seq<char>)
    requires
        ready(g),
        0 <= pos < g.len(),
    ensures
        flat_text(g, pos, 2, grammar::dotted_rest(g, pos, acc)),
    decreases g.len() - pos,
{
    reveal(grammar::dotted_rest);
    stay(g, pos, 2);
    if g.is(pos, Kind::Dot) && pos + 1 < g.len() && g.is(pos + 1, Kind::Name) {
        over(g, pos, 2);
        over(g, pos + 1, 2);
        region_joins(g, pos, pos + 1, pos + 2, 2);
        let next = acc.push('.') + g.text(pos + 1);
        dotted_rest_flat(g, pos + 2, next);
        if let Ok((_, q)) = grammar::dotted_rest(g, pos + 2, next) {
            region_joins(g, pos, pos + 2, q, 2);
        }
    }
}

#[verifier::spinoff_prover]
proof fn dotted_name_flat(g: Input, pos: int)
    requires
        ready(g),
        0 <= pos < g.len(),
        !joins(g, pos),
    ensures
        flat_text(g, pos, 2, grammar::dotted_name(g, pos)),
{
    if g.is(pos, Kind::Name) {
        over(g, pos, 2);
        dotted_rest_flat(g, pos + 1, g.text(pos));
        if let Ok((_, q)) = grammar::dotted_rest(g, pos + 1, g.text(pos)) {
            region_joins(g, pos, pos + 1, q, 2);
        }
    }
}

#[verifier::spinoff_prover]
proof fn optional_args_flat(g: Input, pos: int, depth: int)
    requires
        ready(g),
        0 <= pos < g.len(),
        bound(g, pos, depth, 2),
    ensures
        flat_args(g, pos, 2, grammar::optional_args(g, pos, depth)),
    decreases g.len() - pos, 6int,
{
    reveal(grammar::optional_args);
    stay(g, pos, 2);
    if g.is(pos, Kind::Lparen) {
        call_args_flat(g, pos, depth);
    }
}

#[verifier::spinoff_prover]
proof fn filter_flat(g: Input, start: int, pos: int, depth: int, e: ExprModel)
    requires
        ready(g),
        0 <= pos < g.len(),
        bound(g, pos, depth, 2),
    ensures
        flat(g, pos, 2, grammar::filter(g, start, pos, depth, e)),
    decreases g.len() - pos, 7int,
{
    reveal(grammar::filter);
    stay(g, pos, 2);
    if g.is(pos, Kind::Pipe) {
        over(g, pos, 2);
        dotted_name_flat(g, pos + 1);
        if let Ok((name, p)) = grammar::moved_text(g, pos + 1, grammar::dotted_name(g, pos + 1)) {
            region_joins(g, pos, pos + 1, p, 2);
            go(g, pos, p, depth, 2);
            optional_args_flat(g, p, depth);
            if let Ok((args, q)) = grammar::moved_args(
                g,
                p - 1,
                grammar::optional_args(g, p, depth),
            ) {
                region_joins(g, pos, p, q, 2);
                go(g, pos, q, depth, 2);
                let next = grammar::node(g, start, q, KindModel::Filter(Box::new(e), name, args));
                filter_flat(g, start, q, depth, next);
                if let Ok((_, z)) = grammar::filter(g, start, q, depth, next) {
                    region_joins(g, pos, q, z, 2);
                }
            }
        }
    }
}

#[verifier::spinoff_prover]
proof fn test_args_flat(g: Input, pos: int, depth: int)
    requires
        ready(g),
        0 <= pos < g.len(),
        bound(g, pos, depth, 2),
    ensures
        flat_args(g, pos, 2, grammar::test_args(g, pos, depth)),
    decreases g.len() - pos, 9int,
{
    reveal(grammar::test_args);
    stay(g, pos, 2);
    if g.is(pos, Kind::Lparen) {
        call_args_flat(g, pos, depth);
    } else if grammar::test_argument(g, pos) && !g.word(pos, "is"@) {
        primary_flat(g, pos, depth);
        if let Ok((e, p)) = grammar::moved(g, pos, grammar::primary(g, pos, depth)) {
            go(g, pos, p, depth, 2);
            postfix_flat(g, pos, p, depth, e);
            if let Ok((_, q)) = grammar::kept(g, p, grammar::postfix(g, pos, p, depth, e)) {
                region_joins(g, pos, p, q, 2);
            }
        }
    }
}

#[verifier::spinoff_prover]
proof fn test_flat(g: Input, start: int, pos: int, depth: int, e: ExprModel)
    requires
        ready(g),
        0 <= pos < g.len(),
        bound(g, pos, depth, 2),
        g.word(pos, "is"@),
    ensures
        flat(g, pos, 2, grammar::test(g, start, pos, depth, e)),
    decreases g.len() - pos, 7int,
{
    reveal(grammar::test);
    words_differ();
    over(g, pos, 2);
    let negated = g.word(pos + 1, "not"@);
    let at = if negated {
        pos + 2
    } else {
        pos + 1
    };
    if negated {
        over(g, pos + 1, 2);
        region_joins(g, pos, pos + 1, pos + 2, 2);
    }
    if at < g.len() {
        dotted_name_flat(g, at);
        if let Ok((name, p)) = grammar::moved_text(g, at, grammar::dotted_name(g, at)) {
            region_joins(g, pos, at, p, 2);
            go(g, pos, p, depth, 2);
            test_args_flat(g, p, depth);
            if let Ok((args, q)) = grammar::moved_args(g, p - 1, grammar::test_args(g, p, depth)) {
                region_joins(g, pos, p, q, 2);
            }
        }
    }
}

// ------------------------------------------------------------------ what is promised

/// The tokens of a text end with its end.
pub proof fn tokens_have_an_end(b: Seq<u8>, i: int, acc: Seq<Token>)
    ensures
        match lexer::lex_from(b, i, acc) {
            Ok(toks) => toks.len() > 0 && toks.last().kind == Kind::Eof,
            Err(_) => true,
        },
    decreases b.len() - i,
{
    if 0 <= i < b.len() {
        if lexer::blank(b[i]) {
            tokens_have_an_end(b, i + 1, acc);
        } else if let Some((kind, end)) = lexer::lexeme(b, i) {
            if i < end <= b.len() {
                tokens_have_an_end(b, end, acc.push(lexer::token(kind, i, end)));
            }
        }
    }
}

/// A text whose nesting stays below the limit is not refused for its depth, however long it is.
pub proof fn breadth_is_not_depth(src: Seq<char>, toks: Seq<Token>)
    requires
        lexer::lexed(src) == Ok::<Seq<Token>, ErrorModel>(toks),
        shallow((Input { src, toks })),
    ensures
        grammar::parsed(src) is Err ==> grammar::parsed(src)->Err_0.cause != Cause::Depth,
{
    tokens_have_an_end(encode_utf8(src), 0, Seq::empty());
    expression_flat(Input { src, toks }, 0, 0);
}

} // verus!
