//! What the short expressions are that have only names in them: each operator, with a name on
//! either side of it, is the node of that operator, with the names as its operands.

use vstd::prelude::*;

use crate::jinja::ast::{self, BinOp, CmpOp, ExprModel, KindModel, UnOp};
use crate::jinja::grammar::{self, Input, Parsed};
use crate::jinja::lexer::{self, ErrorModel, Kind, Token};
use crate::jinja::reading;

verus! {

/// Is the token at `i` a name that stands for a variable?
pub open spec fn variable(g: Input, i: int) -> bool {
    &&& reading::name_at(g, i)
    &&& !reading::literal_word(reading::text_at(g, i))
    &&& reading::text_at(g, i) != "not"@
}

/// The tree of a variable.
pub open spec fn leaf(g: Input, i: int) -> ExprModel {
    ExprModel { kind: KindModel::Name(reading::text_at(g, i)), span: g.toks[i].span }
}

/// The kind of the token that writes the operator, where it is no word.
pub open spec fn operator_kind(op: BinOp) -> Option<Kind> {
    match op {
        BinOp::Or | BinOp::And => None,
        BinOp::Add => Some(Kind::Add),
        BinOp::Sub => Some(Kind::Sub),
        BinOp::Mul => Some(Kind::Mul),
        BinOp::Div => Some(Kind::Div),
        BinOp::FloorDiv => Some(Kind::FloorDiv),
        BinOp::Mod => Some(Kind::Mod),
        BinOp::Pow => Some(Kind::Pow),
    }
}

/// Is the operator at `i`?
pub open spec fn operator_at(g: Input, i: int, op: BinOp) -> bool {
    match op {
        BinOp::Or => reading::says(g, i, "or"@),
        BinOp::And => reading::says(g, i, "and"@),
        _ => g.is(i, operator_kind(op)->0),
    }
}

/// The kind of the token that writes the comparison, where it is no word.
pub open spec fn comparison_kind(op: CmpOp) -> Option<Kind> {
    match op {
        CmpOp::Eq => Some(Kind::Eq),
        CmpOp::Ne => Some(Kind::Ne),
        CmpOp::Gt => Some(Kind::Gt),
        CmpOp::Gteq => Some(Kind::Gteq),
        CmpOp::Lt => Some(Kind::Lt),
        CmpOp::Lteq => Some(Kind::Lteq),
        CmpOp::In | CmpOp::NotIn => None,
    }
}

/// How many tokens the comparison takes.
pub open spec fn comparison_size(op: CmpOp) -> int {
    if op == CmpOp::NotIn {
        2
    } else {
        1
    }
}

/// Is the comparison at `i`?
pub open spec fn compared_at(g: Input, i: int, op: CmpOp) -> bool {
    match op {
        CmpOp::In => reading::says(g, i, "in"@),
        CmpOp::NotIn => reading::says(g, i, "not"@) && reading::says(g, i + 1, "in"@),
        _ => g.is(i, comparison_kind(op)->0),
    }
}

/// Is the text the tokens and an end behind them?
pub open spec fn tokens(src: Seq<char>, g: Input, n: int) -> bool {
    &&& g.src == src
    &&& lexer::lexed(src) == Ok::<Seq<Token>, ErrorModel>(g.toks)
    &&& g.toks.len() == n + 1
    &&& g.is(n, Kind::Eof)
}

// ------------------------------------------------------------------ one level after the other

/// The level whose rule goes on at `p`.
spec fn joins(g: Input, p: int) -> int {
    if g.is(p, Kind::Dot) || g.is(p, Kind::Lbracket) || g.is(p, Kind::Lparen) {
        11
    } else if g.is(p, Kind::Pipe) || g.word(p, "is"@) {
        9
    } else if g.is(p, Kind::Pow) {
        8
    } else if 0 <= p < g.len() && grammar::multiplicative(g.toks[p].kind) is Some {
        7
    } else if g.is(p, Kind::Tilde) {
        6
    } else if 0 <= p < g.len() && grammar::additive(g.toks[p].kind) is Some {
        5
    } else if grammar::comparison_at(g, p) is Some {
        4
    } else if g.word(p, "and"@) {
        2
    } else if g.word(p, "or"@) {
        1
    } else if g.word(p, "if"@) {
        0
    } else {
        -1
    }
}

spec fn at_level(g: Input, pos: int, depth: int, level: int) -> Parsed {
    if level == 0 {
        grammar::condexpr(g, pos, depth)
    } else if level == 1 {
        grammar::or_expr(g, pos, depth)
    } else if level == 2 {
        grammar::and_expr(g, pos, depth)
    } else if level == 3 {
        grammar::not_expr(g, pos, depth)
    } else if level == 4 {
        grammar::compare(g, pos, depth)
    } else if level == 5 {
        grammar::math1(g, pos, depth)
    } else if level == 6 {
        grammar::concat(g, pos, depth)
    } else if level == 7 {
        grammar::math2(g, pos, depth)
    } else if level == 8 {
        grammar::pow(g, pos, depth)
    } else {
        grammar::unary(g, pos, depth, true)
    }
}

spec fn gives(r: Parsed, e: ExprModel, p: int) -> bool {
    r == Ok::<(ExprModel, int), ErrorModel>((e, p))
}

/// The words that go on with an expression are different words.
proof fn words_differ()
    ensures
        "is"@ != "in"@,
        "is"@ != "not"@,
        "is"@ != "and"@,
        "is"@ != "or"@,
        "is"@ != "if"@,
        "in"@ != "not"@,
        "in"@ != "and"@,
        "in"@ != "or"@,
        "in"@ != "if"@,
        "not"@ != "and"@,
        "not"@ != "or"@,
        "not"@ != "if"@,
        "and"@ != "or"@,
        "and"@ != "if"@,
        "or"@ != "if"@,
        "else"@ != "is"@,
        "else"@ != "in"@,
        "else"@ != "not"@,
        "else"@ != "and"@,
        "else"@ != "or"@,
        "else"@ != "if"@,
{
    reveal_strlit("is");
    reveal_strlit("in");
    reveal_strlit("not");
    reveal_strlit("and");
    reveal_strlit("or");
    reveal_strlit("if");
    reveal_strlit("else");
    assert("is"@[1] == 's' && "in"@[1] == 'n' && "or"@[0] == 'o' && "if"@[1] == 'f');
    assert("not"@[0] == 'n' && "and"@[0] == 'a');
    assert("is"@.len() == 2 && "in"@.len() == 2 && "or"@.len() == 2 && "if"@.len() == 2);
    assert("not"@.len() == 3 && "and"@.len() == 3 && "else"@.len() == 4);
}

/// What one level gives, the level above it gives, where nothing of its own follows.
#[verifier::spinoff_prover]
proof fn climb_one(g: Input, pos: int, depth: int, level: int, e: ExprModel, p: int)
    requires
        1 <= level <= 9,
        gives(at_level(g, pos, depth, level), e, p),
        0 <= pos < p < g.len(),
        joins(g, p) < level - 1,
        level <= 4 ==> !g.word(pos, "not"@),
    ensures
        gives(at_level(g, pos, depth, level - 1), e, p),
{
    words_differ();
    if level == 1 {
        reveal(grammar::condexpr);
        reveal(grammar::cond_rest);
        reveal(grammar::or_expr);
    } else if level == 2 {
        reveal(grammar::or_expr);
        reveal(grammar::or_rest);
        reveal(grammar::and_expr);
    } else if level == 3 {
        reveal(grammar::and_expr);
        reveal(grammar::and_rest);
        reveal(grammar::not_expr);
    } else if level == 4 {
        reveal(grammar::not_expr);
        reveal(grammar::compare);
    } else if level == 5 {
        reveal(grammar::compare);
        reveal(grammar::compare_rest);
        reveal(grammar::math1);
    } else if level == 6 {
        reveal(grammar::math1);
        reveal(grammar::math1_rest);
        reveal(grammar::concat);
    } else if level == 7 {
        reveal(grammar::concat);
        reveal(grammar::concat_rest);
        reveal(grammar::math2);
    } else if level == 8 {
        reveal(grammar::math2);
        reveal(grammar::math2_rest);
        reveal(grammar::pow);
    } else {
        reveal(grammar::pow);
        reveal(grammar::pow_rest);
        reveal(grammar::unary);
    }
}

proof fn climb(g: Input, pos: int, depth: int, from: int, to: int, e: ExprModel, p: int)
    requires
        0 <= to <= from <= 9,
        gives(at_level(g, pos, depth, from), e, p),
        0 <= pos < p < g.len(),
        joins(g, p) < to,
        !g.word(pos, "not"@),
    ensures
        gives(at_level(g, pos, depth, to), e, p),
    decreases from - to,
{
    if to < from {
        climb_one(g, pos, depth, from, e, p);
        climb(g, pos, depth, from - 1, to, e, p);
    }
}

/// A variable is an operand of its own.
#[verifier::spinoff_prover]
proof fn operand_of_leaf(g: Input, pos: int, depth: int)
    requires
        variable(g, pos),
    ensures
        gives(grammar::primary(g, pos, depth), leaf(g, pos), pos + 1),
        gives(grammar::operand(g, pos, depth), leaf(g, pos), pos + 1),
{
    reveal(grammar::operand);
    reveal(grammar::primary);
}

#[verifier::spinoff_prover]
proof fn unary_of_leaf(g: Input, pos: int, depth: int)
    requires
        variable(g, pos),
        0 <= pos,
        pos + 1 < g.len(),
        joins(g, pos + 1) < 9,
    ensures
        gives(grammar::unary(g, pos, depth, true), leaf(g, pos), pos + 1),
        gives(grammar::unary(g, pos, depth, false), leaf(g, pos), pos + 1),
{
    operand_of_leaf(g, pos, depth);
    reveal(grammar::unary);
    reveal(grammar::operand);
    reveal(grammar::postfix);
    reveal(grammar::filtered);
}

proof fn level_of_leaf(g: Input, pos: int, depth: int, level: int)
    requires
        variable(g, pos),
        0 <= pos,
        pos + 1 < g.len(),
        0 <= level <= 9,
        joins(g, pos + 1) < level,
    ensures
        gives(at_level(g, pos, depth, level), leaf(g, pos), pos + 1),
{
    unary_of_leaf(g, pos, depth);
    climb(g, pos, depth, 9, level, leaf(g, pos), pos + 1);
}

/// What the tokens up to the end are at some level, the text is.
proof fn whole(src: Seq<char>, g: Input, n: int, level: int, e: ExprModel)
    requires
        tokens(src, g, n),
        0 < n,
        0 <= level <= 9,
        gives(at_level(g, 0, 1, level), e, n),
        !g.word(0, "not"@) || level == 0,
    ensures
        grammar::parsed(src) == Ok::<ExprModel, ErrorModel>(e),
{
    if level > 0 {
        climb(g, 0, 1, level, 0, e, n);
    }
    reveal(grammar::expression);
    reveal(grammar::condexpr);
}

#[verifier::spinoff_prover]
proof fn joined_by_or(g: Input, pos: int, depth: int, op: BinOp)
    requires
        op == BinOp::Or,
        0 <= pos,
        operator_at(g, pos + 1, op),
        g.is(pos + 3, Kind::Eof),
        gives(at_level(g, pos, depth, reading::tightness(op) + 1), leaf(g, pos), pos + 1),
        gives(at_level(g, pos + 2, depth, reading::tightness(op) + 1), leaf(g, pos + 2), pos + 3),
    ensures
        gives(
            at_level(g, pos, depth, reading::tightness(op)),
            grammar::bin(g, pos, pos + 3, op, leaf(g, pos), leaf(g, pos + 2)),
            pos + 3,
        ),
{
    reveal(grammar::or_expr);
    reveal_with_fuel(grammar::or_rest, 2);
    reveal(grammar::and_expr);
}

#[verifier::spinoff_prover]
proof fn joined_by_and(g: Input, pos: int, depth: int, op: BinOp)
    requires
        op == BinOp::And,
        0 <= pos,
        operator_at(g, pos + 1, op),
        g.is(pos + 3, Kind::Eof),
        gives(at_level(g, pos, depth, reading::tightness(op) + 1), leaf(g, pos), pos + 1),
        gives(at_level(g, pos + 2, depth, reading::tightness(op) + 1), leaf(g, pos + 2), pos + 3),
    ensures
        gives(
            at_level(g, pos, depth, reading::tightness(op)),
            grammar::bin(g, pos, pos + 3, op, leaf(g, pos), leaf(g, pos + 2)),
            pos + 3,
        ),
{
    reveal(grammar::and_expr);
    reveal_with_fuel(grammar::and_rest, 2);
    reveal(grammar::not_expr);
}

#[verifier::spinoff_prover]
proof fn joined_by_sum(g: Input, pos: int, depth: int, op: BinOp)
    requires
        reading::tightness(op) == 5,
        0 <= pos,
        operator_at(g, pos + 1, op),
        g.is(pos + 3, Kind::Eof),
        gives(at_level(g, pos, depth, reading::tightness(op) + 1), leaf(g, pos), pos + 1),
        gives(at_level(g, pos + 2, depth, reading::tightness(op) + 1), leaf(g, pos + 2), pos + 3),
    ensures
        gives(
            at_level(g, pos, depth, reading::tightness(op)),
            grammar::bin(g, pos, pos + 3, op, leaf(g, pos), leaf(g, pos + 2)),
            pos + 3,
        ),
{
    reveal(grammar::math1);
    reveal_with_fuel(grammar::math1_rest, 2);
    reveal(grammar::concat);
}

#[verifier::spinoff_prover]
proof fn joined_by_product(g: Input, pos: int, depth: int, op: BinOp)
    requires
        reading::tightness(op) == 7,
        0 <= pos,
        operator_at(g, pos + 1, op),
        g.is(pos + 3, Kind::Eof),
        gives(at_level(g, pos, depth, reading::tightness(op) + 1), leaf(g, pos), pos + 1),
        gives(at_level(g, pos + 2, depth, reading::tightness(op) + 1), leaf(g, pos + 2), pos + 3),
    ensures
        gives(
            at_level(g, pos, depth, reading::tightness(op)),
            grammar::bin(g, pos, pos + 3, op, leaf(g, pos), leaf(g, pos + 2)),
            pos + 3,
        ),
{
    reveal(grammar::math2);
    reveal_with_fuel(grammar::math2_rest, 2);
    reveal(grammar::pow);
}

#[verifier::spinoff_prover]
proof fn joined_by_power(g: Input, pos: int, depth: int, op: BinOp)
    requires
        op == BinOp::Pow,
        0 <= pos,
        operator_at(g, pos + 1, op),
        g.is(pos + 3, Kind::Eof),
        gives(at_level(g, pos, depth, reading::tightness(op) + 1), leaf(g, pos), pos + 1),
        gives(at_level(g, pos + 2, depth, reading::tightness(op) + 1), leaf(g, pos + 2), pos + 3),
    ensures
        gives(
            at_level(g, pos, depth, reading::tightness(op)),
            grammar::bin(g, pos, pos + 3, op, leaf(g, pos), leaf(g, pos + 2)),
            pos + 3,
        ),
{
    reveal(grammar::pow);
    reveal_with_fuel(grammar::pow_rest, 2);
    reveal(grammar::unary);
}

#[verifier::spinoff_prover]
proof fn joined(g: Input, pos: int, depth: int, op: BinOp)
    requires
        variable(g, pos),
        operator_at(g, pos + 1, op),
        variable(g, pos + 2),
        0 <= pos,
        g.is(pos + 3, Kind::Eof),
    ensures
        gives(
            at_level(g, pos, depth, reading::tightness(op)),
            grammar::bin(g, pos, pos + 3, op, leaf(g, pos), leaf(g, pos + 2)),
            pos + 3,
        ),
{
    let level = reading::tightness(op);
    assert(joins(g, pos + 1) == level) by {
        words_differ();
    }
    level_of_leaf(g, pos, depth, level + 1);
    level_of_leaf(g, pos + 2, depth, level + 1);
    match op {
        BinOp::Or => joined_by_or(g, pos, depth, op),
        BinOp::And => joined_by_and(g, pos, depth, op),
        BinOp::Add | BinOp::Sub => joined_by_sum(g, pos, depth, op),
        BinOp::Pow => joined_by_power(g, pos, depth, op),
        _ => joined_by_product(g, pos, depth, op),
    }
}

#[verifier::spinoff_prover]
proof fn compared(g: Input, pos: int, depth: int, op: CmpOp)
    requires
        variable(g, pos),
        compared_at(g, pos + 1, op),
        variable(g, pos + 1 + comparison_size(op)),
        0 <= pos,
        g.is(pos + 2 + comparison_size(op), Kind::Eof),
    ensures
        gives(
            grammar::compare(g, pos, depth),
            grammar::node(
                g,
                pos,
                pos + 2 + comparison_size(op),
                KindModel::Compare(
                    Box::new(leaf(g, pos)),
                    seq![(op, leaf(g, pos + 1 + comparison_size(op)))],
                ),
            ),
            pos + 2 + comparison_size(op),
        ),
{
    words_differ();
    let k = comparison_size(op);
    assert(grammar::comparison_at(g, pos + 1) == Some((op, k)));
    level_of_leaf(g, pos, depth, 5);
    level_of_leaf(g, pos + 1 + k, depth, 5);
    reveal(grammar::compare);
    reveal_with_fuel(grammar::compare_rest, 2);
    reveal(grammar::math1);
    let right = leaf(g, pos + 1 + k);
    assert(Seq::<(CmpOp, ExprModel)>::empty().push((op, right)) =~= seq![(op, right)]);
}

// ------------------------------------------------------------------ what is promised

/// Two variables with an operator between them are that operator on the two, in this order.
pub proof fn two_names_joined(src: Seq<char>, g: Input, op: BinOp)
    requires
        tokens(src, g, 3),
        variable(g, 0),
        operator_at(g, 1, op),
        variable(g, 2),
    ensures
        grammar::parsed(src) is Ok,
        grammar::parsed(src)->Ok_0.kind == KindModel::Bin(
            op,
            Box::new(leaf(g, 0)),
            Box::new(leaf(g, 2)),
        ),
{
    let e = grammar::bin(g, 0, 3, op, leaf(g, 0), leaf(g, 2));
    joined(g, 0, 1, op);
    whole(src, g, 3, reading::tightness(op), e);
}

/// Two variables with a comparison between them are that comparison of the first with the second.
pub proof fn two_names_compared(src: Seq<char>, g: Input, op: CmpOp)
    requires
        tokens(src, g, 2 + comparison_size(op)),
        variable(g, 0),
        compared_at(g, 1, op),
        variable(g, 1 + comparison_size(op)),
    ensures
        grammar::parsed(src) is Ok,
        grammar::parsed(src)->Ok_0.kind == KindModel::Compare(
            Box::new(leaf(g, 0)),
            seq![(op, leaf(g, 1 + comparison_size(op)))],
        ),
{
    let n = 2 + comparison_size(op);
    compared(g, 0, 1, op);
    whole(src, g, n, 4, grammar::compare(g, 0, 1)->Ok_0.0);
}

/// A variable alone is itself.
pub proof fn a_name_alone(src: Seq<char>, g: Input)
    requires
        tokens(src, g, 1),
        variable(g, 0),
    ensures
        grammar::parsed(src) == Ok::<ExprModel, ErrorModel>(leaf(g, 0)),
{
    level_of_leaf(g, 0, 1, 0);
    whole(src, g, 1, 0, leaf(g, 0));
}

/// Two variables with a `~` between them are joined as texts.
pub proof fn two_names_concatenated(src: Seq<char>, g: Input)
    requires
        tokens(src, g, 3),
        variable(g, 0),
        g.is(1, Kind::Tilde),
        variable(g, 2),
    ensures
        grammar::parsed(src) is Ok,
        grammar::parsed(src)->Ok_0.kind == KindModel::Concat(seq![leaf(g, 0), leaf(g, 2)]),
{
    concatenated(g, 0, 1);
    whole(src, g, 3, 6, grammar::concat(g, 0, 1)->Ok_0.0);
}

#[verifier::spinoff_prover]
proof fn concatenated(g: Input, pos: int, depth: int)
    requires
        variable(g, pos),
        g.is(pos + 1, Kind::Tilde),
        variable(g, pos + 2),
        0 <= pos,
        g.is(pos + 3, Kind::Eof),
    ensures
        gives(
            grammar::concat(g, pos, depth),
            grammar::node(
                g,
                pos,
                pos + 3,
                KindModel::Concat(seq![leaf(g, pos), leaf(g, pos + 2)]),
            ),
            pos + 3,
        ),
{
    level_of_leaf(g, pos, depth, 7);
    level_of_leaf(g, pos + 2, depth, 7);
    reveal(grammar::concat);
    reveal_with_fuel(grammar::concat_rest, 2);
    reveal(grammar::math2);
    let a = leaf(g, pos);
    let b = leaf(g, pos + 2);
    assert(seq![a].push(b) =~= seq![a, b]);
}

/// `not` before a variable negates it.
pub proof fn a_name_negated(src: Seq<char>, g: Input)
    requires
        tokens(src, g, 2),
        reading::says(g, 0, "not"@),
        variable(g, 1),
    ensures
        grammar::parsed(src) is Ok,
        grammar::parsed(src)->Ok_0.kind == KindModel::Unary(UnOp::Not, Box::new(leaf(g, 1))),
{
    negated(g, 0, 1);
    let e = grammar::node(g, 0, 2, KindModel::Unary(UnOp::Not, Box::new(leaf(g, 1))));
    negated_climbs(g, 0, 1, e, 2);
    whole(src, g, 2, 0, e);
}

#[verifier::spinoff_prover]
proof fn negated(g: Input, pos: int, depth: int)
    requires
        reading::says(g, pos, "not"@),
        variable(g, pos + 1),
        0 <= pos,
        g.is(pos + 2, Kind::Eof),
        depth + 1 < grammar::MAX_DEPTH,
    ensures
        gives(
            grammar::not_expr(g, pos, depth),
            grammar::node(
                g,
                pos,
                pos + 2,
                KindModel::Unary(UnOp::Not, Box::new(leaf(g, pos + 1))),
            ),
            pos + 2,
        ),
{
    level_of_leaf(g, pos + 1, depth + 1, 3);
    reveal_with_fuel(grammar::not_expr, 2);
}

#[verifier::spinoff_prover]
proof fn negated_climbs(g: Input, pos: int, depth: int, e: ExprModel, p: int)
    requires
        gives(grammar::not_expr(g, pos, depth), e, p),
        0 <= pos < p < g.len(),
        g.is(p, Kind::Eof),
    ensures
        gives(grammar::condexpr(g, pos, depth), e, p),
{
    assert(gives(grammar::and_expr(g, pos, depth), e, p)) by {
        reveal(grammar::and_expr);
        reveal(grammar::and_rest);
        reveal(grammar::not_expr);
    }
    assert(gives(grammar::or_expr(g, pos, depth), e, p)) by {
        reveal(grammar::or_expr);
        reveal(grammar::or_rest);
        reveal(grammar::and_expr);
    }
    assert(gives(grammar::condexpr(g, pos, depth), e, p)) by {
        reveal(grammar::condexpr);
        reveal(grammar::cond_rest);
        reveal(grammar::or_expr);
    }
}

/// `-` before a variable is its negative, `+` its positive.
pub proof fn a_name_signed(src: Seq<char>, g: Input, op: UnOp)
    requires
        tokens(src, g, 2),
        op == UnOp::Neg && g.is(0, Kind::Sub) || op == UnOp::Pos && g.is(0, Kind::Add),
        variable(g, 1),
    ensures
        grammar::parsed(src) is Ok,
        grammar::parsed(src)->Ok_0.kind == KindModel::Unary(op, Box::new(leaf(g, 1))),
{
    signed(g, 0, 1, op);
    whole(
        src,
        g,
        2,
        9,
        grammar::node(g, 0, 2, KindModel::Unary(op, Box::new(leaf(g, 1)))),
    );
}

#[verifier::spinoff_prover]
proof fn signed(g: Input, pos: int, depth: int, op: UnOp)
    requires
        op == UnOp::Neg && g.is(pos, Kind::Sub) || op == UnOp::Pos && g.is(pos, Kind::Add),
        variable(g, pos + 1),
        0 <= pos,
        g.is(pos + 2, Kind::Eof),
        depth + 1 < grammar::MAX_DEPTH,
    ensures
        gives(
            grammar::unary(g, pos, depth, true),
            grammar::node(g, pos, pos + 2, KindModel::Unary(op, Box::new(leaf(g, pos + 1)))),
            pos + 2,
        ),
{
    unary_of_leaf(g, pos + 1, depth + 1);
    let e = grammar::node(g, pos, pos + 2, KindModel::Unary(op, Box::new(leaf(g, pos + 1))));
    assert(gives(grammar::operand(g, pos, depth), e, pos + 2)) by {
        reveal(grammar::operand);
        reveal(grammar::unary);
    }
    goes_no_further(g, pos, pos + 2, depth, e);
    unary_is_operand(g, pos, depth, e, pos + 2);
}

/// An operand with nothing behind it is what it is.
#[verifier::spinoff_prover]
proof fn unary_is_operand(g: Input, pos: int, depth: int, e: ExprModel, p: int)
    requires
        gives(grammar::operand(g, pos, depth), e, p),
        0 <= pos < p < g.len(),
        gives(grammar::postfix(g, pos, p, depth, e), e, p),
        gives(grammar::filtered(g, pos, p, depth, e), e, p),
    ensures
        gives(grammar::unary(g, pos, depth, true), e, p),
{
    reveal(grammar::unary);
    reveal(grammar::operand);
    reveal(grammar::postfix);
    reveal(grammar::filtered);
}

proof fn goes_no_further(g: Input, start: int, p: int, depth: int, e: ExprModel)
    requires
        g.is(p, Kind::Eof),
    ensures
        gives(grammar::postfix(g, start, p, depth, e), e, p),
        gives(grammar::filtered(g, start, p, depth, e), e, p),
{
    reveal(grammar::postfix);
    reveal(grammar::filtered);
}

/// A variable with accessors behind it.
#[verifier::spinoff_prover]
proof fn unary_of_accessed(g: Input, pos: int, depth: int, e: ExprModel, p: int)
    requires
        variable(g, pos),
        0 <= pos,
        pos + 1 < p,
        g.is(p, Kind::Eof),
        g.is(pos + 1, Kind::Dot) || g.is(pos + 1, Kind::Lbracket) ==> gives(
            grammar::subscript(g, pos, pos + 1, depth, leaf(g, pos)),
            e,
            p,
        ),
        g.is(pos + 1, Kind::Lparen) ==> gives(
            grammar::call(g, pos, pos + 1, depth, leaf(g, pos)),
            e,
            p,
        ),
        g.is(pos + 1, Kind::Dot) || g.is(pos + 1, Kind::Lbracket) || g.is(pos + 1, Kind::Lparen),
    ensures
        gives(grammar::unary(g, pos, depth, true), e, p),
{
    operand_of_leaf(g, pos, depth);
    goes_no_further(g, pos, p, depth, e);
    assert(gives(grammar::postfix(g, pos, pos + 1, depth, leaf(g, pos)), e, p)) by {
        reveal_with_fuel(grammar::postfix, 2);
        reveal(grammar::subscript);
        reveal(grammar::call);
    }
    reveal(grammar::unary);
    reveal(grammar::operand);
    reveal(grammar::postfix);
    reveal(grammar::filtered);
}

/// A variable, a dot and a name are that attribute of it.
pub proof fn an_attribute_of_a_name(src: Seq<char>, g: Input)
    requires
        tokens(src, g, 3),
        variable(g, 0),
        g.is(1, Kind::Dot),
        reading::name_at(g, 2),
    ensures
        grammar::parsed(src) is Ok,
        grammar::parsed(src)->Ok_0.kind == KindModel::Getattr(
            Box::new(leaf(g, 0)),
            reading::text_at(g, 2),
        ),
{
    let e = grammar::node(
        g,
        0,
        3,
        KindModel::Getattr(Box::new(leaf(g, 0)), reading::text_at(g, 2)),
    );
    assert(gives(grammar::subscript(g, 0, 1, 1, leaf(g, 0)), e, 3)) by {
        reveal(grammar::subscript);
    }
    unary_of_accessed(g, 0, 1, e, 3);
    whole(src, g, 3, 9, e);
}

/// A variable with another in brackets behind it is that item of it.
pub proof fn an_item_of_a_name(src: Seq<char>, g: Input)
    requires
        tokens(src, g, 4),
        variable(g, 0),
        g.is(1, Kind::Lbracket),
        variable(g, 2),
        g.is(3, Kind::Rbracket),
    ensures
        grammar::parsed(src) is Ok,
        grammar::parsed(src)->Ok_0.kind == KindModel::Getitem(
            Box::new(leaf(g, 0)),
            Box::new(leaf(g, 2)),
        ),
{
    let e = grammar::node(
        g,
        0,
        4,
        KindModel::Getitem(Box::new(leaf(g, 0)), Box::new(leaf(g, 2))),
    );
    expression_of_leaf(g, 2, 1);
    subscript_of_leaf(g, 0, 1, 1, leaf(g, 0));
    unary_of_accessed(g, 0, 1, e, 4);
    whole(src, g, 4, 9, e);
}

/// A variable before what ends an expression is that expression.
#[verifier::spinoff_prover]
proof fn expression_of_leaf(g: Input, pos: int, depth: int)
    requires
        variable(g, pos),
        0 <= pos,
        pos + 1 < g.len(),
        joins(g, pos + 1) == -1,
        depth < grammar::MAX_DEPTH,
    ensures
        gives(grammar::expression(g, pos, depth), leaf(g, pos), pos + 1),
{
    level_of_leaf(g, pos, depth + 1, 0);
    reveal(grammar::expression);
    reveal(grammar::condexpr);
}

#[verifier::spinoff_prover]
proof fn subscript_of_leaf(g: Input, start: int, pos: int, depth: int, e: ExprModel)
    requires
        0 <= start,
        0 <= pos,
        g.is(pos, Kind::Lbracket),
        variable(g, pos + 1),
        g.is(pos + 2, Kind::Rbracket),
        pos + 3 < g.len(),
        gives(grammar::expression(g, pos + 1, depth), leaf(g, pos + 1), pos + 2),
    ensures
        gives(
            grammar::subscript(g, start, pos, depth, e),
            grammar::node(
                g,
                start,
                pos + 3,
                KindModel::Getitem(Box::new(e), Box::new(leaf(g, pos + 1))),
            ),
            pos + 3,
        ),
{
    let arg = leaf(g, pos + 1);
    assert(gives(grammar::subscribed(g, pos + 1, depth), arg, pos + 2)) by {
        reveal(grammar::subscribed);
        reveal(grammar::expression);
    }
    assert(Seq::<ExprModel>::empty().push(arg) =~= seq![arg]);
    reveal(grammar::subscript);
    reveal_with_fuel(grammar::subscripts, 2);
    reveal(grammar::subscribed);
}

/// A variable with empty parentheses behind it is a call of it.
pub proof fn a_call_of_a_name(src: Seq<char>, g: Input)
    requires
        tokens(src, g, 3),
        variable(g, 0),
        g.is(1, Kind::Lparen),
        g.is(2, Kind::Rparen),
    ensures
        grammar::parsed(src) is Ok,
        grammar::parsed(src)->Ok_0.kind == KindModel::Call(Box::new(leaf(g, 0)), ast::no_args()),
{
    let e = grammar::node(g, 0, 3, KindModel::Call(Box::new(leaf(g, 0)), ast::no_args()));
    assert(gives(grammar::call(g, 0, 1, 1, leaf(g, 0)), e, 3)) by {
        reveal(grammar::call);
        reveal(grammar::call_args);
        reveal(grammar::args_rest);
    }
    unary_of_accessed(g, 0, 1, e, 3);
    whole(src, g, 3, 9, e);
}

/// A variable, a pipe and a name are that filter on it.
pub proof fn a_filter_on_a_name(src: Seq<char>, g: Input)
    requires
        tokens(src, g, 3),
        variable(g, 0),
        g.is(1, Kind::Pipe),
        reading::name_at(g, 2),
    ensures
        grammar::parsed(src) is Ok,
        grammar::parsed(src)->Ok_0.kind == KindModel::Filter(
            Box::new(leaf(g, 0)),
            reading::text_at(g, 2),
            ast::no_args(),
        ),
{
    let e = grammar::node(
        g,
        0,
        3,
        KindModel::Filter(Box::new(leaf(g, 0)), reading::text_at(g, 2), ast::no_args()),
    );
    assert(gives(grammar::filter(g, 0, 1, 1, leaf(g, 0)), e, 3)) by {
        reveal_with_fuel(grammar::filter, 2);
        reveal(grammar::dotted_rest);
        reveal(grammar::optional_args);
    }
    unary_of_filtered(g, 0, 1, e, 3);
    whole(src, g, 3, 9, e);
}

#[verifier::spinoff_prover]
proof fn unary_of_filtered(g: Input, pos: int, depth: int, e: ExprModel, p: int)
    requires
        variable(g, pos),
        0 <= pos,
        pos + 1 < p,
        g.is(p, Kind::Eof),
        g.is(pos + 1, Kind::Pipe) ==> gives(
            grammar::filter(g, pos, pos + 1, depth, leaf(g, pos)),
            e,
            p,
        ),
        g.word(pos + 1, "is"@) ==> gives(
            grammar::test(g, pos, pos + 1, depth, leaf(g, pos)),
            e,
            p,
        ),
        g.is(pos + 1, Kind::Pipe) || g.word(pos + 1, "is"@),
    ensures
        gives(grammar::unary(g, pos, depth, true), e, p),
{
    operand_of_leaf(g, pos, depth);
    goes_no_further(g, pos, p, depth, e);
    let x = leaf(g, pos);
    assert(gives(grammar::postfix(g, pos, pos + 1, depth, x), x, pos + 1)) by {
        reveal(grammar::postfix);
    }
    assert(gives(grammar::filtered(g, pos, pos + 1, depth, x), e, p)) by {
        reveal_with_fuel(grammar::filtered, 2);
        reveal(grammar::filter);
        reveal(grammar::test);
    }
    reveal(grammar::unary);
    reveal(grammar::operand);
    reveal(grammar::postfix);
    reveal(grammar::filtered);
}

/// A variable, `is` and a name are that test of it; with `not` between, the test negated.
pub proof fn a_test_of_a_name(src: Seq<char>, g: Input, negated: bool)
    requires
        tokens(
            src,
            g,
            if negated {
                4
            } else {
                3
            },
        ),
        variable(g, 0),
        reading::says(g, 1, "is"@),
        negated ==> reading::says(g, 2, "not"@) && reading::name_at(g, 3),
        !negated ==> reading::name_at(g, 2) && reading::text_at(g, 2) != "not"@,
    ensures
        grammar::parsed(src) is Ok,
        !negated ==> grammar::parsed(src)->Ok_0.kind == KindModel::Test(
            Box::new(leaf(g, 0)),
            reading::text_at(g, 2),
            ast::no_args(),
        ),
        negated ==> match grammar::parsed(src)->Ok_0.kind {
            KindModel::Unary(op, t) => op == UnOp::Not && t.kind == KindModel::Test(
                Box::new(leaf(g, 0)),
                reading::text_at(g, 3),
                ast::no_args(),
            ),
            _ => false,
        },
{
    let n = if negated {
        4int
    } else {
        3int
    };
    let t = grammar::node(
        g,
        0,
        n,
        KindModel::Test(Box::new(leaf(g, 0)), reading::text_at(g, n - 1), ast::no_args()),
    );
    let e = if negated {
        grammar::node(g, 0, n, KindModel::Unary(UnOp::Not, Box::new(t)))
    } else {
        t
    };
    assert(gives(grammar::test(g, 0, 1, 1, leaf(g, 0)), e, n)) by {
        reveal(grammar::test);
        reveal(grammar::dotted_rest);
        reveal(grammar::test_args);
    }
    unary_of_filtered(g, 0, 1, e, n);
    whole(src, g, n, 9, e);
}

/// A variable, `if` and a second one are the first where the second holds; with `else` and a third
/// one behind, the third where it does not.
pub proof fn a_choice_between_names(src: Seq<char>, g: Input, chosen: bool)
    requires
        tokens(
            src,
            g,
            if chosen {
                5
            } else {
                3
            },
        ),
        variable(g, 0),
        reading::says(g, 1, "if"@),
        variable(g, 2),
        chosen ==> reading::says(g, 3, "else"@) && variable(g, 4),
    ensures
        grammar::parsed(src) is Ok,
        grammar::parsed(src)->Ok_0.kind == KindModel::CondExpr(
            Box::new(leaf(g, 2)),
            Box::new(leaf(g, 0)),
            if chosen {
                Some(Box::new(leaf(g, 4)))
            } else {
                None
            },
        ),
{
    words_differ();
    level_of_leaf(g, 0, 1, 1);
    level_of_leaf(g, 2, 1, 1);
    if chosen {
        level_of_leaf(g, 4, 1, 0);
    }
    chosen_between(g, chosen);
    whole(
        src,
        g,
        if chosen {
            5
        } else {
            3
        },
        0,
        grammar::condexpr(g, 0, 1)->Ok_0.0,
    );
}

#[verifier::spinoff_prover]
proof fn chosen_between(g: Input, chosen: bool)
    requires
        g.word(1, "if"@),
        g.is(
            if chosen {
                5
            } else {
                3
            },
            Kind::Eof,
        ),
        chosen ==> g.word(3, "else"@),
        gives(grammar::or_expr(g, 0, 1), leaf(g, 0), 1),
        gives(grammar::or_expr(g, 2, 1), leaf(g, 2), 3),
        chosen ==> gives(grammar::condexpr(g, 4, 1), leaf(g, 4), 5),
    ensures
        ({
            let n = if chosen {
                5int
            } else {
                3int
            };
            gives(
                grammar::condexpr(g, 0, 1),
                grammar::node(
                    g,
                    0,
                    n,
                    KindModel::CondExpr(
                        Box::new(leaf(g, 2)),
                        Box::new(leaf(g, 0)),
                        if chosen {
                            Some(Box::new(leaf(g, 4)))
                        } else {
                            None
                        },
                    ),
                ),
                n,
            )
        }),
{
    let n = if chosen {
        5int
    } else {
        3int
    };
    let other = if chosen {
        Some(Box::new(leaf(g, 4)))
    } else {
        None
    };
    let e = grammar::node(
        g,
        0,
        n,
        KindModel::CondExpr(Box::new(leaf(g, 2)), Box::new(leaf(g, 0)), other),
    );
    assert(gives(grammar::cond_rest(g, 0, n, 1, e), e, n)) by {
        reveal(grammar::cond_rest);
    }
    reveal(grammar::condexpr);
    reveal(grammar::cond_rest);
    reveal(grammar::or_expr);
    if chosen {
        assert(grammar::moved(g, 4, grammar::condexpr(g, 4, 1)) == grammar::condexpr(g, 4, 1));
    }
    assert(grammar::moved(g, 2, grammar::or_expr(g, 2, 1)) == grammar::or_expr(g, 2, 1));
    assert(grammar::cond_rest(g, 0, 1, 1, leaf(g, 0)) == grammar::cond_rest(g, 0, n, 1, e));
}

} // verus!
