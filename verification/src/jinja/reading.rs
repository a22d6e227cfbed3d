//! Reading a tree back: the tokens that a tree was parsed from are a spelling of it, and the only
//! brackets that the spelling may leave out are those that the precedence of the operators makes
//! unnecessary.
//!
//! The spelling of a node is stated over the tree and over the bytes of the text. Each operator has
//! its own sign or word; each part of a node stands in its place, spans its own tokens, and binds at
//! least as tightly as its place asks for.

use crate::jinja::ast::{self, ArgsModel, BinOp, CmpOp, ConstModel, ExprModel, KindModel, UnOp};
use crate::jinja::breadth;
use crate::jinja::cover;
use crate::jinja::grammar::{self, Input, Parsed, ParsedArgs, ParsedText};
use crate::jinja::lexer::{self, ErrorModel, Kind, Token};
use vstd::prelude::*;
use vstd::utf8::encode_utf8;

verus! {

// ------------------------------------------------------------------ signs and words

/// The bytes of a token, each as a character.
pub open spec fn bytes_at(g: Input, i: int) -> Seq<char> {
    encode_utf8(g.src).subrange(
        g.toks[i].span.start as int,
        g.toks[i].span.end as int,
    ).map_values(|b: u8| b as char)
}

/// Is the token at `i` this sign?
pub open spec fn mark(g: Input, i: int, sign: Seq<char>) -> bool {
    0 <= i < g.toks.len() && bytes_at(g, i) == sign
}

/// Is the token at `i` a name?
pub open spec fn name_at(g: Input, i: int) -> bool {
    0 <= i < g.toks.len() && g.toks[i].kind == Kind::Name
}

/// The text of the token at `i`.
pub open spec fn text_at(g: Input, i: int) -> Seq<char> {
    lexer::covered(g.src, g.toks[i].span)
}

/// Is the token at `i` this word?
pub open spec fn says(g: Input, i: int, word: Seq<char>) -> bool {
    name_at(g, i) && text_at(g, i) == word
}

/// How the tokens are spelled that have one spelling.
pub open spec fn sign_of(kind: Kind) -> Option<Seq<char>> {
    match kind {
        Kind::Add => Some(seq!['+']),
        Kind::Sub => Some(seq!['-']),
        Kind::Mul => Some(seq!['*']),
        Kind::Div => Some(seq!['/']),
        Kind::FloorDiv => Some(seq!['/', '/']),
        Kind::Mod => Some(seq!['%']),
        Kind::Pow => Some(seq!['*', '*']),
        Kind::Tilde => Some(seq!['~']),
        Kind::Eq => Some(seq!['=', '=']),
        Kind::Ne => Some(seq!['!', '=']),
        Kind::Gt => Some(seq!['>']),
        Kind::Gteq => Some(seq!['>', '=']),
        Kind::Lt => Some(seq!['<']),
        Kind::Lteq => Some(seq!['<', '=']),
        Kind::Assign => Some(seq!['=']),
        Kind::Dot => Some(seq!['.']),
        Kind::Comma => Some(seq![',']),
        Kind::Colon => Some(seq![':']),
        Kind::Semicolon => Some(seq![';']),
        Kind::Pipe => Some(seq!['|']),
        Kind::Lparen => Some(seq!['(']),
        Kind::Rparen => Some(seq![')']),
        Kind::Lbracket => Some(seq!['[']),
        Kind::Rbracket => Some(seq![']']),
        Kind::Lbrace => Some(seq!['{']),
        Kind::Rbrace => Some(seq!['}']),
        Kind::Name | Kind::Str | Kind::Int | Kind::Float | Kind::Eof => None,
    }
}

/// Is every token spelled as its kind says?
pub open spec fn spelled(g: Input) -> bool {
    forall|i: int|
        0 <= i < g.toks.len() && sign_of((#[trigger] g.toks[i]).kind) is Some ==> bytes_at(g, i)
            == sign_of(g.toks[i].kind)->0
}

/// How a comparison is written, where it is written as a sign.
pub open spec fn comparison_sign(op: CmpOp) -> Seq<char> {
    match op {
        CmpOp::Eq => seq!['=', '='],
        CmpOp::Ne => seq!['!', '='],
        CmpOp::Gt => seq!['>'],
        CmpOp::Gteq => seq!['>', '='],
        CmpOp::Lt => seq!['<'],
        CmpOp::Lteq => seq!['<', '='],
        CmpOp::In | CmpOp::NotIn => Seq::empty(),
    }
}

/// Do the tokens from `m` to `n` write this comparison?
pub open spec fn compares(g: Input, m: int, n: int, op: CmpOp) -> bool {
    match op {
        CmpOp::In => n == m + 1 && says(g, m, "in"@),
        CmpOp::NotIn => n == m + 2 && says(g, m, "not"@) && says(g, m + 1, "in"@),
        _ => n == m + 1 && mark(g, m, comparison_sign(op)),
    }
}

/// Does the token at `m` write this operator?
pub open spec fn operates(g: Input, m: int, op: BinOp) -> bool {
    match op {
        BinOp::Or => says(g, m, "or"@),
        BinOp::And => says(g, m, "and"@),
        BinOp::Add => mark(g, m, seq!['+']),
        BinOp::Sub => mark(g, m, seq!['-']),
        BinOp::Mul => mark(g, m, seq!['*']),
        BinOp::Div => mark(g, m, seq!['/']),
        BinOp::FloorDiv => mark(g, m, seq!['/', '/']),
        BinOp::Mod => mark(g, m, seq!['%']),
        BinOp::Pow => mark(g, m, seq!['*', '*']),
    }
}

/// How tightly an operator binds. A conditional binds least; then come `or`, `and`, `not`, the
/// comparisons, sums, `~`, products, `**`, filters and tests, signs, and accessors.
pub open spec fn tightness(op: BinOp) -> int {
    match op {
        BinOp::Or => 1,
        BinOp::And => 2,
        BinOp::Add | BinOp::Sub => 5,
        BinOp::Mul | BinOp::Div | BinOp::FloorDiv | BinOp::Mod => 7,
        BinOp::Pow => 8,
    }
}

/// Is the word a literal and no variable?
pub open spec fn literal_word(w: Seq<char>) -> bool {
    w == "true"@ || w == "True"@ || w == "false"@ || w == "False"@ || w == "none"@ || w == "None"@
}

/// What the strings from `a` to `b` say, one behind the other.
pub open spec fn strings_text(g: Input, a: int, b: int) -> Option<Seq<char>>
    decreases b - a,
{
    if a >= b {
        Some(Seq::empty())
    } else {
        match (strings_text(g, a, b - 1), lexer::string_at(g.src, g.toks[b - 1].span)) {
            (Some(s), Ok(t)) => if g.toks[b - 1].kind == Kind::Str {
                Some(s + t)
            } else {
                None
            },
            _ => None,
        }
    }
}

/// Do the tokens from `a` to `b` write this constant?
pub open spec fn constant(g: Input, a: int, b: int, c: ConstModel) -> bool {
    match c {
        ConstModel::Bool(v) => b == a + 1 && if v {
            says(g, a, "true"@) || says(g, a, "True"@)
        } else {
            says(g, a, "false"@) || says(g, a, "False"@)
        },
        ConstModel::Null => b == a + 1 && (says(g, a, "none"@) || says(g, a, "None"@)),
        ConstModel::Str(s) => strings_text(g, a, b) == Some(s),
        ConstModel::Int(v) => b == a + 1 && g.toks[a].kind == Kind::Int && exists|n: int|
            lexer::int_at(g.src, g.toks[a].span) == Ok::<int, ErrorModel>(n) && v == #[trigger] (
            n as i64),
        ConstModel::Float(s) => b == a + 1 && g.toks[a].kind == Kind::Float && s
            == lexer::no_underscores(text_at(g, a), text_at(g, a).len() as int),
    }
}

/// A name with dots in it, from `a` to `b`.
pub open spec fn dotted(g: Input, a: int, b: int) -> Option<Seq<char>>
    decreases b - a,
{
    if !name_at(g, b - 1) {
        None
    } else if b == a + 1 {
        Some(text_at(g, a))
    } else if b >= a + 3 && mark(g, b - 2, seq!['.']) {
        match dotted(g, a, b - 2) {
            Some(s) => Some(s.push('.') + text_at(g, b - 1)),
            None => None,
        }
    } else {
        None
    }
}

// ------------------------------------------------------------------ spellings

/// A place among the tokens.
pub open spec fn at(i: int) -> bool {
    true
}

/// Do the tokens from `a` to `b` spell the tree, at a place that asks for this tightness, and does
/// it span them?
#[verifier::opaque]
pub open spec fn part(g: Input, a: int, b: int, e: ExprModel, min: int) -> bool
    decreases b - a, 2int,
{
    e.span == grammar::span_from(g, a, b) && reads(g, a, b, e.kind, min)
}

/// Do the tokens from `a` to `b` spell the node, at a place that asks for this tightness?
#[verifier::opaque]
pub open spec fn reads(g: Input, a: int, b: int, k: KindModel, min: int) -> bool
    decreases b - a, 1int,
{
    &&& 0 <= a < b <= g.toks.len()
    &&& ({
        // Parentheses hold anything.
        ||| a + 1 < b - 1 && mark(g, a, seq!['(']) && mark(g, b - 1, seq![')']) && reads(
            g,
            a + 1,
            b - 1,
            k,
            0,
        )
        ||| match k {
            KindModel::Const(c) => constant(g, a, b, c),
            KindModel::Name(n) => b == a + 1 && says(g, a, n) && !literal_word(n),
            KindModel::List(v) => {
                &&& a + 1 <= b - 1 && mark(g, a, seq!['[']) && mark(g, b - 1, seq![']'])
                &&& {
                    ||| v.len() == 0 && b == a + 2
                    ||| v.len() > 0 && series(g, a + 1, b - 1, v, seq![','], 0)
                    ||| v.len() > 0 && a + 1 < b - 2 && mark(g, b - 2, seq![',']) && series(
                        g,
                        a + 1,
                        b - 2,
                        v,
                        seq![','],
                        0,
                    )
                }
            },
            KindModel::Tuple(v) => {
                &&& a + 1 <= b - 1 && mark(g, a, seq!['(']) && mark(g, b - 1, seq![')'])
                &&& inner_tuple(g, a + 1, b - 1, v)
            },
            KindModel::Dict(v) => {
                &&& a + 1 <= b - 1 && mark(g, a, seq!['{']) && mark(g, b - 1, seq!['}'])
                &&& {
                    ||| v.len() == 0 && b == a + 2
                    ||| v.len() > 0 && entries(g, a + 1, b - 1, v)
                    ||| v.len() > 0 && a + 1 < b - 2 && mark(g, b - 2, seq![',']) && entries(
                        g,
                        a + 1,
                        b - 2,
                        v,
                    )
                }
            },
            KindModel::Getattr(e, name) => {
                &&& min <= 11 && a < b - 2 && mark(g, b - 2, seq!['.']) && says(g, b - 1, name)
                &&& part(g, a, b - 2, *e, 11)
            },
            KindModel::Getitem(e, arg) => {
                ||| min <= 11 && a < b - 2 && mark(g, b - 2, seq!['.']) && part(
                    g,
                    a,
                    b - 2,
                    *e,
                    11,
                ) && arg.span == g.toks[b - 1].span && arg.kind is Const && arg.kind->Const_0 is Int
                    && constant(g, b - 1, b, arg.kind->Const_0)
                ||| min <= 11 && exists|m: int|
                    #[trigger] at(m) && a < m < b - 1 && part(g, a, m, *e, 11) && mark(g, m, seq!['['])
                        && mark(g, b - 1, seq![']']) && index(g, m + 1, b - 1, *arg)
            },
            KindModel::Slice(..) => false,
            KindModel::Filter(e, name, args) => min <= 9 && exists|m: int, c: int|
                #[trigger] at(m) && #[trigger] at(c) && a < m < c <= b && part(g, a, m, *e, 9) && mark(g, m, seq!['|'])
                    && dotted(g, m + 1, c) == Some(name) && if c == b {
                    args == ast::no_args()
                } else {
                    called(g, c, b, args)
                },
            KindModel::Test(e, name, args) => min <= 9 && exists|m: int, c: int|
                #[trigger] at(m) && #[trigger] at(c) && a < m < c <= b && part(g, a, m, *e, 9) && says(g, m, "is"@)
                    && dotted(g, m + 1, c) == Some(name) && tested(g, c, b, args),
            KindModel::Call(e, args) => exists|m: int, low: int|
                #[trigger] at(m) && #[trigger] at(low) && a < m < b && (low == 11 || low == 9) && min <= low && part(
                    g,
                    a,
                    m,
                    *e,
                    low,
                ) && called(g, m, b, args),
            KindModel::Compare(e, ops) => min <= 4 && ops.len() > 0 && chain(g, a, b, *e, ops),
            KindModel::Concat(v) => min <= 6 && v.len() >= 2 && series(g, a, b, v, seq!['~'], 7),
            KindModel::CondExpr(test, value, or_else) => min <= 0 && exists|m: int, c: int|
                #[trigger] at(m) && #[trigger] at(c) && a < m < c <= b && part(g, a, m, *value, 0) && says(g, m, "if"@)
                    && part(g, m + 1, c, *test, 1) && match or_else {
                    None => c == b,
                    Some(alt) => c + 1 < b && says(g, c, "else"@) && part(g, c + 1, b, *alt, 0),
                },
            KindModel::Bin(op, l, r) => min <= tightness(op) && exists|m: int|
                #[trigger] at(m) && a < m < b - 1 && part(g, a, m, *l, tightness(op)) && operates(g, m, op)
                    && part(g, m + 1, b, *r, tightness(op) + 1),
            KindModel::Unary(op, e) => match op {
                UnOp::Not => {
                    ||| min <= 3 && a + 1 < b && says(g, a, "not"@) && part(g, a + 1, b, *e, 3)
                    ||| min <= 9 && e.span == grammar::span_from(g, a, b) && e.kind is Test
                        && exists|m: int, c: int|
                        #[trigger] at(m) && #[trigger] at(c) && a < m && m + 1 < c <= b && part(g, a, m, *e.kind->Test_0, 9)
                            && says(g, m, "is"@) && says(g, m + 1, "not"@) && dotted(
                            g,
                            m + 2,
                            c,
                        ) == Some(e.kind->Test_1) && tested(g, c, b, e.kind->Test_2)
                },
                UnOp::Neg => min <= 10 && a + 1 < b && mark(g, a, seq!['-']) && part(
                    g,
                    a + 1,
                    b,
                    *e,
                    10,
                ),
                UnOp::Pos => min <= 10 && a + 1 < b && mark(g, a, seq!['+']) && part(
                    g,
                    a + 1,
                    b,
                    *e,
                    10,
                ),
            },
        }
    })
}

/// Trees with a sign between them.
#[verifier::opaque]
pub open spec fn series(g: Input, a: int, b: int, v: Seq<ExprModel>, sep: Seq<char>, min: int) -> bool
    decreases b - a, if v.len() >= 2 { 0int } else { 3int },
{
    if v.len() == 0 {
        false
    } else if v.len() == 1 {
        part(g, a, b, v[0], min)
    } else {
        exists|m: int|
            #[trigger] at(m) && a < m < b - 1 && series(g, a, m, v.drop_last(), sep, min) && mark(g, m, sep)
                && part(g, m + 1, b, v.last(), min)
    }
}

/// Operands with comparisons between them.
#[verifier::opaque]
pub open spec fn chain(g: Input, a: int, b: int, e: ExprModel, ops: Seq<(CmpOp, ExprModel)>) -> bool
    decreases b - a, if ops.len() > 0 { 0int } else { 3int },
{
    if ops.len() == 0 {
        part(g, a, b, e, 5)
    } else {
        exists|m: int, n: int|
            #[trigger] at(m) && #[trigger] at(n) && a < m < n < b && chain(g, a, m, e, ops.drop_last()) && compares(
                g,
                m,
                n,
                ops.last().0,
            ) && part(g, n, b, ops.last().1, 5)
    }
}

/// What stands between the parentheses of a tuple. One of one element has a comma behind it.
#[verifier::opaque]
pub open spec fn inner_tuple(g: Input, a: int, b: int, v: Seq<ExprModel>) -> bool
    decreases b - a, 4int,
{
    ||| v.len() == 0 && a == b
    ||| v.len() >= 2 && series(g, a, b, v, seq![','], 0)
    ||| v.len() >= 1 && a < b - 1 && mark(g, b - 1, seq![',']) && series(
        g,
        a,
        b - 1,
        v,
        seq![','],
        0,
    )
}

/// A key, a colon and a value.
#[verifier::opaque]
pub open spec fn entry(g: Input, a: int, b: int, e: (ExprModel, ExprModel)) -> bool
    decreases b - a, 3int,
{
    exists|c: int|
        #[trigger] at(c) && a < c < b - 1 && part(g, a, c, e.0, 0) && mark(g, c, seq![':']) && part(
            g,
            c + 1,
            b,
            e.1,
            0,
        )
}

/// Entries with commas between them.
#[verifier::opaque]
pub open spec fn entries(g: Input, a: int, b: int, v: Seq<(ExprModel, ExprModel)>) -> bool
    decreases b - a, 4int,
{
    if v.len() == 0 {
        false
    } else if v.len() == 1 {
        entry(g, a, b, v[0])
    } else {
        exists|m: int|
            #[trigger] at(m) && a < m < b - 1 && entries(g, a, m, v.drop_last()) && mark(g, m, seq![','])
                && entry(g, m + 1, b, v.last())
    }
}

/// A tree, or nothing.
pub open spec fn optional(g: Input, a: int, b: int, e: Option<Box<ExprModel>>) -> bool
    decreases b - a, 3int,
{
    match e {
        Some(e) => part(g, a, b, *e, 0),
        None => a == b,
    }
}

/// A subscript: a tree or a slice.
#[verifier::opaque]
pub open spec fn piece(g: Input, a: int, b: int, e: ExprModel) -> bool
    decreases b - a, 4int,
{
    ||| part(g, a, b, e, 0)
    ||| e.span == grammar::span_from(g, a, b) && e.kind is Slice && exists|c: int|
        #[trigger] at(c) && a <= c < b && mark(g, c, seq![':']) && optional(g, a, c, e.kind->Slice_0) && {
            ||| e.kind->Slice_2 is None && optional(g, c + 1, b, e.kind->Slice_1)
            ||| exists|d: int|
                #[trigger] at(d) && c < d < b && mark(g, d, seq![':']) && optional(
                    g,
                    c + 1,
                    d,
                    e.kind->Slice_1,
                ) && optional(g, d + 1, b, e.kind->Slice_2)
        }
}

/// Subscripts with commas between them.
#[verifier::opaque]
pub open spec fn pieces(g: Input, a: int, b: int, v: Seq<ExprModel>) -> bool
    decreases b - a, 5int,
{
    if v.len() == 0 {
        a == b
    } else if v.len() == 1 {
        piece(g, a, b, v[0])
    } else {
        exists|m: int|
            #[trigger] at(m) && a < m < b - 1 && pieces(g, a, m, v.drop_last()) && mark(g, m, seq![','])
                && piece(g, m + 1, b, v.last())
    }
}

/// What stands between the brackets of an accessor: one subscript, or a tuple of none or several.
#[verifier::opaque]
pub open spec fn index(g: Input, a: int, b: int, arg: ExprModel) -> bool
    decreases b - a, 6int,
{
    ||| piece(g, a, b, arg)
    ||| arg.kind is Tuple && arg.kind->Tuple_0.len() != 1 && pieces(g, a, b, arg.kind->Tuple_0)
}

/// Arguments in parentheses; a comma may stand behind the last.
#[verifier::opaque]
pub open spec fn called(g: Input, a: int, b: int, args: ArgsModel) -> bool
    decreases b - a, 4int,
{
    &&& a + 2 <= b && mark(g, a, seq!['(']) && mark(g, b - 1, seq![')'])
    &&& {
        ||| arguments(g, a + 1, b - 1, args)
        ||| a + 1 < b - 2 && mark(g, b - 2, seq![',']) && arguments(g, a + 1, b - 2, args)
    }
}

/// Arguments with commas between them. Each goes behind those of its sort.
#[verifier::opaque]
pub open spec fn arguments(g: Input, a: int, b: int, out: ArgsModel) -> bool
    decreases b - a, 4int,
{
    ||| a == b && out == ast::no_args()
    ||| exists|m: int| #[trigger] at(m) && a <= m < b && last_argument(g, a, m, b, out)
}

/// The last argument begins at `m`.
#[verifier::opaque]
pub open spec fn last_argument(g: Input, a: int, m: int, b: int, out: ArgsModel) -> bool
    decreases b - a, 3int,
{
    &&& a <= m < b
    &&& {
        // Positional ones come first.
        ||| out.args.len() > 0 && out.kwargs.len() == 0 && out.dyn_args is None && out.dyn_kwargs
            is None && part(g, m, b, out.args.last(), 0) && behind(
            g,
            a,
            m,
            ArgsModel { args: out.args.drop_last(), ..out },
        )
        ||| out.dyn_args is Some && out.dyn_kwargs is None && mark(g, m, seq!['*']) && m + 1 < b
            && part(g, m + 1, b, *out.dyn_args->0, 0) && behind(
            g,
            a,
            m,
            ArgsModel { dyn_args: None, ..out },
        )
        ||| out.dyn_kwargs is Some && mark(g, m, seq!['*', '*']) && m + 1 < b && part(
            g,
            m + 1,
            b,
            *out.dyn_kwargs->0,
            0,
        ) && behind(g, a, m, ArgsModel { dyn_kwargs: None, ..out })
        ||| out.kwargs.len() > 0 && out.dyn_kwargs is None && says(g, m, out.kwargs.last().0)
            && mark(g, m + 1, seq!['=']) && m + 2 < b && part(
            g,
            m + 2,
            b,
            out.kwargs.last().1,
            0,
        ) && behind(g, a, m, ArgsModel { kwargs: out.kwargs.drop_last(), ..out })
    }
}

/// What comes before an argument at `m`: nothing, or arguments and a comma.
#[verifier::opaque]
pub open spec fn behind(g: Input, a: int, m: int, out: ArgsModel) -> bool
    decreases m - a, 5int,
{
    if m == a {
        out == ast::no_args()
    } else {
        a < m - 1 && mark(g, m - 1, seq![',']) && arguments(g, a, m - 1, out)
    }
}

/// The arguments of a test: none, those in parentheses, or one operand with its accessors.
#[verifier::opaque]
pub open spec fn tested(g: Input, a: int, b: int, args: ArgsModel) -> bool
    decreases b - a, 5int,
{
    ||| a == b && args == ast::no_args()
    ||| called(g, a, b, args)
    ||| args.args.len() == 1 && args == (ArgsModel { args: args.args, ..ast::no_args() }) && part(
        g,
        a,
        b,
        args.args[0],
        11,
    )
}

// ------------------------------------------------------------------ the signs are those of the text

/// A sign of two bytes or of one.
proof fn operator_is_spelled(b: Seq<u8>, i: int)
    requires
        0 <= i < b.len(),
    ensures
        match lexer::operator_at(b, i) {
            Some((kind, end)) => end <= b.len() && sign_of(kind) == Some(
                b.subrange(i, end).map_values(|c: u8| c as char),
            ),
            None => true,
        },
{
    if let Some((kind, end)) = lexer::operator_at(b, i) {
        let s = b.subrange(i, end).map_values(|c: u8| c as char);
        assert(s[0] == b[i] as char);
        if end == i + 2 {
            assert(s[1] == b[i + 1] as char);
            assert(s =~= seq![b[i] as char, b[i + 1] as char]);
        } else {
            assert(s =~= seq![b[i] as char]);
        }
    }
}

proof fn tokens_are_spelled_from(src: Seq<char>, i: int, acc: Seq<Token>)
    requires
        encode_utf8(src).len() <= usize::MAX,
        0 <= i,
        spelled((Input { src, toks: acc })),
    ensures
        match lexer::lex_from(encode_utf8(src), i, acc) {
            Ok(toks) => spelled((Input { src, toks })),
            Err(_) => true,
        },
    decreases encode_utf8(src).len() - i,
{
    let b = encode_utf8(src);
    if i >= b.len() {
        let last = lexer::token(Kind::Eof, b.len() as int, b.len() as int);
        one_more_spelled(src, acc, last);
    } else if lexer::blank(b[i]) {
        tokens_are_spelled_from(src, i + 1, acc);
    } else if let Some((kind, end)) = lexer::lexeme(b, i) {
        if i < end <= b.len() {
            operator_is_spelled(b, i);
            one_more_spelled(src, acc, lexer::token(kind, i, end));
            tokens_are_spelled_from(src, end, acc.push(lexer::token(kind, i, end)));
        }
    }
}

proof fn one_more_spelled(src: Seq<char>, acc: Seq<Token>, t: Token)
    requires
        spelled((Input { src, toks: acc })),
        sign_of(t.kind) is Some ==> sign_of(t.kind)->0 == encode_utf8(src).subrange(
            t.span.start as int,
            t.span.end as int,
        ).map_values(|b: u8| b as char),
    ensures
        spelled((Input { src, toks: acc.push(t) })),
{
    let g = Input { src, toks: acc };
    let h = Input { src, toks: acc.push(t) };
    assert forall|i: int|
        0 <= i < h.toks.len() && sign_of((#[trigger] h.toks[i]).kind) is Some implies bytes_at(h, i)
        == sign_of(h.toks[i].kind)->0 by {
        if i < acc.len() {
            assert(h.toks[i] == g.toks[i]);
            assert(bytes_at(g, i) == sign_of(g.toks[i].kind)->0);
        }
    }
}

/// Every operator and bracket among the tokens of a text is spelled as its kind says.
pub proof fn tokens_are_spelled(src: Seq<char>, toks: Seq<Token>)
    requires
        lexer::lexed(src) == Ok::<Seq<Token>, ErrorModel>(toks),
        encode_utf8(src).len() <= usize::MAX,
    ensures
        spelled((Input { src, toks })),
{
    tokens_are_spelled_from(src, 0, Seq::empty());
}

// ------------------------------------------------------------------ building spellings

/// What fits a place that asks for more fits one that asks for less.
proof fn weaken(g: Input, a: int, b: int, e: ExprModel, min: int, low: int)
    requires
        part(g, a, b, e, min),
        low <= min,
    ensures
        part(g, a, b, e, low),
{
    reveal(part);
    reveal(reads);
    match e.kind {
        KindModel::Call(f, args) => {
            if !(a + 1 < b - 1 && mark(g, a, seq!['(']) && mark(g, b - 1, seq![')']) && reads(
                g,
                a + 1,
                b - 1,
                e.kind,
                0,
            )) {
                let (m, l) = choose|m: int, l: int| #[trigger]
                    at(m) && #[trigger] at(l) && a < m < b && (l == 11 || l == 9) && min <= l
                        && part(g, a, m, *f, l) && called(g, m, b, args);
                assert(at(m) && at(l));
            }
        },
        _ => {},
    }
}

spec fn good(g: Input, start: int, r: Parsed, min: int) -> bool {
    match r {
        Ok((e, p)) => start < p && part(g, start, p, e, min),
        Err(_) => true,
    }
}

proof fn good_weakens(g: Input, start: int, r: Parsed, min: int, low: int)
    requires
        good(g, start, r, min),
        low <= min,
    ensures
        good(g, start, r, low),
{
    if let Ok((e, p)) = r {
        weaken(g, start, p, e, min, low);
    }
}

/// Do the tokens that follow go on an operand with an accessor or a call?
spec fn accessor(g: Input, p: int) -> bool {
    g.is(p, Kind::Dot) || g.is(p, Kind::Lbracket) || g.is(p, Kind::Lparen)
}

proof fn sign_at(g: Input, i: int, kind: Kind)
    requires
        spelled(g),
        g.is(i, kind),
        sign_of(kind) is Some,
    ensures
        mark(g, i, sign_of(kind)->0),
{
    assert(g.toks[i].kind == kind);
}

proof fn bounds(g: Input, a: int, b: int, e: ExprModel, min: int)
    requires
        part(g, a, b, e, min),
    ensures
        0 <= a < b <= g.toks.len(),
{
    reveal(part);
    reveal(reads);
}

proof fn bin_reads(g: Input, a: int, m: int, b: int, op: BinOp, l: ExprModel, r: ExprModel)
    requires
        part(g, a, m, l, tightness(op)),
        operates(g, m, op),
        part(g, m + 1, b, r, tightness(op) + 1),
    ensures
        part(g, a, b, grammar::bin(g, a, b, op, l, r), tightness(op)),
{
    bounds(g, a, m, l, tightness(op));
    bounds(g, m + 1, b, r, tightness(op) + 1);
    reveal(part);
    reveal(reads);
    assert(at(m));
}

proof fn series_of_one(g: Input, a: int, b: int, e: ExprModel, sep: Seq<char>, min: int)
    requires
        part(g, a, b, e, min),
    ensures
        series(g, a, b, seq![e], sep, min),
{
    reveal(series);
    reveal(part);
}

proof fn series_of_more(
    g: Input,
    a: int,
    m: int,
    b: int,
    v: Seq<ExprModel>,
    e: ExprModel,
    sep: Seq<char>,
    min: int,
)
    requires
        v.len() > 0,
        a < m,
        series(g, a, m, v, sep, min),
        mark(g, m, sep),
        part(g, m + 1, b, e, min),
    ensures
        series(g, a, b, v.push(e), sep, min),
{
    bounds(g, m + 1, b, e, min);
    reveal(series);
    reveal(part);
    assert(v.push(e).drop_last() =~= v);
    assert(at(m));
}

proof fn chain_of_more(
    g: Input,
    a: int,
    m: int,
    n: int,
    b: int,
    e: ExprModel,
    ops: Seq<(CmpOp, ExprModel)>,
    op: CmpOp,
    right: ExprModel,
)
    requires
        a < m < n,
        chain(g, a, m, e, ops),
        compares(g, m, n, op),
        part(g, n, b, right, 5),
    ensures
        chain(g, a, b, e, ops.push((op, right))),
{
    bounds(g, n, b, right, 5);
    reveal(chain);
    reveal(part);
    let more = ops.push((op, right));
    assert(more.drop_last() =~= ops);
    assert(at(m) && at(n));
}

proof fn entries_of_more(
    g: Input,
    a: int,
    m: int,
    b: int,
    v: Seq<(ExprModel, ExprModel)>,
    e: (ExprModel, ExprModel),
)
    requires
        v.len() > 0,
        a < m < b - 1,
        entries(g, a, m, v),
        mark(g, m, seq![',']),
        entry(g, m + 1, b, e),
    ensures
        entries(g, a, b, v.push(e)),
{
    reveal(entries);
    reveal(entry);
    assert(v.push(e).drop_last() =~= v);
    assert(at(m));
}

proof fn pieces_of_more(g: Input, a: int, m: int, b: int, v: Seq<ExprModel>, e: ExprModel)
    requires
        v.len() > 0,
        a < m < b - 1,
        pieces(g, a, m, v),
        mark(g, m, seq![',']),
        piece(g, m + 1, b, e),
    ensures
        pieces(g, a, b, v.push(e)),
{
    reveal(pieces);
    reveal(piece);
    assert(v.push(e).drop_last() =~= v);
    assert(at(m));
}

/// What stands in parentheses.
proof fn parenthesised(g: Input, a: int, b: int, e: ExprModel, min: int)
    requires
        part(g, a + 1, b - 1, e, 0),
        mark(g, a, seq!['(']),
        mark(g, b - 1, seq![')']),
    ensures
        part(
            g,
            a,
            b,
            ExprModel { kind: e.kind, span: grammar::span_from(g, a, b) },
            min,
        ),
{
    bounds(g, a + 1, b - 1, e, 0);
    reveal(part);
    assert(reads(g, a, b, e.kind, min)) by {
        reveal(reads);
    }
}

// ------------------------------------------------------------------ the rules

#[verifier::spinoff_prover]
proof fn expression_reads(g: Input, pos: int, depth: int)
    requires
        spelled(g),
        0 <= pos,
    ensures
        good(g, pos, grammar::expression(g, pos, depth), 0),
    decreases g.len() - pos, 20int,
{
    reveal(grammar::expression);
    condexpr_reads(g, pos, depth + 1);
}

#[verifier::spinoff_prover]
proof fn condexpr_reads(g: Input, pos: int, depth: int)
    requires
        spelled(g),
        0 <= pos,
    ensures
        good(g, pos, grammar::condexpr(g, pos, depth), 0),
    decreases g.len() - pos, 19int,
{
    reveal(grammar::condexpr);
    or_reads(g, pos, depth);
    if let Ok((e, p)) = grammar::moved(g, pos, grammar::or_expr(g, pos, depth)) {
        weaken(g, pos, p, e, 1, 0);
        cond_rest_reads(g, pos, p, depth, e);
    }
}

#[verifier::spinoff_prover]
proof fn conditional(
    g: Input,
    a: int,
    m: int,
    c: int,
    b: int,
    value: ExprModel,
    test: ExprModel,
    alt: Option<Box<ExprModel>>,
)
    requires
        part(g, a, m, value, 0),
        says(g, m, "if"@),
        part(g, m + 1, c, test, 1),
        match alt {
            None => c == b,
            Some(alt) => says(g, c, "else"@) && part(g, c + 1, b, *alt, 0),
        },
    ensures
        part(
            g,
            a,
            b,
            grammar::node(
                g,
                a,
                b,
                KindModel::CondExpr(Box::new(test), Box::new(value), alt),
            ),
            0,
        ),
{
    bounds(g, a, m, value, 0);
    bounds(g, m + 1, c, test, 1);
    if let Some(alt) = alt {
        bounds(g, c + 1, b, *alt, 0);
    }
    reveal(part);
    reveal(reads);
    assert(at(m) && at(c));
}

#[verifier::spinoff_prover]
proof fn cond_rest_reads(g: Input, start: int, pos: int, depth: int, e: ExprModel)
    requires
        spelled(g),
        0 <= start < pos,
        part(g, start, pos, e, 0),
    ensures
        good(g, start, grammar::cond_rest(g, start, pos, depth, e), 0),
    decreases g.len() - pos, 0int,
{
    reveal(grammar::cond_rest);
    if g.word(pos, "if"@) {
        or_reads(g, pos + 1, depth);
        if let Ok((test, p)) = grammar::moved(g, pos + 1, grammar::or_expr(g, pos + 1, depth)) {
            if g.word(p, "else"@) {
                condexpr_reads(g, p + 1, depth);
                if let Ok((alt, q)) = grammar::moved(
                    g,
                    p + 1,
                    grammar::condexpr(g, p + 1, depth),
                ) {
                    let o = Some(Box::new(alt));
                    conditional(g, start, pos, p, q, e, test, o);
                    let kind = KindModel::CondExpr(Box::new(test), Box::new(e), o);
                    cond_rest_reads(g, start, q, depth, grammar::node(g, start, q, kind));
                }
            } else {
                conditional(g, start, pos, p, p, e, test, None);
                let kind = KindModel::CondExpr(Box::new(test), Box::new(e), None);
                cond_rest_reads(g, start, p, depth, grammar::node(g, start, p, kind));
            }
        }
    }
}

#[verifier::spinoff_prover]
proof fn or_reads(g: Input, pos: int, depth: int)
    requires
        spelled(g),
        0 <= pos,
    ensures
        good(g, pos, grammar::or_expr(g, pos, depth), 1),
    decreases g.len() - pos, 18int,
{
    reveal(grammar::or_expr);
    and_reads(g, pos, depth);
    if let Ok((e, p)) = grammar::moved(g, pos, grammar::and_expr(g, pos, depth)) {
        weaken(g, pos, p, e, 2, 1);
        or_rest_reads(g, pos, p, depth, e);
    }
}

#[verifier::spinoff_prover]
proof fn or_rest_reads(g: Input, start: int, pos: int, depth: int, e: ExprModel)
    requires
        spelled(g),
        0 <= start < pos,
        part(g, start, pos, e, 1),
    ensures
        good(g, start, grammar::or_rest(g, start, pos, depth, e), 1),
    decreases g.len() - pos, 0int,
{
    reveal(grammar::or_rest);
    if g.word(pos, "or"@) {
        and_reads(g, pos + 1, depth);
        if let Ok((right, p)) = grammar::moved(g, pos + 1, grammar::and_expr(g, pos + 1, depth)) {
            bin_reads(g, start, pos, p, BinOp::Or, e, right);
            or_rest_reads(g, start, p, depth, grammar::bin(g, start, p, BinOp::Or, e, right));
        }
    }
}

#[verifier::spinoff_prover]
proof fn and_reads(g: Input, pos: int, depth: int)
    requires
        spelled(g),
        0 <= pos,
    ensures
        good(g, pos, grammar::and_expr(g, pos, depth), 2),
    decreases g.len() - pos, 17int,
{
    reveal(grammar::and_expr);
    not_reads(g, pos, depth);
    if let Ok((e, p)) = grammar::moved(g, pos, grammar::not_expr(g, pos, depth)) {
        weaken(g, pos, p, e, 3, 2);
        and_rest_reads(g, pos, p, depth, e);
    }
}

#[verifier::spinoff_prover]
proof fn and_rest_reads(g: Input, start: int, pos: int, depth: int, e: ExprModel)
    requires
        spelled(g),
        0 <= start < pos,
        part(g, start, pos, e, 2),
    ensures
        good(g, start, grammar::and_rest(g, start, pos, depth, e), 2),
    decreases g.len() - pos, 0int,
{
    reveal(grammar::and_rest);
    if g.word(pos, "and"@) {
        not_reads(g, pos + 1, depth);
        if let Ok((right, p)) = grammar::moved(g, pos + 1, grammar::not_expr(g, pos + 1, depth)) {
            bin_reads(g, start, pos, p, BinOp::And, e, right);
            and_rest_reads(g, start, p, depth, grammar::bin(g, start, p, BinOp::And, e, right));
        }
    }
}

#[verifier::spinoff_prover]
proof fn unary_node(g: Input, a: int, b: int, op: UnOp, e: ExprModel)
    requires
        0 <= a,
        match op {
            UnOp::Not => says(g, a, "not"@) && part(g, a + 1, b, e, 3),
            UnOp::Neg => mark(g, a, seq!['-']) && part(g, a + 1, b, e, 10),
            UnOp::Pos => mark(g, a, seq!['+']) && part(g, a + 1, b, e, 10),
        },
    ensures
        part(
            g,
            a,
            b,
            grammar::node(g, a, b, KindModel::Unary(op, Box::new(e))),
            if op == UnOp::Not {
                3
            } else {
                10
            },
        ),
{
    bounds(
        g,
        a + 1,
        b,
        e,
        if op == UnOp::Not {
            3
        } else {
            10
        },
    );
    reveal(part);
    reveal(reads);
}

#[verifier::spinoff_prover]
proof fn not_reads(g: Input, pos: int, depth: int)
    requires
        spelled(g),
        0 <= pos,
    ensures
        good(g, pos, grammar::not_expr(g, pos, depth), 3),
    decreases g.len() - pos, 16int,
{
    reveal(grammar::not_expr);
    if g.word(pos, "not"@) {
        not_reads(g, pos + 1, depth + 1);
        if let Ok((e, p)) = grammar::moved(
            g,
            pos + 1,
            grammar::not_expr(g, pos + 1, depth + 1),
        ) {
            unary_node(g, pos, p, UnOp::Not, e);
        }
    } else {
        compare_reads(g, pos, depth);
        good_weakens(g, pos, grammar::compare(g, pos, depth), 4, 3);
    }
}

#[verifier::spinoff_prover]
proof fn compare_reads(g: Input, pos: int, depth: int)
    requires
        spelled(g),
        0 <= pos,
    ensures
        good(g, pos, grammar::compare(g, pos, depth), 4),
    decreases g.len() - pos, 15int,
{
    reveal(grammar::compare);
    math1_reads(g, pos, depth);
    if let Ok((e, p)) = grammar::moved(g, pos, grammar::math1(g, pos, depth)) {
        assert(chain(g, pos, p, e, Seq::empty())) by {
            reveal(chain);
            reveal(part);
        }
        compare_rest_reads(g, pos, p, depth, e, Seq::empty());
    }
}

/// The sign or the words of a comparison.
proof fn comparison_is_written(g: Input, pos: int)
    requires
        spelled(g),
    ensures
        match grammar::comparison_at(g, pos) {
            Some((op, n)) => n >= 1 && compares(g, pos, pos + n, op),
            None => true,
        },
{
    if 0 <= pos < g.len() && sign_of(g.toks[pos].kind) is Some {
        sign_at(g, pos, g.toks[pos].kind);
    }
}

#[verifier::spinoff_prover]
proof fn compare_rest_reads(
    g: Input,
    start: int,
    pos: int,
    depth: int,
    e: ExprModel,
    ops: Seq<(CmpOp, ExprModel)>,
)
    requires
        spelled(g),
        0 <= start < pos,
        chain(g, start, pos, e, ops),
    ensures
        good(g, start, grammar::compare_rest(g, start, pos, depth, e, ops), 4),
    decreases g.len() - pos, 0int,
{
    reveal(grammar::compare_rest);
    comparison_is_written(g, pos);
    if let Some((op, n)) = grammar::comparison_at(g, pos) {
        math1_reads(g, pos + n, depth);
        if let Ok((right, p)) = grammar::moved(g, pos + n, grammar::math1(g, pos + n, depth)) {
            chain_of_more(g, start, pos, pos + n, p, e, ops, op, right);
            compare_rest_reads(g, start, p, depth, e, ops.push((op, right)));
        }
    } else if ops.len() == 0 {
        assert(part(g, start, pos, e, 5)) by {
            reveal(chain);
            reveal(part);
        }
        weaken(g, start, pos, e, 5, 4);
    } else {
        chain_bounds(g, start, pos, e, ops);
        reveal(part);
        reveal(reads);
        reveal(chain);
    }
}

proof fn chain_bounds(g: Input, a: int, b: int, e: ExprModel, ops: Seq<(CmpOp, ExprModel)>)
    requires
        chain(g, a, b, e, ops),
    ensures
        0 <= a < b <= g.toks.len(),
    decreases ops.len(),
{
    reveal(chain);
    reveal(part);
    if ops.len() == 0 {
        bounds(g, a, b, e, 5);
    } else {
        let (m, n) = choose|m: int, n: int| #[trigger]
            at(m) && #[trigger] at(n) && a < m < n < b && chain(g, a, m, e, ops.drop_last())
                && compares(g, m, n, ops.last().0) && part(g, n, b, ops.last().1, 5);
        chain_bounds(g, a, m, e, ops.drop_last());
        bounds(g, n, b, ops.last().1, 5);
    }
}

proof fn series_bounds(g: Input, a: int, b: int, v: Seq<ExprModel>, sep: Seq<char>, min: int)
    requires
        series(g, a, b, v, sep, min),
    ensures
        0 <= a < b <= g.toks.len(),
    decreases v.len(),
{
    reveal(series);
    reveal(part);
    if v.len() == 1 {
        bounds(g, a, b, v[0], min);
    } else {
        let m = choose|m: int| #[trigger]
            at(m) && a < m < b - 1 && series(g, a, m, v.drop_last(), sep, min) && mark(g, m, sep)
                && part(g, m + 1, b, v.last(), min);
        series_bounds(g, a, m, v.drop_last(), sep, min);
        bounds(g, m + 1, b, v.last(), min);
    }
}

#[verifier::spinoff_prover]
proof fn math1_reads(g: Input, pos: int, depth: int)
    requires
        spelled(g),
        0 <= pos,
    ensures
        good(g, pos, grammar::math1(g, pos, depth), 5),
    decreases g.len() - pos, 14int,
{
    reveal(grammar::math1);
    concat_reads(g, pos, depth);
    if let Ok((e, p)) = grammar::moved(g, pos, grammar::concat(g, pos, depth)) {
        weaken(g, pos, p, e, 6, 5);
        math1_rest_reads(g, pos, p, depth, e);
    }
}

#[verifier::spinoff_prover]
proof fn math1_rest_reads(g: Input, start: int, pos: int, depth: int, e: ExprModel)
    requires
        spelled(g),
        0 <= start < pos,
        part(g, start, pos, e, 5),
    ensures
        good(g, start, grammar::math1_rest(g, start, pos, depth, e), 5),
    decreases g.len() - pos, 0int,
{
    reveal(grammar::math1_rest);
    if 0 <= pos < g.len() && grammar::additive(g.toks[pos].kind) is Some {
        sign_at(g, pos, g.toks[pos].kind);
        concat_reads(g, pos + 1, depth);
        if let Ok((right, p)) = grammar::moved(g, pos + 1, grammar::concat(g, pos + 1, depth)) {
            let op = grammar::additive(g.toks[pos].kind)->0;
            bin_reads(g, start, pos, p, op, e, right);
            math1_rest_reads(g, start, p, depth, grammar::bin(g, start, p, op, e, right));
        }
    }
}

#[verifier::spinoff_prover]
proof fn concat_reads(g: Input, pos: int, depth: int)
    requires
        spelled(g),
        0 <= pos,
    ensures
        good(g, pos, grammar::concat(g, pos, depth), 6),
    decreases g.len() - pos, 13int,
{
    reveal(grammar::concat);
    math2_reads(g, pos, depth);
    if let Ok((e, p)) = grammar::moved(g, pos, grammar::math2(g, pos, depth)) {
        series_of_one(g, pos, p, e, seq!['~'], 7);
        concat_rest_reads(g, pos, p, depth, seq![e]);
    }
}

#[verifier::spinoff_prover]
proof fn concat_rest_reads(g: Input, start: int, pos: int, depth: int, args: Seq<ExprModel>)
    requires
        spelled(g),
        0 <= start < pos,
        args.len() > 0,
        series(g, start, pos, args, seq!['~'], 7),
    ensures
        good(g, start, grammar::concat_rest(g, start, pos, depth, args), 6),
    decreases g.len() - pos, 0int,
{
    reveal(grammar::concat_rest);
    if g.is(pos, Kind::Tilde) {
        sign_at(g, pos, Kind::Tilde);
        math2_reads(g, pos + 1, depth);
        if let Ok((e, p)) = grammar::moved(g, pos + 1, grammar::math2(g, pos + 1, depth)) {
            series_of_more(g, start, pos, p, args, e, seq!['~'], 7);
            concat_rest_reads(g, start, p, depth, args.push(e));
        }
    } else if args.len() == 1 {
        assert(part(g, start, pos, args[0], 7)) by {
            reveal(series);
            reveal(part);
        }
        weaken(g, start, pos, args[0], 7, 6);
    } else {
        series_bounds(g, start, pos, args, seq!['~'], 7);
        reveal(part);
        reveal(reads);
        reveal(series);
    }
}

#[verifier::spinoff_prover]
proof fn math2_reads(g: Input, pos: int, depth: int)
    requires
        spelled(g),
        0 <= pos,
    ensures
        good(g, pos, grammar::math2(g, pos, depth), 7),
    decreases g.len() - pos, 12int,
{
    reveal(grammar::math2);
    pow_reads(g, pos, depth);
    if let Ok((e, p)) = grammar::moved(g, pos, grammar::pow(g, pos, depth)) {
        weaken(g, pos, p, e, 8, 7);
        math2_rest_reads(g, pos, p, depth, e);
    }
}

#[verifier::spinoff_prover]
proof fn math2_rest_reads(g: Input, start: int, pos: int, depth: int, e: ExprModel)
    requires
        spelled(g),
        0 <= start < pos,
        part(g, start, pos, e, 7),
    ensures
        good(g, start, grammar::math2_rest(g, start, pos, depth, e), 7),
    decreases g.len() - pos, 0int,
{
    reveal(grammar::math2_rest);
    if 0 <= pos < g.len() && grammar::multiplicative(g.toks[pos].kind) is Some {
        sign_at(g, pos, g.toks[pos].kind);
        pow_reads(g, pos + 1, depth);
        if let Ok((right, p)) = grammar::moved(g, pos + 1, grammar::pow(g, pos + 1, depth)) {
            let op = grammar::multiplicative(g.toks[pos].kind)->0;
            bin_reads(g, start, pos, p, op, e, right);
            math2_rest_reads(g, start, p, depth, grammar::bin(g, start, p, op, e, right));
        }
    }
}

#[verifier::spinoff_prover]
proof fn pow_reads(g: Input, pos: int, depth: int)
    requires
        spelled(g),
        0 <= pos,
    ensures
        good(g, pos, grammar::pow(g, pos, depth), 8),
    decreases g.len() - pos, 11int,
{
    reveal(grammar::pow);
    unary_reads(g, pos, depth, true);
    if let Ok((e, p)) = grammar::moved(g, pos, grammar::unary(g, pos, depth, true)) {
        weaken(g, pos, p, e, 9, 8);
        pow_rest_reads(g, pos, p, depth, e);
    }
}

#[verifier::spinoff_prover]
proof fn pow_rest_reads(g: Input, start: int, pos: int, depth: int, e: ExprModel)
    requires
        spelled(g),
        0 <= start < pos,
        part(g, start, pos, e, 8),
    ensures
        good(g, start, grammar::pow_rest(g, start, pos, depth, e), 8),
    decreases g.len() - pos, 0int,
{
    reveal(grammar::pow_rest);
    if g.is(pos, Kind::Pow) {
        sign_at(g, pos, Kind::Pow);
        unary_reads(g, pos + 1, depth, true);
        if let Ok((right, p)) = grammar::moved(
            g,
            pos + 1,
            grammar::unary(g, pos + 1, depth, true),
        ) {
            bin_reads(g, start, pos, p, BinOp::Pow, e, right);
            pow_rest_reads(g, start, p, depth, grammar::bin(g, start, p, BinOp::Pow, e, right));
        }
    }
}

proof fn postfix_stops(g: Input, start: int, pos: int, depth: int, e: ExprModel)
    requires
        !accessor(g, pos),
    ensures
        grammar::postfix(g, start, pos, depth, e) == Ok::<(ExprModel, int), ErrorModel>((e, pos)),
{
    reveal(grammar::postfix);
}

/// A signed or plain operand: without filters, nothing that could go on it is left behind it.
#[verifier::spinoff_prover]
proof fn unary_reads(g: Input, pos: int, depth: int, filters: bool)
    requires
        spelled(g),
        0 <= pos,
    ensures
        good(
            g,
            pos,
            grammar::unary(g, pos, depth, filters),
            if filters {
                9
            } else {
                10
            },
        ),
        !filters ==> match grammar::unary(g, pos, depth, filters) {
            Ok((_, p)) => !accessor(g, p),
            Err(_) => true,
        },
    decreases g.len() - pos, 10int,
{
    reveal(grammar::unary);
    operand_reads(g, pos, depth);
    if let Ok((e, p)) = grammar::moved(g, pos, grammar::operand(g, pos, depth)) {
        let r = grammar::postfix(g, pos, p, depth, e);
        if part(g, pos, p, e, 11) {
            postfix_reads(g, pos, p, depth, e);
            good_weakens(g, pos, r, 11, 10);
        } else {
            postfix_stops(g, pos, p, depth, e);
        }
        if let Ok((f, q)) = grammar::kept(g, p, r) {
            weaken(g, pos, q, f, 10, 9);
            filtered_reads(g, pos, q, depth, f);
        }
    }
}

#[verifier::spinoff_prover]
proof fn operand_reads(g: Input, pos: int, depth: int)
    requires
        spelled(g),
        0 <= pos,
    ensures
        match grammar::operand(g, pos, depth) {
            Ok((e, p)) => pos < p && (part(g, pos, p, e, 11) || (part(g, pos, p, e, 10)
                && !accessor(g, p))),
            Err(_) => true,
        },
    decreases g.len() - pos, 9int,
{
    reveal(grammar::operand);
    if 0 <= pos < g.len() && grammar::sign(g.toks[pos].kind) is Some {
        sign_at(g, pos, g.toks[pos].kind);
        unary_reads(g, pos + 1, depth + 1, false);
        if let Ok((e, p)) = grammar::moved(
            g,
            pos + 1,
            grammar::unary(g, pos + 1, depth + 1, false),
        ) {
            unary_node(g, pos, p, grammar::sign(g.toks[pos].kind)->0, e);
        }
    } else {
        primary_reads(g, pos, depth);
    }
}

proof fn strings_are_read(g: Input, start: int, pos: int, acc: Seq<char>)
    requires
        0 <= start <= pos,
        strings_text(g, start, pos) == Some(acc),
    ensures
        match grammar::strings(g, pos, acc) {
            Ok((s, p)) => pos <= p && (g.is(pos, Kind::Str) ==> pos < p <= g.len()) && strings_text(
                g,
                start,
                p,
            ) == Some(s),
            Err(_) => true,
        },
    decreases g.len() - pos,
{
    reveal(grammar::strings);
    if g.is(pos, Kind::Str) {
        if let Ok(s) = lexer::string_at(g.src, g.toks[pos].span) {
            strings_are_read(g, start, pos + 1, acc + s);
        }
    }
}

#[verifier::spinoff_prover]
proof fn primary_reads(g: Input, pos: int, depth: int)
    requires
        spelled(g),
        0 <= pos,
    ensures
        good(g, pos, grammar::primary(g, pos, depth), 11),
    decreases g.len() - pos, 8int,
{
    reveal(grammar::primary);
    if pos < g.len() {
        let kind = g.toks[pos].kind;
        if sign_of(kind) is Some {
            sign_at(g, pos, kind);
        }
        match kind {
            Kind::Name | Kind::Int | Kind::Float => {
                if let Ok((e, p)) = grammar::primary(g, pos, depth) {
                    if kind == Kind::Int {
                        let n = lexer::int_at(g.src, g.toks[pos].span)->Ok_0;
                        assert(n as i64 == n as i64);
                        assert(constant(g, pos, p, e.kind->Const_0));
                    }
                    reveal(part);
                    reveal(reads);
                }
            },
            Kind::Str => {
                strings_are_read(g, pos, pos, Seq::empty());
                reveal(part);
                reveal(reads);
            },
            Kind::Lparen => {
                tuple_reads(g, pos + 1, pos + 1, depth, Seq::empty(), false);
                if let Ok((e, p)) = grammar::kept(
                    g,
                    pos + 1,
                    grammar::tuple(g, pos + 1, pos + 1, depth, Seq::empty(), false),
                ) {
                    if g.is(p, Kind::Rparen) {
                        sign_at(g, p, Kind::Rparen);
                        if part(g, pos + 1, p, e, 0) {
                            parenthesised(g, pos, p + 1, e, 11);
                        } else {
                            reveal(part);
                            reveal(reads);
                            reveal(inner_tuple);
                        }
                    }
                }
            },
            Kind::Lbracket => {
                list_reads(g, pos, pos + 1, depth, Seq::empty());
            },
            Kind::Lbrace => {
                dict_reads(g, pos, pos + 1, depth, Seq::empty());
            },
            _ => {},
        }
    }
}

/// What stands between parentheses: one expression, or the elements of a tuple.
#[verifier::spinoff_prover]
proof fn tuple_reads(
    g: Input,
    start: int,
    pos: int,
    depth: int,
    args: Seq<ExprModel>,
    is_tuple: bool,
)
    requires
        spelled(g),
        0 <= start <= pos,
        if is_tuple {
            &&& args.len() > 0
            &&& start < pos - 1
            &&& mark(g, pos - 1, seq![','])
            &&& series(g, start, pos - 1, args, seq![','], 0)
        } else {
            args.len() == 0 && pos == start
        },
    ensures
        match grammar::tuple(g, start, pos, depth, args, is_tuple) {
            Ok((e, p)) => start <= p && ((start < p && part(g, start, p, e, 0)) || (e.kind is Tuple
                && inner_tuple(g, start, p, e.kind->Tuple_0))),
            Err(_) => true,
        },
    decreases g.len() - pos, 21int,
{
    reveal(grammar::tuple);
    if pos >= g.len() {
    } else if g.is(pos, Kind::Rparen) || g.is(pos, Kind::Eof) {
        assert(inner_tuple(g, start, pos, args)) by {
            reveal(inner_tuple);
            reveal(series);
        }
    } else {
        expression_reads(g, pos, depth);
        if let Ok((e, p)) = grammar::moved(g, pos, grammar::expression(g, pos, depth)) {
            if is_tuple {
                series_of_more(g, start, pos - 1, p, args, e, seq![','], 0);
            } else {
                series_of_one(g, pos, p, e, seq![','], 0);
                assert(args.push(e) =~= seq![e]);
            }
            if g.is(p, Kind::Comma) {
                sign_at(g, p, Kind::Comma);
                tuple_reads(g, start, p + 1, depth, args.push(e), true);
            } else if is_tuple {
                assert(inner_tuple(g, start, p, args.push(e))) by {
                    reveal(inner_tuple);
                    reveal(series);
                }
            }
        }
    }
}

#[verifier::spinoff_prover]
proof fn list_reads(g: Input, start: int, pos: int, depth: int, items: Seq<ExprModel>)
    requires
        spelled(g),
        0 <= start < pos,
        mark(g, start, seq!['[']),
        if items.len() == 0 {
            pos == start + 1
        } else {
            series(g, start + 1, pos, items, seq![','], 0)
        },
    ensures
        good(g, start, grammar::list(g, start, pos, depth, items), 11),
    decreases g.len() - pos, 21int,
{
    reveal(grammar::list);
    if items.len() > 0 {
        series_bounds(g, start + 1, pos, items, seq![','], 0);
    }
    if pos >= g.len() {
    } else if g.is(pos, Kind::Rbracket) {
        sign_at(g, pos, Kind::Rbracket);
        list_node(g, start, pos, pos + 1, items);
    } else if items.len() == 0 || g.is(pos, Kind::Comma) {
        let from = if items.len() > 0 {
            pos + 1
        } else {
            pos
        };
        if items.len() > 0 {
            sign_at(g, pos, Kind::Comma);
        }
        if items.len() > 0 && g.is(from, Kind::Rbracket) {
            sign_at(g, from, Kind::Rbracket);
            list_node(g, start, pos, from + 1, items);
        } else {
            expression_reads(g, from, depth);
            if let Ok((e, p)) = grammar::moved(g, from, grammar::expression(g, from, depth)) {
                if items.len() > 0 {
                    series_of_more(g, start + 1, pos, p, items, e, seq![','], 0);
                } else {
                    series_of_one(g, pos, p, e, seq![','], 0);
                    assert(items.push(e) =~= seq![e]);
                }
                list_reads(g, start, p, depth, items.push(e));
            }
        }
    }
}

#[verifier::spinoff_prover]
proof fn list_node(g: Input, start: int, pos: int, b: int, items: Seq<ExprModel>)
    requires
        0 <= start < pos < b <= g.toks.len(),
        mark(g, start, seq!['[']),
        mark(g, b - 1, seq![']']),
        b == pos + 1 || (b == pos + 2 && items.len() > 0 && mark(g, pos, seq![','])),
        if items.len() == 0 {
            pos == start + 1
        } else {
            start + 1 < pos && series(g, start + 1, pos, items, seq![','], 0)
        },
    ensures
        part(g, start, b, grammar::node(g, start, b, KindModel::List(items)), 11),
{
    reveal(part);
    reveal(reads);
    reveal(series);
}

proof fn entries_bounds(g: Input, a: int, b: int, v: Seq<(ExprModel, ExprModel)>)
    requires
        entries(g, a, b, v),
    ensures
        a < b,
{
    reveal(entries);
    reveal(entry);
    if v.len() == 1 {
        assert(entry(g, a, b, v[0]));
    }
}

#[verifier::spinoff_prover]
proof fn dict_node(g: Input, start: int, pos: int, b: int, items: Seq<(ExprModel, ExprModel)>)
    requires
        0 <= start < pos < b <= g.toks.len(),
        mark(g, start, seq!['{']),
        mark(g, b - 1, seq!['}']),
        b == pos + 1 || (b == pos + 2 && items.len() > 0 && mark(g, pos, seq![','])),
        if items.len() == 0 {
            pos == start + 1
        } else {
            start + 1 < pos && entries(g, start + 1, pos, items)
        },
    ensures
        part(g, start, b, grammar::node(g, start, b, KindModel::Dict(items)), 11),
{
    reveal(part);
    reveal(reads);
    reveal(entries);
}

#[verifier::spinoff_prover]
proof fn dict_reads(
    g: Input,
    start: int,
    pos: int,
    depth: int,
    items: Seq<(ExprModel, ExprModel)>,
)
    requires
        spelled(g),
        0 <= start < pos,
        mark(g, start, seq!['{']),
        if items.len() == 0 {
            pos == start + 1
        } else {
            entries(g, start + 1, pos, items)
        },
    ensures
        good(g, start, grammar::dict(g, start, pos, depth, items), 11),
    decreases g.len() - pos, 21int,
{
    reveal(grammar::dict);
    if items.len() > 0 {
        entries_bounds(g, start + 1, pos, items);
    }
    if pos >= g.len() {
    } else if g.is(pos, Kind::Rbrace) {
        sign_at(g, pos, Kind::Rbrace);
        dict_node(g, start, pos, pos + 1, items);
    } else if items.len() == 0 || g.is(pos, Kind::Comma) {
        let from = if items.len() > 0 {
            pos + 1
        } else {
            pos
        };
        if items.len() > 0 {
            sign_at(g, pos, Kind::Comma);
        }
        if items.len() > 0 && g.is(from, Kind::Rbrace) {
            sign_at(g, from, Kind::Rbrace);
            dict_node(g, start, pos, from + 1, items);
        } else {
            expression_reads(g, from, depth);
            if let Ok((key, p)) = grammar::moved(g, from, grammar::expression(g, from, depth)) {
                if g.is(p, Kind::Colon) {
                    sign_at(g, p, Kind::Colon);
                    expression_reads(g, p + 1, depth);
                    if let Ok((value, q)) = grammar::moved(
                        g,
                        p + 1,
                        grammar::expression(g, p + 1, depth),
                    ) {
                        assert(entry(g, from, q, (key, value))) by {
                            reveal(entry);
                            reveal(part);
                            assert(at(p));
                        }
                        if items.len() > 0 {
                            entries_of_more(g, start + 1, pos, q, items, (key, value));
                        } else {
                            assert(items.push((key, value)) =~= seq![(key, value)]);
                            assert(entries(g, from, q, seq![(key, value)])) by {
                                reveal(entries);
                                reveal(entry);
                            }
                        }
                        dict_reads(g, start, q, depth, items.push((key, value)));
                    }
                }
            }
        }
    }
}

/// Accessors and calls; nothing that could go on it is left behind it.
#[verifier::spinoff_prover]
proof fn postfix_reads(g: Input, start: int, pos: int, depth: int, e: ExprModel)
    requires
        spelled(g),
        0 <= start < pos,
        part(g, start, pos, e, 11),
    ensures
        good(g, start, grammar::postfix(g, start, pos, depth, e), 11),
        match grammar::postfix(g, start, pos, depth, e) {
            Ok((_, p)) => pos <= p && !accessor(g, p),
            Err(_) => true,
        },
    decreases g.len() - pos, 8int,
{
    reveal(grammar::postfix);
    if g.is(pos, Kind::Dot) || g.is(pos, Kind::Lbracket) {
        subscript_reads(g, start, pos, depth, e);
        if let Ok((e, p)) = grammar::moved(g, pos, grammar::subscript(g, start, pos, depth, e)) {
            postfix_reads(g, start, p, depth, e);
        }
    } else if g.is(pos, Kind::Lparen) {
        call_reads(g, start, pos, depth, e, 11);
        if let Ok((e, p)) = grammar::moved(g, pos, grammar::call(g, start, pos, depth, e)) {
            postfix_reads(g, start, p, depth, e);
        }
    }
}

/// Filters and tests.
#[verifier::spinoff_prover]
proof fn filtered_reads(g: Input, start: int, pos: int, depth: int, e: ExprModel)
    requires
        spelled(g),
        0 <= start < pos,
        part(g, start, pos, e, 9),
    ensures
        good(g, start, grammar::filtered(g, start, pos, depth, e), 9),
    decreases g.len() - pos, 8int,
{
    reveal(grammar::filtered);
    if g.is(pos, Kind::Pipe) {
        filter_reads(g, start, pos, depth, e);
        if let Ok((e, p)) = grammar::moved(g, pos, grammar::filter(g, start, pos, depth, e)) {
            filtered_reads(g, start, p, depth, e);
        }
    } else if g.word(pos, "is"@) {
        test_reads(g, start, pos, depth, e);
        if let Ok((e, p)) = grammar::moved(g, pos, grammar::test(g, start, pos, depth, e)) {
            filtered_reads(g, start, p, depth, e);
        }
    } else if g.is(pos, Kind::Lparen) {
        call_reads(g, start, pos, depth, e, 9);
        if let Ok((e, p)) = grammar::moved(g, pos, grammar::call(g, start, pos, depth, e)) {
            filtered_reads(g, start, p, depth, e);
        }
    }
}

#[verifier::spinoff_prover]
proof fn attribute(g: Input, start: int, pos: int, e: ExprModel, name: Seq<char>)
    requires
        part(g, start, pos, e, 11),
        mark(g, pos, seq!['.']),
        says(g, pos + 1, name),
    ensures
        part(
            g,
            start,
            pos + 2,
            grammar::node(g, start, pos + 2, KindModel::Getattr(Box::new(e), name)),
            11,
        ),
{
    bounds(g, start, pos, e, 11);
    reveal(part);
    reveal(reads);
}

#[verifier::spinoff_prover]
proof fn numbered(g: Input, start: int, pos: int, e: ExprModel, n: int)
    requires
        part(g, start, pos, e, 11),
        mark(g, pos, seq!['.']),
        g.is(pos + 1, Kind::Int),
        lexer::int_at(g.src, g.toks[pos + 1].span) == Ok::<int, ErrorModel>(n),
    ensures
        part(
            g,
            start,
            pos + 2,
            grammar::node(
                g,
                start,
                pos + 2,
                KindModel::Getitem(
                    Box::new(e),
                    Box::new(
                        ExprModel {
                            kind: KindModel::Const(ConstModel::Int(n as i64)),
                            span: g.toks[pos + 1].span,
                        },
                    ),
                ),
            ),
            11,
        ),
{
    bounds(g, start, pos, e, 11);
    assert(constant(g, pos + 1, pos + 2, ConstModel::Int(n as i64))) by {
        assert(n as i64 == n as i64);
    }
    reveal(part);
    reveal(reads);
}

#[verifier::spinoff_prover]
proof fn subscript_reads(g: Input, start: int, pos: int, depth: int, e: ExprModel)
    requires
        spelled(g),
        0 <= start < pos,
        g.is(pos, Kind::Dot) || g.is(pos, Kind::Lbracket),
        part(g, start, pos, e, 11),
    ensures
        good(g, start, grammar::subscript(g, start, pos, depth, e), 11),
    decreases g.len() - pos, 7int,
{
    reveal(grammar::subscript);
    if pos + 1 >= g.len() {
    } else if g.is(pos, Kind::Dot) {
        sign_at(g, pos, Kind::Dot);
        if g.is(pos + 1, Kind::Name) {
            attribute(g, start, pos, e, g.text(pos + 1));
        } else if g.is(pos + 1, Kind::Int) {
            if let Ok(n) = lexer::int_at(g.src, g.toks[pos + 1].span) {
                numbered(g, start, pos, e, n);
            }
        }
    } else {
        sign_at(g, pos, Kind::Lbracket);
        assert(pieces(g, pos + 1, pos + 1, Seq::empty())) by {
            reveal(pieces);
        }
        subscripts_read(g, start, pos, pos + 1, depth, e, Seq::empty());
    }
}

#[verifier::spinoff_prover]
proof fn subscripts_read(
    g: Input,
    start: int,
    open: int,
    pos: int,
    depth: int,
    e: ExprModel,
    args: Seq<ExprModel>,
)
    requires
        spelled(g),
        0 <= start < open < pos,
        part(g, start, open, e, 11),
        mark(g, open, seq!['[']),
        pieces(g, open + 1, pos, args),
        args.len() > 0 ==> open + 1 < pos,
    ensures
        good(g, start, grammar::subscripts(g, start, pos, depth, e, args), 11),
    decreases g.len() - pos, 23int,
{
    reveal(grammar::subscripts);
    if pos >= g.len() {
    } else if g.is(pos, Kind::Rbracket) {
        sign_at(g, pos, Kind::Rbracket);
        let arg = if args.len() == 1 {
            args[0]
        } else {
            grammar::node(g, start, pos + 1, KindModel::Tuple(args))
        };
        assert(index(g, open + 1, pos, arg)) by {
            reveal(index);
            reveal(pieces);
            reveal(piece);
        }
        indexed(g, start, open, pos, e, arg);
    } else if args.len() == 0 || g.is(pos, Kind::Comma) {
        let from = if args.len() > 0 {
            pos + 1
        } else {
            pos
        };
        if args.len() > 0 {
            sign_at(g, pos, Kind::Comma);
        } else {
            assert(pos == open + 1) by {
                reveal(pieces);
            }
        }
        subscribed_reads(g, from, depth);
        if let Ok((arg, p)) = grammar::moved(g, from, grammar::subscribed(g, from, depth)) {
            if args.len() > 0 {
                pieces_of_more(g, open + 1, pos, p, args, arg);
            } else {
                assert(args.push(arg) =~= seq![arg]);
                assert(pieces(g, from, p, seq![arg])) by {
                    reveal(pieces);
                    reveal(piece);
                }
            }
            subscripts_read(g, start, open, p, depth, e, args.push(arg));
        }
    }
}

#[verifier::spinoff_prover]
proof fn indexed(g: Input, start: int, open: int, close: int, e: ExprModel, arg: ExprModel)
    requires
        part(g, start, open, e, 11),
        open < close,
        mark(g, open, seq!['[']),
        mark(g, close, seq![']']),
        index(g, open + 1, close, arg),
    ensures
        part(
            g,
            start,
            close + 1,
            grammar::node(
                g,
                start,
                close + 1,
                KindModel::Getitem(Box::new(e), Box::new(arg)),
            ),
            11,
        ),
{
    bounds(g, start, open, e, 11);
    reveal(part);
    reveal(reads);
    reveal(index);
    assert(at(open));
}

spec fn good_piece(g: Input, start: int, r: Parsed) -> bool {
    match r {
        Ok((e, p)) => start < p && piece(g, start, p, e),
        Err(_) => true,
    }
}

#[verifier::spinoff_prover]
proof fn subscribed_reads(g: Input, pos: int, depth: int)
    requires
        spelled(g),
        0 <= pos,
    ensures
        good_piece(g, pos, grammar::subscribed(g, pos, depth)),
    decreases g.len() - pos, 22int,
{
    reveal(grammar::subscribed);
    if g.is(pos, Kind::Colon) {
        sign_at(g, pos, Kind::Colon);
        slice_stop_reads(g, pos, pos, pos + 1, depth, None);
    } else {
        expression_reads(g, pos, depth);
        if let Ok((e, p)) = grammar::moved(g, pos, grammar::expression(g, pos, depth)) {
            if g.is(p, Kind::Colon) {
                sign_at(g, p, Kind::Colon);
                assert(optional(g, pos, p, Some(Box::new(e)))) by {
                    reveal(part);
                }
                slice_stop_reads(g, pos, p, p + 1, depth, Some(Box::new(e)));
            } else {
                assert(piece(g, pos, p, e)) by {
                    reveal(piece);
                    reveal(part);
                }
            }
        }
    }
}

#[verifier::spinoff_prover]
proof fn slice_stop_reads(
    g: Input,
    start: int,
    c: int,
    pos: int,
    depth: int,
    first: Option<Box<ExprModel>>,
)
    requires
        spelled(g),
        0 <= start <= c,
        pos == c + 1,
        mark(g, c, seq![':']),
        optional(g, start, c, first),
    ensures
        good_piece(g, start, grammar::slice_stop(g, start, pos, depth, first)),
    decreases g.len() - pos, 22int,
{
    reveal(grammar::slice_stop);
    if g.is(pos, Kind::Colon) || grammar::part_ends(g, pos) {
        slice_step_reads(g, start, c, pos, depth, first, None);
    } else {
        expression_reads(g, pos, depth);
        if let Ok((e, p)) = grammar::moved(g, pos, grammar::expression(g, pos, depth)) {
            assert(optional(g, pos, p, Some(Box::new(e)))) by {
                reveal(part);
            }
            slice_step_reads(g, start, c, p, depth, first, Some(Box::new(e)));
        }
    }
}

#[verifier::spinoff_prover]
proof fn slice_piece(
    g: Input,
    start: int,
    c: int,
    d: int,
    b: int,
    first: Option<Box<ExprModel>>,
    stop: Option<Box<ExprModel>>,
    last: Option<Box<ExprModel>>,
)
    requires
        0 <= start <= c < b,
        mark(g, c, seq![':']),
        optional(g, start, c, first),
        if d == b {
            last is None && optional(g, c + 1, b, stop)
        } else {
            c < d < b && mark(g, d, seq![':']) && optional(g, c + 1, d, stop) && optional(
                g,
                d + 1,
                b,
                last,
            )
        },
    ensures
        piece(g, start, b, grammar::node(g, start, b, KindModel::Slice(first, stop, last))),
{
    reveal(piece);
    reveal(part);
    assert(at(c) && at(d));
}

#[verifier::spinoff_prover]
proof fn slice_step_reads(
    g: Input,
    start: int,
    c: int,
    pos: int,
    depth: int,
    first: Option<Box<ExprModel>>,
    stop: Option<Box<ExprModel>>,
)
    requires
        spelled(g),
        0 <= start <= c < pos,
        mark(g, c, seq![':']),
        optional(g, start, c, first),
        optional(g, c + 1, pos, stop),
    ensures
        good_piece(g, start, grammar::slice_step(g, start, pos, depth, first, stop)),
    decreases g.len() - pos, 21int,
{
    reveal(grammar::slice_step);
    if !g.is(pos, Kind::Colon) {
        slice_piece(g, start, c, pos, pos, first, stop, None);
    } else {
        sign_at(g, pos, Kind::Colon);
        if grammar::part_ends(g, pos + 1) {
            slice_piece(g, start, c, pos, pos + 1, first, stop, None);
        } else {
            expression_reads(g, pos + 1, depth);
            if let Ok((e, p)) = grammar::moved(
                g,
                pos + 1,
                grammar::expression(g, pos + 1, depth),
            ) {
                assert(optional(g, pos + 1, p, Some(Box::new(e)))) by {
                    reveal(part);
                }
                slice_piece(g, start, c, pos, p, first, stop, Some(Box::new(e)));
            }
        }
    }
}

spec fn good_args(g: Input, open: int, r: ParsedArgs) -> bool {
    match r {
        Ok((args, p)) => open < p && called(g, open, p, args),
        Err(_) => true,
    }
}

#[verifier::spinoff_prover]
proof fn call_args_read(g: Input, pos: int, depth: int)
    requires
        spelled(g),
        0 <= pos,
        g.is(pos, Kind::Lparen),
    ensures
        good_args(g, pos, grammar::call_args(g, pos, depth)),
    decreases g.len() - pos, 5int,
{
    reveal(grammar::call_args);
    sign_at(g, pos, Kind::Lparen);
    args_rest_read(g, pos, pos + 1, depth, ast::no_args(), false);
}

#[verifier::spinoff_prover]
proof fn args_rest_read(
    g: Input,
    open: int,
    pos: int,
    depth: int,
    out: ArgsModel,
    require_comma: bool,
)
    requires
        spelled(g),
        0 <= open < pos,
        mark(g, open, seq!['(']),
        if require_comma {
            open + 1 < pos && arguments(g, open + 1, pos, out)
        } else {
            pos == open + 1 && out == ast::no_args()
        },
    ensures
        good_args(g, open, grammar::args_rest(g, pos, depth, out, require_comma)),
    decreases g.len() - pos, 23int,
{
    reveal(grammar::args_rest);
    if pos >= g.len() {
    } else if g.is(pos, Kind::Rparen) {
        sign_at(g, pos, Kind::Rparen);
        assert(called(g, open, pos + 1, out)) by {
            reveal(called);
            reveal(arguments);
        }
    } else if !require_comma {
        assert(behind(g, open + 1, pos, out)) by {
            reveal(behind);
        }
        one_arg_reads(g, open, pos, depth, out);
    } else if g.is(pos, Kind::Comma) {
        sign_at(g, pos, Kind::Comma);
        if g.is(pos + 1, Kind::Rparen) {
            sign_at(g, pos + 1, Kind::Rparen);
            assert(called(g, open, pos + 2, out)) by {
                reveal(called);
                reveal(arguments);
            }
        } else {
            assert(behind(g, open + 1, pos + 1, out)) by {
                reveal(behind);
                reveal(arguments);
            }
            one_arg_reads(g, open, pos + 1, depth, out);
        }
    }
}

proof fn argument_ends(g: Input, a: int, m: int, b: int, out: ArgsModel)
    requires
        last_argument(g, a, m, b, out),
    ensures
        arguments(g, a, b, out),
{
    reveal(arguments);
    reveal(last_argument);
    assert(at(m));
}

#[verifier::spinoff_prover]
proof fn one_arg_reads(g: Input, open: int, pos: int, depth: int, out: ArgsModel)
    requires
        spelled(g),
        0 <= open < pos,
        mark(g, open, seq!['(']),
        behind(g, open + 1, pos, out),
    ensures
        good_args(g, open, grammar::one_arg(g, pos, depth, out)),
    decreases g.len() - pos, 22int,
{
    reveal(grammar::one_arg);
    let a = open + 1;
    if pos >= g.len() {
    } else if g.is(pos, Kind::Mul) {
        sign_at(g, pos, Kind::Mul);
        expression_reads(g, pos + 1, depth);
        if let Ok((e, p)) = grammar::moved(g, pos + 1, grammar::expression(g, pos + 1, depth)) {
            if out.dyn_args is None && out.dyn_kwargs is None {
                let more = ArgsModel { dyn_args: Some(Box::new(e)), ..out };
                assert(last_argument(g, a, pos, p, more)) by {
                    reveal(last_argument);
                    reveal(part);
                    reveal(behind);
                    assert(ArgsModel { dyn_args: None, ..more } == out);
                }
                argument_ends(g, a, pos, p, more);
                args_rest_read(g, open, p, depth, more, true);
            }
        }
    } else if g.is(pos, Kind::Pow) {
        sign_at(g, pos, Kind::Pow);
        expression_reads(g, pos + 1, depth);
        if let Ok((e, p)) = grammar::moved(g, pos + 1, grammar::expression(g, pos + 1, depth)) {
            if out.dyn_kwargs is None {
                let more = ArgsModel { dyn_kwargs: Some(Box::new(e)), ..out };
                assert(last_argument(g, a, pos, p, more)) by {
                    reveal(last_argument);
                    reveal(part);
                    reveal(behind);
                    assert(ArgsModel { dyn_kwargs: None, ..more } == out);
                }
                argument_ends(g, a, pos, p, more);
                args_rest_read(g, open, p, depth, more, true);
            }
        }
    } else if g.is(pos, Kind::Name) && g.is(pos + 1, Kind::Assign) {
        sign_at(g, pos + 1, Kind::Assign);
        expression_reads(g, pos + 2, depth);
        if let Ok((e, p)) = grammar::moved(g, pos + 2, grammar::expression(g, pos + 2, depth)) {
            if out.dyn_kwargs is None {
                let more = ArgsModel { kwargs: out.kwargs.push((g.text(pos), e)), ..out };
                assert(last_argument(g, a, pos, p, more)) by {
                    reveal(last_argument);
                    reveal(part);
                    reveal(behind);
                    assert(more.kwargs.drop_last() =~= out.kwargs);
                    assert(ArgsModel { kwargs: more.kwargs.drop_last(), ..more } == out);
                }
                argument_ends(g, a, pos, p, more);
                args_rest_read(g, open, p, depth, more, true);
            }
        }
    } else {
        expression_reads(g, pos, depth);
        if let Ok((e, p)) = grammar::moved(g, pos, grammar::expression(g, pos, depth)) {
            if out.dyn_args is None && out.dyn_kwargs is None && out.kwargs.len() == 0 {
                let more = ArgsModel { args: out.args.push(e), ..out };
                assert(last_argument(g, a, pos, p, more)) by {
                    reveal(last_argument);
                    reveal(part);
                    reveal(behind);
                    assert(more.args.drop_last() =~= out.args);
                    assert(ArgsModel { args: more.args.drop_last(), ..more } == out);
                }
                argument_ends(g, a, pos, p, more);
                args_rest_read(g, open, p, depth, more, true);
            }
        }
    }
}

#[verifier::spinoff_prover]
proof fn call_node(
    g: Input,
    start: int,
    pos: int,
    b: int,
    e: ExprModel,
    args: ArgsModel,
    low: int,
)
    requires
        low == 11 || low == 9,
        part(g, start, pos, e, low),
        pos < b <= g.toks.len(),
        called(g, pos, b, args),
    ensures
        part(g, start, b, grammar::node(g, start, b, KindModel::Call(Box::new(e), args)), low),
{
    bounds(g, start, pos, e, low);
    reveal(part);
    reveal(reads);
    reveal(called);
    assert(at(pos) && at(low));
}

#[verifier::spinoff_prover]
proof fn call_reads(g: Input, start: int, pos: int, depth: int, e: ExprModel, low: int)
    requires
        spelled(g),
        0 <= start < pos,
        g.is(pos, Kind::Lparen),
        low == 11 || low == 9,
        part(g, start, pos, e, low),
    ensures
        good(g, start, grammar::call(g, start, pos, depth, e), low),
    decreases g.len() - pos, 6int,
{
    reveal(grammar::call);
    call_args_read(g, pos, depth);
    if let Ok((args, p)) = grammar::call_args(g, pos, depth) {
        assert(p <= g.toks.len()) by {
            reveal(called);
        }
        call_node(g, start, pos, p, e, args, low);
    }
}

proof fn dotted_name_reads(g: Input, pos: int)
    requires
        spelled(g),
        0 <= pos,
    ensures
        match grammar::dotted_name(g, pos) {
            Ok((name, p)) => pos < p && dotted(g, pos, p) == Some(name),
            Err(_) => true,
        },
{
    if g.is(pos, Kind::Name) {
        dotted_rest_reads(g, pos, pos + 1, g.text(pos));
    }
}

proof fn dotted_rest_reads(g: Input, start: int, pos: int, acc: Seq<char>)
    requires
        spelled(g),
        0 <= start < pos,
        dotted(g, start, pos) == Some(acc),
    ensures
        match grammar::dotted_rest(g, pos, acc) {
            Ok((name, p)) => start < p && dotted(g, start, p) == Some(name),
            Err(_) => true,
        },
    decreases g.len() - pos,
{
    reveal(grammar::dotted_rest);
    if g.is(pos, Kind::Dot) {
        sign_at(g, pos, Kind::Dot);
        if pos + 1 < g.len() && g.is(pos + 1, Kind::Name) {
            dotted_rest_reads(g, start, pos + 2, acc.push('.') + g.text(pos + 1));
        }
    }
}

#[verifier::spinoff_prover]
proof fn filter_node(
    g: Input,
    start: int,
    pos: int,
    c: int,
    b: int,
    e: ExprModel,
    name: Seq<char>,
    args: ArgsModel,
)
    requires
        part(g, start, pos, e, 9),
        mark(g, pos, seq!['|']),
        pos < c <= b <= g.toks.len(),
        dotted(g, pos + 1, c) == Some(name),
        if c == b {
            args == ast::no_args()
        } else {
            called(g, c, b, args)
        },
    ensures
        part(
            g,
            start,
            b,
            grammar::node(g, start, b, KindModel::Filter(Box::new(e), name, args)),
            9,
        ),
{
    bounds(g, start, pos, e, 9);
    reveal(part);
    reveal(reads);
    reveal(called);
    assert(at(pos) && at(c));
}

spec fn good_optional(g: Input, p: int, r: ParsedArgs) -> bool {
    match r {
        Ok((args, q)) => (q == p && args == ast::no_args()) || (p < q && called(g, p, q, args)),
        Err(_) => true,
    }
}

#[verifier::spinoff_prover]
proof fn optional_args_read(g: Input, pos: int, depth: int)
    requires
        spelled(g),
        0 <= pos,
    ensures
        good_optional(g, pos, grammar::optional_args(g, pos, depth)),
    decreases g.len() - pos, 6int,
{
    reveal(grammar::optional_args);
    if g.is(pos, Kind::Lparen) {
        call_args_read(g, pos, depth);
    }
}

#[verifier::spinoff_prover]
proof fn filter_reads(g: Input, start: int, pos: int, depth: int, e: ExprModel)
    requires
        spelled(g),
        0 <= start < pos,
        part(g, start, pos, e, 9),
    ensures
        good(g, start, grammar::filter(g, start, pos, depth, e), 9),
    decreases g.len() - pos, 7int,
{
    reveal(grammar::filter);
    if g.is(pos, Kind::Pipe) {
        sign_at(g, pos, Kind::Pipe);
        dotted_name_reads(g, pos + 1);
        if let Ok((name, p)) = grammar::moved_text(g, pos + 1, grammar::dotted_name(g, pos + 1)) {
            optional_args_read(g, p, depth);
            if let Ok((args, q)) = grammar::moved_args(
                g,
                p - 1,
                grammar::optional_args(g, p, depth),
            ) {
                filter_node(g, start, pos, p, q, e, name, args);
                let kind = KindModel::Filter(Box::new(e), name, args);
                filter_reads(g, start, q, depth, grammar::node(g, start, q, kind));
            }
        }
    }
}

#[verifier::spinoff_prover]
proof fn test_args_read(g: Input, pos: int, depth: int)
    requires
        spelled(g),
        0 <= pos,
    ensures
        match grammar::test_args(g, pos, depth) {
            Ok((args, p)) => tested(g, pos, p, args),
            Err(_) => true,
        },
    decreases g.len() - pos, 9int,
{
    reveal(grammar::test_args);
    if g.is(pos, Kind::Lparen) {
        call_args_read(g, pos, depth);
        reveal(tested);
        reveal(called);
    } else if grammar::test_argument(g, pos) {
        primary_reads(g, pos, depth);
        if let Ok((e, p)) = grammar::moved(g, pos, grammar::primary(g, pos, depth)) {
            postfix_reads(g, pos, p, depth, e);
            if let Ok((arg, q)) = grammar::kept(g, p, grammar::postfix(g, pos, p, depth, e)) {
                reveal(tested);
                reveal(part);
            }
        }
    } else {
        reveal(tested);
    }
}

#[verifier::spinoff_prover]
proof fn test_node(
    g: Input,
    start: int,
    pos: int,
    from: int,
    c: int,
    b: int,
    e: ExprModel,
    name: Seq<char>,
    args: ArgsModel,
)
    requires
        part(g, start, pos, e, 9),
        says(g, pos, "is"@),
        from == pos + 1 || (from == pos + 2 && says(g, pos + 1, "not"@)),
        from < c <= b <= g.toks.len(),
        dotted(g, from, c) == Some(name),
        tested(g, c, b, args),
    ensures
        ({
            let t = grammar::node(g, start, b, KindModel::Test(Box::new(e), name, args));
            if from == pos + 1 {
                part(g, start, b, t, 9)
            } else {
                part(
                    g,
                    start,
                    b,
                    grammar::node(g, start, b, KindModel::Unary(UnOp::Not, Box::new(t))),
                    9,
                )
            }
        }),
{
    bounds(g, start, pos, e, 9);
    reveal(part);
    reveal(reads);
    reveal(tested);
    assert(at(pos) && at(c));
}

#[verifier::spinoff_prover]
proof fn test_reads(g: Input, start: int, pos: int, depth: int, e: ExprModel)
    requires
        spelled(g),
        0 <= start < pos,
        g.word(pos, "is"@),
        part(g, start, pos, e, 9),
    ensures
        good(g, start, grammar::test(g, start, pos, depth, e), 9),
    decreases g.len() - pos, 7int,
{
    reveal(grammar::test);
    let from = if g.word(pos + 1, "not"@) {
        pos + 2
    } else {
        pos + 1
    };
    if from < g.len() {
        dotted_name_reads(g, from);
        if let Ok((name, p)) = grammar::moved_text(g, from, grammar::dotted_name(g, from)) {
            test_args_read(g, p, depth);
            if let Ok((args, q)) = grammar::moved_args(g, p - 1, grammar::test_args(g, p, depth)) {
                test_node(g, start, pos, from, p, q, e, name, args);
            }
        }
    }
}

// ------------------------------------------------------------------ what is promised

/// The tree of a text, read back, is the text: its tokens, all but the end, spell the tree, with
/// every operator in its own spelling and every part in its place.
#[verifier::spinoff_prover]
pub proof fn the_tree_reads_back(src: Seq<char>, toks: Seq<Token>)
    requires
        lexer::lexed(src) == Ok::<Seq<Token>, ErrorModel>(toks),
        grammar::parsed(src) is Ok,
        encode_utf8(src).len() <= usize::MAX,
    ensures
        part((Input { src, toks }), 0, toks.len() - 1, grammar::parsed(src)->Ok_0, 0),
{
    let g = Input { src, toks };
    tokens_are_spelled(src, toks);
    expression_reads(g, 0, 0);
    breadth::tokens_have_an_end(encode_utf8(src), 0, Seq::empty());
    cover::one_end(encode_utf8(src), 0, Seq::empty());
}

/// So does every expression inside of a tag.
pub proof fn an_expression_reads_back(src: Seq<char>, toks: Seq<Token>, pos: int, depth: int)
    requires
        lexer::lexed(src) == Ok::<Seq<Token>, ErrorModel>(toks),
        encode_utf8(src).len() <= usize::MAX,
        0 <= pos,
    ensures
        match grammar::expression((Input { src, toks }), pos, depth) {
            Ok((e, p)) => part((Input { src, toks }), pos, p, e, 0),
            Err(_) => true,
        },
{
    tokens_are_spelled(src, toks);
    expression_reads(Input { src, toks }, pos, depth);
}

} // verus!
