//! Which tags open a block and which close it, and what that makes of a whole template.

use vstd::prelude::*;

use crate::jinja::ast::{ConstModel, ExprModel, KindModel};
use crate::jinja::grammar::{self, Input};
use crate::jinja::lexer::{self, ErrorModel, Kind, Token};
use crate::jinja::statement::{self, Opened, RefModel, RefTag, StmtModel};
use crate::jinja::template::{self, Block};
use crate::keywords;
use crate::parse;

verus! {

/// The tags that open a block, each with the tag that closes it.
pub open spec fn pair(t: Seq<char>, e: Seq<char>) -> bool {
    ||| t == "for"@ && e == "endfor"@
    ||| t == "if"@ && e == "endif"@
    ||| t == "block"@ && e == "endblock"@
    ||| t == "macro"@ && e == "endmacro"@
    ||| t == "call"@ && e == "endcall"@
    ||| t == "filter"@ && e == "endfilter"@
    ||| t == "with"@ && e == "endwith"@
    ||| t == "autoescape"@ && e == "endautoescape"@
    ||| t == "trans"@ && e == "endtrans"@
    ||| t == "set"@ && e == "endset"@
}

/// Does the tag open a block whatever else stands in it?
pub open spec fn bare(t: Seq<char>) -> bool {
    t == "block"@ || t == "filter"@ || t == "with"@ || t == "autoescape"@ || t == "trans"@
}

/// Is the tag of this name?
pub open spec fn tagged(g: Input, t: Seq<char>) -> bool {
    g.is(0, Kind::Name) && g.text(0) == t
}

/// How many brackets are open in front of the token at `i`, counted behind the name of the tag.
pub open spec fn brackets(g: Input, i: int) -> int
    decreases i,
{
    if i <= 1 {
        0
    } else {
        let before = brackets(g, i - 1);
        match g.toks[i - 1].kind {
            Kind::Lparen | Kind::Lbracket | Kind::Lbrace => before + 1,
            Kind::Rparen | Kind::Rbracket | Kind::Rbrace => before - 1,
            _ => before,
        }
    }
}

/// Does an `=` stand in the tag, outside of all brackets?
pub open spec fn assigns(g: Input) -> bool {
    exists|i: int| 1 <= i && #[trigger] g.is(i, Kind::Assign) && brackets(g, i) == 0
}

// ------------------------------------------------------------------ the table

proof fn table()
    ensures
        statement::OPENERS@.len() == 10,
        statement::OPENERS@[0].0@ == "for"@ && statement::OPENERS@[0].1@ == "endfor"@,
        statement::OPENERS@[1].0@ == "if"@ && statement::OPENERS@[1].1@ == "endif"@,
        statement::OPENERS@[2].0@ == "block"@ && statement::OPENERS@[2].1@ == "endblock"@,
        statement::OPENERS@[3].0@ == "macro"@ && statement::OPENERS@[3].1@ == "endmacro"@,
        statement::OPENERS@[4].0@ == "call"@ && statement::OPENERS@[4].1@ == "endcall"@,
        statement::OPENERS@[5].0@ == "filter"@ && statement::OPENERS@[5].1@ == "endfilter"@,
        statement::OPENERS@[6].0@ == "with"@ && statement::OPENERS@[6].1@ == "endwith"@,
        statement::OPENERS@[7].0@ == "autoescape"@ && statement::OPENERS@[7].1@
            == "endautoescape"@,
        statement::OPENERS@[8].0@ == "trans"@ && statement::OPENERS@[8].1@ == "endtrans"@,
        statement::OPENERS@[9].0@ == "set"@ && statement::OPENERS@[9].1@ == "endset"@,
{
}

proof fn closer_is_listed(t: Seq<char>, i: int)
    requires
        0 <= i,
    ensures
        match statement::closer(t, i) {
            Some(e) => exists|k: int|
                i <= k < statement::OPENERS@.len() && (#[trigger] statement::OPENERS@[k]).0@ == t
                    && statement::OPENERS@[k].1@ == e,
            None => forall|k: int|
                i <= k < statement::OPENERS@.len() ==> (#[trigger] statement::OPENERS@[k]).0@ != t,
        },
    decreases statement::OPENERS@.len() - i,
{
    if i < statement::OPENERS@.len() {
        closer_is_listed(t, i + 1);
        assert(statement::OPENERS@[i].0@ == statement::OPENERS@[i].0@);
    }
}

proof fn opener_is_listed(e: Seq<char>, i: int)
    requires
        0 <= i,
    ensures
        match statement::opener(e, i) {
            Some(t) => exists|k: int|
                i <= k < statement::OPENERS@.len() && (#[trigger] statement::OPENERS@[k]).1@ == e
                    && statement::OPENERS@[k].0@ == t,
            None => forall|k: int|
                i <= k < statement::OPENERS@.len() ==> (#[trigger] statement::OPENERS@[k]).1@ != e,
        },
    decreases statement::OPENERS@.len() - i,
{
    if i < statement::OPENERS@.len() {
        opener_is_listed(e, i + 1);
        assert(statement::OPENERS@[i].1@ == statement::OPENERS@[i].1@);
    }
}

/// A closing tag is its opening tag behind `end`.
proof fn an_end_begins_with_end(t: Seq<char>, e: Seq<char>)
    requires
        pair(t, e),
    ensures
        e == "end"@ + t,
{
    reveal_strlit("end");
    reveal_strlit("for");
    reveal_strlit("endfor");
    reveal_strlit("if");
    reveal_strlit("endif");
    reveal_strlit("block");
    reveal_strlit("endblock");
    reveal_strlit("macro");
    reveal_strlit("endmacro");
    reveal_strlit("call");
    reveal_strlit("endcall");
    reveal_strlit("filter");
    reveal_strlit("endfilter");
    reveal_strlit("with");
    reveal_strlit("endwith");
    reveal_strlit("autoescape");
    reveal_strlit("endautoescape");
    reveal_strlit("trans");
    reveal_strlit("endtrans");
    reveal_strlit("set");
    reveal_strlit("endset");
    assert(e =~= "end"@ + t);
}

proof fn the_rest_of_an_end(a: Seq<char>, b: Seq<char>)
    requires
        "end"@ + a == "end"@ + b,
    ensures
        a == b,
{
    let n = "end"@.len() as int;
    let x = "end"@ + a;
    let y = "end"@ + b;
    assert(a =~= x.subrange(n, x.len() as int));
    assert(b =~= y.subrange(n, y.len() as int));
}

/// No opening tag begins with `end`.
proof fn an_opening_is_no_end(t: Seq<char>, e: Seq<char>, a: Seq<char>)
    requires
        pair(t, e),
    ensures
        t != "end"@ + a,
{
    reveal_strlit("end");
    reveal_strlit("for");
    reveal_strlit("if");
    reveal_strlit("block");
    reveal_strlit("macro");
    reveal_strlit("call");
    reveal_strlit("filter");
    reveal_strlit("with");
    reveal_strlit("autoescape");
    reveal_strlit("trans");
    reveal_strlit("set");
    let x = "end"@ + a;
    assert(x[0] == 'e');
    assert(t[0] != 'e');
}

proof fn listed_pair(k: int)
    requires
        0 <= k < statement::OPENERS@.len(),
    ensures
        pair(statement::OPENERS@[k].0@, statement::OPENERS@[k].1@),
{
    table();
}

/// What a tag of the table closes, and what closes it.
proof fn found_in_table(t: Seq<char>, e: Seq<char>)
    requires
        pair(t, e),
    ensures
        statement::closer(t, 0) == Some(e),
        statement::opener(e, 0) == Some(t),
        statement::closer(e, 0) is None,
{
    table();
    closer_is_listed(t, 0);
    opener_is_listed(e, 0);
    closer_is_listed(e, 0);
    an_end_begins_with_end(t, e);
    assert(exists|k: int|
        0 <= k < statement::OPENERS@.len() && (#[trigger] statement::OPENERS@[k]).0@ == t
            && statement::OPENERS@[k].1@ == e) by {
        if t == "for"@ {
            assert(statement::OPENERS@[0].0@ == t);
        } else if t == "if"@ {
            assert(statement::OPENERS@[1].0@ == t);
        } else if t == "block"@ {
            assert(statement::OPENERS@[2].0@ == t);
        } else if t == "macro"@ {
            assert(statement::OPENERS@[3].0@ == t);
        } else if t == "call"@ {
            assert(statement::OPENERS@[4].0@ == t);
        } else if t == "filter"@ {
            assert(statement::OPENERS@[5].0@ == t);
        } else if t == "with"@ {
            assert(statement::OPENERS@[6].0@ == t);
        } else if t == "autoescape"@ {
            assert(statement::OPENERS@[7].0@ == t);
        } else if t == "trans"@ {
            assert(statement::OPENERS@[8].0@ == t);
        } else {
            assert(statement::OPENERS@[9].0@ == t);
        }
        let k = choose|k: int|
            0 <= k < statement::OPENERS@.len() && (#[trigger] statement::OPENERS@[k]).0@ == t;
        listed_pair(k);
        an_end_begins_with_end(t, statement::OPENERS@[k].1@);
    }
    if let Some(x) = statement::closer(t, 0) {
        let k = choose|k: int|
            0 <= k < statement::OPENERS@.len() && (#[trigger] statement::OPENERS@[k]).0@ == t
                && statement::OPENERS@[k].1@ == x;
        listed_pair(k);
        an_end_begins_with_end(t, x);
    }
    if let Some(x) = statement::opener(e, 0) {
        let k = choose|k: int|
            0 <= k < statement::OPENERS@.len() && (#[trigger] statement::OPENERS@[k]).1@ == e
                && statement::OPENERS@[k].0@ == x;
        listed_pair(k);
        an_end_begins_with_end(x, e);
        the_rest_of_an_end(x, t);
    }
    if let Some(x) = statement::closer(e, 0) {
        let k = choose|k: int|
            0 <= k < statement::OPENERS@.len() && (#[trigger] statement::OPENERS@[k]).0@ == e
                && statement::OPENERS@[k].1@ == x;
        listed_pair(k);
        an_opening_is_no_end(e, x, t);
    }
}

// ------------------------------------------------------------------ one tag

proof fn assigned_outside(g: Input, i: int)
    requires
        1 <= i,
    ensures
        statement::assigned(g, i, brackets(g, i)) == exists|k: int|
            i <= k && #[trigger] g.is(k, Kind::Assign) && brackets(g, k) == 0,
    decreases g.len() - i,
{
    if i < g.len() {
        assigned_outside(g, i + 1);
        let d = brackets(g, i);
        if g.is(i, Kind::Assign) && d == 0 {
            assert(statement::assigned(g, i, d));
        } else {
            assert(statement::assigned(g, i, d) == statement::assigned(
                g,
                i + 1,
                brackets(g, i + 1),
            ));
            if exists|k: int| i <= k && #[trigger] g.is(k, Kind::Assign) && brackets(g, k) == 0 {
                let k = choose|k: int|
                    i <= k && #[trigger] g.is(k, Kind::Assign) && brackets(g, k) == 0;
                assert(i + 1 <= k && g.is(k, Kind::Assign));
            }
        }
    }
}

/// A `set` without an `=` outside of brackets opens a block that `endset` closes. One with such an
/// `=` opens none.
pub proof fn a_set_opens_unless_it_assigns(g: Input, off: int)
    requires
        tagged(g, "set"@),
    ensures
        !assigns(g) ==> statement::tag_of(g, off) == Ok::<StmtModel, ErrorModel>(
            StmtModel::Open { tag: "set"@, end: "endset"@, references: Seq::empty() },
        ),
        assigns(g) ==> match statement::tag_of(g, off) {
            Ok(stmt) => stmt == (StmtModel::Standalone {
                tag: "set"@,
                references: Seq::empty(),
            }),
            Err(_) => true,
        },
{
    assigned_outside(g, 1);
    reveal_strlit("set");
    reveal_strlit("extends");
    reveal_strlit("include");
    reveal_strlit("import");
    reveal_strlit("from");
    assert("set"@.len() == 3 && "extends"@.len() == 7 && "include"@.len() == 7);
    assert("import"@.len() == 6 && "from"@.len() == 4);
}

/// A tag that opens a block is refused, or opens the block that its end tag closes. A `block`, a
/// `filter`, a `with`, an `autoescape` and a `trans` is never refused.
pub proof fn an_opening_tag_opens(g: Input, off: int, t: Seq<char>, e: Seq<char>)
    requires
        pair(t, e),
        t != "set"@,
        tagged(g, t),
    ensures
        match statement::tag_of(g, off) {
            Ok(stmt) => stmt == (StmtModel::Open { tag: t, end: e, references: Seq::empty() }),
            Err(_) => !bare(t),
        },
{
    found_in_table(t, e);
    if bare(t) {
        reveal_strlit("block");
        reveal_strlit("filter");
        reveal_strlit("with");
        reveal_strlit("autoescape");
        reveal_strlit("trans");
        reveal_strlit("if");
        reveal_strlit("for");
        reveal_strlit("macro");
        reveal_strlit("call");
        assert("block"@.len() == 5 && "filter"@.len() == 6 && "with"@.len() == 4);
        assert("autoescape"@.len() == 10 && "trans"@.len() == 5 && "if"@.len() == 2);
        assert("for"@.len() == 3 && "macro"@.len() == 5 && "call"@.len() == 4);
        assert("block"@[0] == 'b' && "macro"@[0] == 'm' && "trans"@[0] == 't');
        assert("with"@[0] == 'w' && "call"@[0] == 'c');
    }
}

/// An `if` opens where an expression follows it, and is refused where none does.
pub proof fn an_if_reads_its_condition(g: Input, off: int)
    requires
        tagged(g, "if"@),
    ensures
        statement::tag_of(g, off) is Ok <==> !g.is(1, Kind::Eof) && grammar::expression(g, 1, 0)
            is Ok,
{
    found_in_table("if"@, "endif"@);
    reveal_strlit("if");
    reveal_strlit("set");
    assert("if"@.len() == 2 && "set"@.len() == 3);
}

/// A tag that closes a block ends the one that its opening tag opens.
pub proof fn a_closing_tag_closes(g: Input, off: int, t: Seq<char>, e: Seq<char>)
    requires
        pair(t, e),
        tagged(g, e),
    ensures
        statement::tag_of(g, off) == Ok::<StmtModel, ErrorModel>(
            StmtModel::End { tag: e, opener: t },
        ),
{
    found_in_table(t, e);
    an_end_begins_with_end(t, e);
    an_opening_is_no_end("set"@, "endset"@, t);
}

// ------------------------------------------------------------------ templates

/// What runs through alone, runs through inside of open blocks, and leaves them as they are.
proof fn runs_inside(
    src: Seq<char>,
    body: Seq<Block>,
    whole: Seq<Block>,
    off: int,
    i: int,
    base: Seq<Opened>,
    stack: Seq<Opened>,
    before: Seq<RefModel>,
    refs: Seq<RefModel>,
)
    requires
        0 <= i <= body.len(),
        0 <= off,
        off + body.len() <= whole.len(),
        forall|j: int| 0 <= j < body.len() ==> #[trigger] body[j] == whole[off + j],
        statement::checked_from(src, body, i, stack, refs) is Ok,
    ensures
        statement::checked_from(src, whole, off + i, base + stack, before + refs)
            == statement::checked_from(
            src,
            whole,
            off + body.len(),
            base,
            before + statement::checked_from(src, body, i, stack, refs)->Ok_0,
        ),
    decreases body.len() - i,
{
    if i < body.len() {
        let b = body[i];
        assert(b == whole[off + i]);
        if b.kind != template::Kind::Statement {
            runs_inside(src, body, whole, off, i + 1, base, stack, before, refs);
        } else {
            let stmt = statement::statement_of(src, b.inner)->Ok_0;
            let next = statement::nest(stack, stmt, b.span)->Ok_0;
            assert(statement::nest(stack, stmt, b.span) is Ok);
            assert(statement::nest(base + stack, stmt, b.span) == Ok::<Seq<Opened>, ErrorModel>(
                base + next,
            )) by {
                let all = base + stack;
                match stmt {
                    StmtModel::Open { tag, .. } => {
                        assert(all.push((tag, b.span)) =~= base + stack.push((tag, b.span)));
                    },
                    StmtModel::Standalone { .. } => {},
                    StmtModel::Continuation { tag } => {
                        assert(all.last() == stack.last());
                    },
                    StmtModel::End { tag, opener } => {
                        assert(all.last() == stack.last());
                        assert(all.drop_last() =~= base + stack.drop_last());
                    },
                }
            }
            let more = statement::named_by(stmt);
            assert((before + refs) + more =~= before + (refs + more));
            runs_inside(src, body, whole, off, i + 1, base, next, before, refs + more);
        }
    } else {
        assert(base + stack =~= base);
    }
}

/// Is the block this statement?
pub open spec fn says(src: Seq<char>, b: Block, stmt: StmtModel) -> bool {
    b.kind == template::Kind::Statement && statement::statement_of(src, b.inner) == Ok::<
        StmtModel,
        ErrorModel,
    >(stmt)
}

/// A block that is opened, holds what is accepted alone, and is closed by the tag of its opening
/// is accepted, and names what stands in it.
pub proof fn a_closed_block_is_accepted(
    src: Seq<char>,
    open: Block,
    body: Seq<Block>,
    close: Block,
    t: Seq<char>,
    e: Seq<char>,
)
    requires
        says(src, open, StmtModel::Open { tag: t, end: e, references: Seq::empty() }),
        says(src, close, StmtModel::End { tag: e, opener: t }),
        statement::checked(src, body) is Ok,
    ensures
        statement::checked(src, seq![open] + body + seq![close]) == statement::checked(src, body),
{
    let whole = seq![open] + body + seq![close];
    let none = Seq::<RefModel>::empty();
    let stack = Seq::<Opened>::empty();
    let base = stack.push((t, open.span));
    let named = statement::checked(src, body)->Ok_0;
    assert(whole[0] == open);
    assert(whole[body.len() as int + 1] == close);
    assert(none + none =~= none);
    assert(base + stack =~= base);
    runs_inside(src, body, whole, 1, 0, base, stack, none, none);
    assert(none + named =~= named);
    assert(base.drop_last() =~= stack);
    assert(named + none =~= named);
    assert(statement::checked_from(src, whole, 1, base, none) == statement::checked_from(
        src,
        whole,
        1 + body.len() as int,
        base,
        named,
    ));
    reveal_with_fuel(statement::checked_from, 2);
}

/// A block that is opened and not closed is refused, with the tag that is looked for, where it
/// was opened.
pub proof fn an_open_block_is_refused(
    src: Seq<char>,
    open: Block,
    body: Seq<Block>,
    t: Seq<char>,
    e: Seq<char>,
)
    requires
        says(src, open, StmtModel::Open { tag: t, end: e, references: Seq::empty() }),
        statement::checked(src, body) is Ok,
    ensures
        statement::checked(src, seq![open] + body) is Err,
        statement::checked(src, seq![open] + body)->Err_0.span == open.span,
        statement::checked(src, seq![open] + body)->Err_0.msg
            == "Unexpected end of template. Jinja was looking for the following tags: 'end"@ + t
            + "'. The innermost block that needs to be closed is '"@ + t + "'."@,
{
    let whole = seq![open] + body;
    let none = Seq::<RefModel>::empty();
    let stack = Seq::<Opened>::empty();
    let base = stack.push((t, open.span));
    let named = statement::checked(src, body)->Ok_0;
    assert(whole[0] == open);
    assert(none + none =~= none);
    assert(base + stack =~= base);
    runs_inside(src, body, whole, 1, 0, base, stack, none, none);
    assert(base.last() == (t, open.span));
    reveal_with_fuel(statement::checked_from, 2);
}

/// A closing tag behind what is accepted alone is refused: it closes nothing.
pub proof fn a_lone_end_is_refused(
    src: Seq<char>,
    body: Seq<Block>,
    close: Block,
    t: Seq<char>,
    e: Seq<char>,
)
    requires
        says(src, close, StmtModel::End { tag: e, opener: t }),
        statement::checked(src, body) is Ok,
    ensures
        statement::checked(src, body + seq![close]) is Err,
        statement::checked(src, body + seq![close])->Err_0.span == close.span,
{
    let whole = body + seq![close];
    let none = Seq::<RefModel>::empty();
    let stack = Seq::<Opened>::empty();
    assert(whole[body.len() as int] == close);
    assert(none + none =~= none);
    assert(stack + stack =~= stack);
    runs_inside(src, body, whole, 0, 0, stack, stack, none, none);
    reveal_with_fuel(statement::checked_from, 2);
}

/// A closing tag of another block is refused.
pub proof fn a_crossed_end_is_refused(
    src: Seq<char>,
    open: Block,
    body: Seq<Block>,
    close: Block,
    t: Seq<char>,
    other: Seq<char>,
    e: Seq<char>,
    f: Seq<char>,
)
    requires
        says(src, open, StmtModel::Open { tag: t, end: e, references: Seq::empty() }),
        says(src, close, StmtModel::End { tag: f, opener: other }),
        t != other,
        statement::checked(src, body) is Ok,
    ensures
        statement::checked(src, seq![open] + body + seq![close]) is Err,
        statement::checked(src, seq![open] + body + seq![close])->Err_0.span == close.span,
{
    let whole = seq![open] + body + seq![close];
    let none = Seq::<RefModel>::empty();
    let stack = Seq::<Opened>::empty();
    let base = stack.push((t, open.span));
    assert(whole[0] == open);
    assert(whole[body.len() as int + 1] == close);
    assert(none + none =~= none);
    assert(base + stack =~= base);
    runs_inside(src, body, whole, 1, 0, base, stack, none, none);
    assert(base.last() == (t, open.span));
    reveal_with_fuel(statement::checked_from, 2);
}

/// Blocks that are no statements, such as comments and expressions, change nothing.
pub proof fn data_is_accepted(src: Seq<char>, body: Seq<Block>)
    requires
        forall|i: int|
            0 <= i < body.len() ==> (#[trigger] body[i]).kind != template::Kind::Statement,
    ensures
        statement::checked(src, body) == Ok::<Seq<RefModel>, ErrorModel>(Seq::empty()),
{
    data_from(src, body, 0);
}

proof fn data_from(src: Seq<char>, body: Seq<Block>, i: int)
    requires
        0 <= i <= body.len(),
        forall|k: int|
            0 <= k < body.len() ==> (#[trigger] body[k]).kind != template::Kind::Statement,
    ensures
        statement::checked_from(src, body, i, Seq::empty(), Seq::empty()) == Ok::<
            Seq<RefModel>,
            ErrorModel,
        >(Seq::empty()),
    decreases body.len() - i,
{
    if i < body.len() {
        data_from(src, body, i + 1);
    }
}

/// Are these the tokens of a tag?
pub open spec fn holds(src: Seq<char>, b: Block, g: Input) -> bool {
    &&& b.kind == template::Kind::Statement
    &&& g.src == parse::text_between(src, b.inner.start as int, b.inner.end as int)
    &&& lexer::lexed(g.src) == Ok::<Seq<Token>, ErrorModel>(g.toks)
}

/// For every tag that opens a block: with data and its end tag behind it, it is accepted; with
/// data alone, it is refused as not closed. A `set` opens one where it has no `=` outside of
/// brackets, and `if`, `for`, `macro` and `call` where what stands in them is well formed.
pub proof fn an_opening_needs_its_end(
    src: Seq<char>,
    open: Block,
    data: Seq<Block>,
    close: Block,
    g: Input,
    h: Input,
    t: Seq<char>,
    e: Seq<char>,
)
    requires
        pair(t, e),
        holds(src, open, g),
        tagged(g, t),
        t == "set"@ ==> !assigns(g),
        t != "set"@ && !bare(t) ==> statement::tag_of(g, open.inner.start as int) is Ok,
        forall|i: int|
            0 <= i < data.len() ==> (#[trigger] data[i]).kind != template::Kind::Statement,
        holds(src, close, h),
        tagged(h, e),
    ensures
        statement::checked(src, seq![open] + data + seq![close]) == Ok::<Seq<RefModel>, ErrorModel>(
            Seq::empty(),
        ),
        statement::checked(src, seq![open] + data) is Err,
        statement::checked(src, seq![open] + data)->Err_0.span == open.span,
{
    if t == "set"@ {
        a_set_opens_unless_it_assigns(g, open.inner.start as int);
        an_end_begins_with_end(t, e);
        an_end_begins_with_end(t, "endset"@);
    } else {
        an_opening_tag_opens(g, open.inner.start as int, t, e);
    }
    a_closing_tag_closes(h, close.inner.start as int, t, e);
    data_is_accepted(src, data);
    assert(g == (Input { src: g.src, toks: g.toks }));
    assert(h == (Input { src: h.src, toks: h.toks }));
    a_closed_block_is_accepted(src, open, data, close, t, e);
    an_open_block_is_refused(src, open, data, t, e);
}

/// What is accepted twice, one behind the other, is accepted, and names both.
pub proof fn templates_may_follow_each_other(src: Seq<char>, a: Seq<Block>, b: Seq<Block>)
    requires
        statement::checked(src, a) is Ok,
        statement::checked(src, b) is Ok,
    ensures
        statement::checked(src, a + b) == Ok::<Seq<RefModel>, ErrorModel>(
            statement::checked(src, a)->Ok_0 + statement::checked(src, b)->Ok_0,
        ),
{
    let whole = a + b;
    let none = Seq::<RefModel>::empty();
    let stack = Seq::<Opened>::empty();
    let named = statement::checked(src, a)->Ok_0;
    let more = statement::checked(src, b)->Ok_0;
    assert(none + none =~= none);
    assert(stack + stack =~= stack);
    assert(none + named =~= named);
    runs_inside(src, a, whole, 0, 0, stack, stack, none, none);
    assert(named + none =~= named);
    runs_inside(src, b, whole, a.len() as int, 0, stack, stack, named, none);
    reveal_with_fuel(statement::checked_from, 2);
}

// ------------------------------------------------------------------ the templates that are named

/// The tags that name a template.
pub open spec fn naming(t: Seq<char>, kind: RefTag) -> bool {
    match kind {
        RefTag::Extends => t == "extends"@,
        RefTag::Include => t == "include"@,
        RefTag::Import => t == "import"@,
        RefTag::From => t == "from"@,
    }
}

proof fn naming_tags(t: Seq<char>, kind: RefTag)
    requires
        naming(t, kind),
    ensures
        statement::ref_tag(t) == Some(kind),
        statement::closer(t, 0) is None,
        statement::opener(t, 0) is None,
        statement::continued(t) is None,
        t != "set"@,
        keywords::listed(statement::STANDALONE@, t),
{
    reveal_strlit("extends");
    reveal_strlit("include");
    reveal_strlit("import");
    reveal_strlit("from");
    reveal_strlit("set");
    reveal_strlit("else");
    reveal_strlit("elif");
    reveal_strlit("pluralize");
    reveal_strlit("end");
    reveal_strlit("for");
    reveal_strlit("if");
    reveal_strlit("block");
    reveal_strlit("macro");
    reveal_strlit("call");
    reveal_strlit("filter");
    reveal_strlit("with");
    reveal_strlit("autoescape");
    reveal_strlit("trans");
    assert("extends"@.len() == 7 && "include"@.len() == 7 && "import"@.len() == 6);
    assert("from"@.len() == 4 && "set"@.len() == 3 && "else"@.len() == 4 && "elif"@.len() == 4);
    assert("pluralize"@.len() == 9);
    assert("extends"@[0] == 'e' && "include"@[0] == 'i' && "import"@[0] == 'i' && "from"@[0]
        == 'f');
    assert("extends"@[1] == 'x' && "end"@[1] == 'n' && "from"@[1] == 'r');
    assert("else"@[0] == 'e' && "elif"@[0] == 'e');
    closer_is_listed(t, 0);
    if let Some(e) = statement::closer(t, 0) {
        let k = choose|k: int|
            0 <= k < statement::OPENERS@.len() && (#[trigger] statement::OPENERS@[k]).0@ == t
                && statement::OPENERS@[k].1@ == e;
        listed_pair(k);
        assert("call"@[0] == 'c' && "with"@[0] == 'w' && "filter"@[1] == 'i');
        assert("for"@.len() == 3 && "if"@.len() == 2 && "block"@.len() == 5);
        assert("macro"@.len() == 5 && "filter"@.len() == 6 && "autoescape"@.len() == 10);
        assert("trans"@.len() == 5 && "filter"@[0] == 'f');
    }
    opener_is_listed(t, 0);
    if let Some(x) = statement::opener(t, 0) {
        let k = choose|k: int|
            0 <= k < statement::OPENERS@.len() && (#[trigger] statement::OPENERS@[k]).1@ == t
                && statement::OPENERS@[k].0@ == x;
        listed_pair(k);
        an_end_begins_with_end(x, t);
        assert(t[0] == 'e' && t[1] == 'n');
    }
    let table = statement::STANDALONE@;
    assert(table[0]@ == "extends"@ && table[1]@ == "include"@ && table[2]@ == "from"@ && table[3]@
        == "import"@);
}

/// One of the four tags with a literal behind it names that template, and says which tag it was.
pub proof fn a_literal_names_its_template(
    g: Input,
    off: int,
    t: Seq<char>,
    kind: RefTag,
    e: ExprModel,
    p: int,
    name: Seq<char>,
)
    requires
        tagged(g, t),
        naming(t, kind),
        !g.is(1, Kind::Eof),
        grammar::expression(g, 1, 0) == Ok::<(ExprModel, int), ErrorModel>((e, p)),
        e.kind == KindModel::Const(ConstModel::Str(name)),
    ensures
        match statement::tag_of(g, off) {
            Ok(StmtModel::Standalone { tag, references }) => {
                &&& tag == t
                &&& references.len() == 1
                &&& references[0].template == name
                &&& references[0].tag == kind
                &&& references[0].span == statement::shifted(off, e.span)
                &&& references[0].ignore_missing <==> kind == RefTag::Include && exists|k: int|
                    p <= k < g.len() - 1 && g.text(k) == "ignore"@ && #[trigger] g.text(k + 1)
                        == "missing"@
            },
            _ => false,
        },
{
    naming_tags(t, kind);
    reveal_with_fuel(statement::literals, 2);
    assert(seq![e][0] == e);
    if statement::ignores_missing(g, p) {
        let k = choose|k: int| p <= k < g.len() - 1 && #[trigger] statement::ignores_at(g, k);
        assert(g.text(k + 1) == "missing"@);
    }
    if exists|k: int|
        p <= k < g.len() - 1 && g.text(k) == "ignore"@ && #[trigger] g.text(k + 1) == "missing"@ {
        let k = choose|k: int|
            p <= k < g.len() - 1 && g.text(k) == "ignore"@ && #[trigger] g.text(k + 1)
                == "missing"@;
        assert(statement::ignores_at(g, k));
    }
}

/// One of the four tags with a list of literals behind it names each of them, in order.
pub proof fn a_list_names_its_templates(
    g: Input,
    off: int,
    t: Seq<char>,
    kind: RefTag,
    e: ExprModel,
    p: int,
    items: Seq<ExprModel>,
    names: Seq<Seq<char>>,
)
    requires
        tagged(g, t),
        naming(t, kind),
        !g.is(1, Kind::Eof),
        grammar::expression(g, 1, 0) == Ok::<(ExprModel, int), ErrorModel>((e, p)),
        e.kind == KindModel::List(items),
        items.len() == names.len(),
        forall|i: int|
            0 <= i < items.len() ==> (#[trigger] items[i]).kind == KindModel::Const(
                ConstModel::Str(names[i]),
            ),
    ensures
        match statement::tag_of(g, off) {
            Ok(StmtModel::Standalone { tag, references }) => {
                &&& tag == t
                &&& references.len() == names.len()
                &&& forall|i: int|
                    0 <= i < names.len() ==> (#[trigger] references[i]).template == names[i]
                        && references[i].tag == kind && references[i].span == statement::shifted(
                        off,
                        items[i].span,
                    )
            },
            _ => false,
        },
{
    naming_tags(t, kind);
    literals_are_named(
        items,
        names,
        items.len() as int,
        off,
        kind,
        kind == RefTag::Include && statement::ignores_missing(g, p),
    );
}

proof fn literals_are_named(
    items: Seq<ExprModel>,
    names: Seq<Seq<char>>,
    n: int,
    off: int,
    kind: RefTag,
    ignore: bool,
)
    requires
        0 <= n <= items.len(),
        items.len() == names.len(),
        forall|i: int|
            0 <= i < items.len() ==> (#[trigger] items[i]).kind == KindModel::Const(
                ConstModel::Str(names[i]),
            ),
    ensures
        statement::literals(items, n, off, kind, ignore).len() == n,
        forall|i: int|
            0 <= i < n ==> (#[trigger] statement::literals(items, n, off, kind, ignore)[i])
                == (RefModel {
                template: names[i],
                span: statement::shifted(off, items[i].span),
                tag: kind,
                ignore_missing: ignore,
            }),
    decreases n,
{
    if n > 0 {
        literals_are_named(items, names, n - 1, off, kind, ignore);
        assert(items[n - 1].kind == KindModel::Const(ConstModel::Str(names[n - 1])));
    }
}

// ------------------------------------------------------------------ tags that continue a block

/// The tags that continue a block, each with the blocks that it continues.
pub open spec fn continues(tag: Seq<char>, open: Seq<char>) -> bool {
    ||| tag == "else"@ && (open == "if"@ || open == "for"@ || open == "trans"@)
    ||| tag == "elif"@ && open == "if"@
    ||| tag == "pluralize"@ && open == "trans"@
}

proof fn continued_by_table(tag: Seq<char>, open: Seq<char>)
    ensures
        continues(tag, open) <==> statement::continued(tag) is Some && keywords::listed(
            statement::continued(tag)->0,
            open,
        ),
{
    reveal_strlit("else");
    reveal_strlit("elif");
    reveal_strlit("pluralize");
    assert("else"@.len() == 4 && "elif"@.len() == 4 && "pluralize"@.len() == 9);
    assert("else"@[2] == 's' && "elif"@[2] == 'i');
    let a = statement::ELSE_OPENERS@;
    let b = statement::ELIF_OPENERS@;
    let c = statement::PLURALIZE_OPENERS@;
    assert(a.len() == 3 && a[0]@ == "if"@ && a[1]@ == "for"@ && a[2]@ == "trans"@);
    assert(b.len() == 1 && b[0]@ == "if"@);
    assert(c.len() == 1 && c[0]@ == "trans"@);
}

/// A tag that continues a block is accepted in the blocks that it continues, and refused directly
/// inside of any other.
pub proof fn a_continuation_has_its_blocks(
    src: Seq<char>,
    open: Block,
    middle: Block,
    close: Block,
    t: Seq<char>,
    e: Seq<char>,
    c: Seq<char>,
)
    requires
        says(src, open, StmtModel::Open { tag: t, end: e, references: Seq::empty() }),
        says(src, middle, StmtModel::Continuation { tag: c }),
        says(src, close, StmtModel::End { tag: e, opener: t }),
    ensures
        statement::checked(src, seq![open, middle, close]) is Ok <==> continues(c, t),
        statement::checked(src, seq![middle]) is Err,
{
    continued_by_table(c, t);
    let stack = Seq::<Opened>::empty();
    let base = stack.push((t, open.span));
    assert(base.last() == (t, open.span));
    assert(base.drop_last() =~= stack);
    let whole = seq![open, middle, close];
    assert(whole[0] == open && whole[1] == middle && whole[2] == close);
    assert(seq![middle][0] == middle);
    reveal_with_fuel(statement::checked_from, 4);
}

// ------------------------------------------------------------------ what a tag has to hold

proof fn small_tags_differ()
    ensures
        "for"@ != "if"@,
        "for"@ != "set"@,
        "print"@ != "set"@,
        "do"@ != "set"@,
        "elif"@ != "set"@,
        "for"@.len() == 3,
        "print"@.len() == 5,
        "print"@[0] == 'p',
        "do"@.len() == 2,
        "do"@[0] == 'd',
        "elif"@.len() == 4,
        "elif"@[0] == 'e',
        "elif"@[1] == 'l',
{
    reveal_strlit("for");
    reveal_strlit("if");
    reveal_strlit("set");
    reveal_strlit("print");
    reveal_strlit("do");
    reveal_strlit("elif");
    assert("for"@.len() == 3 && "if"@.len() == 2 && "set"@.len() == 3 && "print"@.len() == 5);
    assert("do"@.len() == 2 && "elif"@.len() == 4 && "for"@[0] == 'f' && "set"@[0] == 's');
}

proof fn word_is_first(g: Input, word: Seq<char>, i: int)
    requires
        0 <= i,
    ensures
        match statement::word_from(g, word, i) {
            Some(k) => i <= k < g.len() && g.word(k, word) && forall|j: int|
                i <= j < k ==> !#[trigger] g.word(j, word),
            None => forall|j: int| i <= j < g.len() ==> !#[trigger] g.word(j, word),
        },
    decreases g.len() - i,
{
    if i < g.len() && !g.word(i, word) {
        word_is_first(g, word, i + 1);
    }
}

/// Is there an expression at `i`?
pub open spec fn readable(g: Input, i: int) -> bool {
    !g.is(i, Kind::Eof) && grammar::expression(g, i, 0) is Ok
}

/// A `for` is accepted where an `in` stands in it and an expression behind the first one.
pub proof fn a_for_reads_its_sequence(g: Input, off: int, k: int)
    requires
        tagged(g, "for"@),
    ensures
        (forall|j: int| 1 <= j < g.len() ==> !#[trigger] g.word(j, "in"@)) ==> statement::tag_of(
            g,
            off,
        ) is Err,
        1 <= k < g.len() && g.word(k, "in"@) && (forall|j: int|
            1 <= j < k ==> !#[trigger] g.word(j, "in"@)) ==> (statement::tag_of(g, off) is Ok
            <==> readable(g, k + 1)),
{
    small_tags_differ();
    found_in_table("for"@, "endfor"@);
    word_is_first(g, "in"@, 1);
    if let Some(m) = statement::word_from(g, "in"@, 1) {
        if 1 <= k < g.len() && g.word(k, "in"@) && (forall|j: int|
            1 <= j < k ==> !#[trigger] g.word(j, "in"@)) {
            if k < m {
                assert(!g.word(k, "in"@));
            }
            if m < k {
                assert(!g.word(m, "in"@));
            }
        }
    }
}

proof fn no_block_tag(t: Seq<char>)
    requires
        t == "print"@ || t == "do"@ || t == "elif"@,
    ensures
        statement::closer(t, 0) is None,
        statement::opener(t, 0) is None,
        statement::ref_tag(t) is None,
{
    small_tags_differ();
    reveal_strlit("end");
    reveal_strlit("for");
    reveal_strlit("if");
    reveal_strlit("block");
    reveal_strlit("macro");
    reveal_strlit("call");
    reveal_strlit("filter");
    reveal_strlit("with");
    reveal_strlit("autoescape");
    reveal_strlit("trans");
    reveal_strlit("set");
    reveal_strlit("extends");
    reveal_strlit("include");
    reveal_strlit("import");
    reveal_strlit("from");
    assert("extends"@.len() == 7 && "include"@.len() == 7 && "import"@.len() == 6);
    assert("from"@.len() == 4 && "from"@[0] == 'f' && "end"@[1] == 'n' && "end"@[0] == 'e');
    closer_is_listed(t, 0);
    if let Some(e) = statement::closer(t, 0) {
        let k = choose|k: int|
            0 <= k < statement::OPENERS@.len() && (#[trigger] statement::OPENERS@[k]).0@ == t
                && statement::OPENERS@[k].1@ == e;
        listed_pair(k);
        assert("block"@[0] == 'b' && "macro"@[0] == 'm' && "trans"@[0] == 't');
        assert("if"@[0] == 'i' && "call"@[0] == 'c' && "with"@[0] == 'w' && "for"@[0] == 'f');
        assert("filter"@[0] == 'f' && "autoescape"@[0] == 'a' && "set"@[0] == 's');
    }
    opener_is_listed(t, 0);
    if let Some(x) = statement::opener(t, 0) {
        let k = choose|k: int|
            0 <= k < statement::OPENERS@.len() && (#[trigger] statement::OPENERS@[k]).1@ == t
                && statement::OPENERS@[k].0@ == x;
        listed_pair(k);
        an_end_begins_with_end(x, t);
        assert(t[0] == 'e' && t[1] == 'n');
    }
}

/// A `print` and a `do` are complete where an expression follows, and refused where none does.
pub proof fn a_print_reads_its_expression(g: Input, off: int, t: Seq<char>)
    requires
        t == "print"@ || t == "do"@,
        tagged(g, t),
    ensures
        if readable(g, 1) {
            statement::tag_of(g, off) == Ok::<StmtModel, ErrorModel>(
                StmtModel::Standalone { tag: t, references: Seq::empty() },
            )
        } else {
            statement::tag_of(g, off) is Err
        },
{
    small_tags_differ();
    no_block_tag(t);
    reveal_strlit("else");
    reveal_strlit("pluralize");
    assert("else"@.len() == 4 && "pluralize"@.len() == 9);
    let table = statement::STANDALONE@;
    assert(table[4]@ == "print"@ && table[5]@ == "do"@);
}

/// An `elif` continues where an expression follows, and is refused where none does.
pub proof fn an_elif_reads_its_condition(g: Input, off: int)
    requires
        tagged(g, "elif"@),
    ensures
        if readable(g, 1) {
            statement::tag_of(g, off) == Ok::<StmtModel, ErrorModel>(
                StmtModel::Continuation { tag: "elif"@ },
            )
        } else {
            statement::tag_of(g, off) is Err
        },
{
    small_tags_differ();
    no_block_tag("elif"@);
    reveal_strlit("else");
    assert("else"@[2] == 's');
    reveal_strlit("elif");
    assert("elif"@[2] == 'i');
}

/// A `set` that assigns is complete where an expression stands behind its first `=`, and refused
/// where none does.
pub proof fn a_set_reads_its_value(g: Input, off: int, k: int)
    requires
        tagged(g, "set"@),
        assigns(g),
        1 <= k,
        g.is(k, Kind::Assign),
        forall|j: int| 1 <= j < k ==> !#[trigger] g.is(j, Kind::Assign),
    ensures
        statement::tag_of(g, off) is Ok <==> readable(g, k + 1),
{
    assigned_outside(g, 1);
    kind_is_first(g, Kind::Assign, 1, k);
    reveal_strlit("set");
    reveal_strlit("extends");
    reveal_strlit("include");
    reveal_strlit("import");
    reveal_strlit("from");
    assert("set"@.len() == 3 && "extends"@.len() == 7 && "include"@.len() == 7);
    assert("import"@.len() == 6 && "from"@.len() == 4);
}

proof fn kind_is_first(g: Input, kind: Kind, i: int, k: int)
    requires
        0 <= i <= k,
        g.is(k, kind),
        forall|j: int| i <= j < k ==> !#[trigger] g.is(j, kind),
    ensures
        statement::kind_from(g, kind, i) == Some(k),
    decreases k - i,
{
    if i < k {
        assert(!g.is(i, kind));
        kind_is_first(g, kind, i + 1, k);
    }
}

/// A word that is no tag is refused.
pub proof fn an_unknown_tag_is_refused(g: Input, off: int)
    requires
        g.is(0, Kind::Name),
        forall|t: Seq<char>, e: Seq<char>| #[trigger] pair(t, e) ==> g.text(0) != t && g.text(0) != e,
        g.text(0) != "else"@,
        g.text(0) != "elif"@,
        g.text(0) != "pluralize"@,
        g.text(0) != "extends"@,
        g.text(0) != "include"@,
        g.text(0) != "from"@,
        g.text(0) != "import"@,
        g.text(0) != "print"@,
        g.text(0) != "do"@,
    ensures
        statement::tag_of(g, off) is Err,
{
    let t = g.text(0);
    closer_is_listed(t, 0);
    if let Some(e) = statement::closer(t, 0) {
        let k = choose|k: int|
            0 <= k < statement::OPENERS@.len() && (#[trigger] statement::OPENERS@[k]).0@ == t
                && statement::OPENERS@[k].1@ == e;
        listed_pair(k);
    }
    opener_is_listed(t, 0);
    if let Some(x) = statement::opener(t, 0) {
        let k = choose|k: int|
            0 <= k < statement::OPENERS@.len() && (#[trigger] statement::OPENERS@[k]).1@ == t
                && statement::OPENERS@[k].0@ == x;
        listed_pair(k);
    }
    assert(pair("set"@, "endset"@));
    let table = statement::STANDALONE@;
    assert(table.len() == 7 && table[0]@ == "extends"@ && table[1]@ == "include"@ && table[2]@
        == "from"@ && table[3]@ == "import"@);
    assert(table[4]@ == "print"@ && table[5]@ == "do"@ && table[6]@ == "set"@);
}

} // verus!
