//! The statement forms, and the nesting of blocks that they imply.
//!
//! [`crate::jinja::template`] says where a `{% … %}` is; this says what it is. A reader that walks
//! past tags it does not know cannot tell a tag it chose to skip from a tag that does not exist, so
//! it can never say that a template will not render. [`check`] can.

use crate::jinja::ast::{self, Const, Expr, ExprKind, ExprModel, KindModel};
use crate::jinja::grammar::{self, Input, Parsed};
use crate::jinja::lexer::{self, Cause, Error, ErrorModel, Kind, Token};
use crate::jinja::parser;
use crate::jinja::spans;
use crate::jinja::template::{self, Block, Delimiters, Delims};
use crate::keywords::{self, in_set};
use crate::parse::{self, Span};
use crate::text::{str_eq, to_chars};
use vstd::prelude::*;
use vstd::utf8::encode_utf8;

verus! {

/// The tags that open a block, with the tag that closes it. `set` is both: `{% set x = 1 %}` is
/// complete, `{% set x %}…{% endset %}` is a block.
pub const OPENERS: [(&'static str, &'static str); 10] = [
    ("for", "endfor"),
    ("if", "endif"),
    ("block", "endblock"),
    ("macro", "endmacro"),
    ("call", "endcall"),
    ("filter", "endfilter"),
    ("with", "endwith"),
    ("autoescape", "endautoescape"),
    ("trans", "endtrans"),
    ("set", "endset"),
];

/// Tags that take no body and so never open a block.
pub const STANDALONE: [&'static str; 7] = [
    "extends",
    "include",
    "from",
    "import",
    "print",
    "do",
    "set",
];

/// The blocks that an `else` continues.
pub const ELSE_OPENERS: [&'static str; 3] = ["if", "for", "trans"];

/// The blocks that an `elif` continues.
pub const ELIF_OPENERS: [&'static str; 1] = ["if"];

/// The blocks that a `pluralize` continues.
pub const PLURALIZE_OPENERS: [&'static str; 1] = ["trans"];

/// Which of the four tags that name a template.
#[derive(Debug, Clone, Copy, PartialEq, Eq, Structural)]
pub enum RefTag {
    Extends,
    Include,
    Import,
    From,
}

/// A template named by one of the four tags.
#[derive(Debug, Clone, PartialEq, Eq)]
pub struct Reference {
    /// The literal name. Dynamic names are no references.
    pub template: String,
    /// The span of the literal.
    pub span: Span,
    pub tag: RefTag,
    /// `{% include ... ignore missing %}`: an absent target is legal by design, so it is never a
    /// miss. Only `include` takes the modifier; the other three tags leave this false.
    pub ignore_missing: bool,
}

/// What one `{% … %}` is.
#[derive(Debug, Clone, PartialEq, Eq)]
pub enum Stmt {
    /// Opens a block; carries the end tag that must close it.
    Open { tag: String, end: &'static str, references: Vec<Reference> },
    /// Continues an open block (`else`, `elif`, `pluralize`).
    Continuation { tag: String },
    /// Closes a block.
    End { tag: String, opener: String },
    /// Complete in itself.
    Standalone { tag: String, references: Vec<Reference> },
}

/// What a [`Reference`] says.
pub struct RefModel {
    pub template: Seq<char>,
    pub span: Span,
    pub tag: RefTag,
    pub ignore_missing: bool,
}

/// What a [`Stmt`] says.
pub enum StmtModel {
    Open { tag: Seq<char>, end: Seq<char>, references: Seq<RefModel> },
    Continuation { tag: Seq<char> },
    End { tag: Seq<char>, opener: Seq<char> },
    Standalone { tag: Seq<char>, references: Seq<RefModel> },
}

impl Reference {
    pub open spec fn view(&self) -> RefModel {
        RefModel {
            template: self.template@,
            span: self.span,
            tag: self.tag,
            ignore_missing: self.ignore_missing,
        }
    }
}

/// What references say.
pub open spec fn ref_models(v: Seq<Reference>) -> Seq<RefModel> {
    v.map_values(|r: Reference| r.view())
}

impl Stmt {
    pub open spec fn view(&self) -> StmtModel {
        match self {
            Stmt::Open { tag, end, references } => StmtModel::Open {
                tag: tag@,
                end: end@,
                references: ref_models(references@),
            },
            Stmt::Continuation { tag } => StmtModel::Continuation { tag: tag@ },
            Stmt::End { tag, opener } => StmtModel::End { tag: tag@, opener: opener@ },
            Stmt::Standalone { tag, references } => StmtModel::Standalone {
                tag: tag@,
                references: ref_models(references@),
            },
        }
    }
}

// ------------------------------------------------------------------ the model

/// The tag that closes what `tag` opens.
pub open spec fn closer(tag: Seq<char>, i: int) -> Option<Seq<char>>
    decreases OPENERS@.len() - i,
{
    if i < 0 || i >= OPENERS@.len() {
        None
    } else if OPENERS@[i].0@ == tag {
        Some(OPENERS@[i].1@)
    } else {
        closer(tag, i + 1)
    }
}

/// The tag that opens what `tag` closes.
pub open spec fn opener(tag: Seq<char>, i: int) -> Option<Seq<char>>
    decreases OPENERS@.len() - i,
{
    if i < 0 || i >= OPENERS@.len() {
        None
    } else if OPENERS@[i].1@ == tag {
        Some(OPENERS@[i].0@)
    } else {
        opener(tag, i + 1)
    }
}

/// The blocks that a tag continues, where it continues any.
pub open spec fn continued(tag: Seq<char>) -> Option<Seq<&'static str>> {
    if tag == "else"@ {
        Some(ELSE_OPENERS@)
    } else if tag == "elif"@ {
        Some(ELIF_OPENERS@)
    } else if tag == "pluralize"@ {
        Some(PLURALIZE_OPENERS@)
    } else {
        None
    }
}

/// A span of a tag's content as a span of the text that the tag stands in.
pub open spec fn shifted(off: int, s: Span) -> Span {
    template::span(s.start + off, s.end + off)
}

/// A refusal of a tag's content as one of the text that the tag stands in.
pub open spec fn moved_error(off: int, e: ErrorModel) -> ErrorModel {
    ErrorModel { span: shifted(off, e.span), ..e }
}

/// Does an `=` stand outside all brackets, from `i` on? That is what separates `{% set x = 1 %}`
/// from `{% set x %}`: the `=` in `f(a=1)` is a keyword argument.
pub open spec fn assigned(g: Input, i: int, depth: int) -> bool
    decreases g.len() - i,
{
    if i < 0 || i >= g.len() {
        false
    } else {
        match g.toks[i].kind {
            Kind::Lparen | Kind::Lbracket | Kind::Lbrace => assigned(g, i + 1, depth + 1),
            Kind::Rparen | Kind::Rbracket | Kind::Rbrace => assigned(g, i + 1, depth - 1),
            Kind::Assign => depth == 0 || assigned(g, i + 1, depth),
            _ => assigned(g, i + 1, depth),
        }
    }
}

/// The first token of a kind from `i` on.
pub open spec fn kind_from(g: Input, kind: Kind, i: int) -> Option<int>
    decreases g.len() - i,
{
    if i < 0 || i >= g.len() {
        None
    } else if g.toks[i].kind == kind {
        Some(i)
    } else {
        kind_from(g, kind, i + 1)
    }
}

/// The first token from `i` on that is a name with this spelling.
pub open spec fn word_from(g: Input, word: Seq<char>, i: int) -> Option<int>
    decreases g.len() - i,
{
    if i < 0 || i >= g.len() {
        None
    } else if g.word(i, word) {
        Some(i)
    } else {
        word_from(g, word, i + 1)
    }
}

/// The expression at `at`, refused as part of a tag at `off`.
pub open spec fn expression_of(g: Input, off: int, at: int) -> Parsed {
    if g.is(at, Kind::Eof) {
        Err(
            template::refusal(
                "Expected an expression, got 'end of statement block'"@,
                shifted(off, g.toks[at].span),
            ),
        )
    } else {
        match grammar::expression(g, at, 0) {
            Ok(x) => Ok(x),
            Err(e) => Err(moved_error(off, e)),
        }
    }
}

/// Nothing, or the refusal of an expression.
pub open spec fn only_error(r: Parsed) -> Result<(), ErrorModel> {
    match r {
        Ok(_) => Ok(()),
        Err(e) => Err(e),
    }
}

/// A text in lower case, for the ASCII letters.
pub open spec fn lowered(s: Seq<char>) -> Seq<char> {
    s.map_values(|c: char| if 'A' <= c <= 'Z' { ((c as u32 + 32) as u32) as char } else { c })
}

/// The refusal of what should be a name.
pub open spec fn no_name_message(kind: Kind) -> Seq<char> {
    "expected token 'name', got \""@ + lowered(lexer::kind_name(kind)) + "\""@
}

/// The parameters of a signature from `i` on: names, each with a default or without. A name must
/// follow every comma.
pub open spec fn params_from(g: Input, off: int, i: int) -> Result<(), ErrorModel>
    decreases g.len() - i,
{
    if i < 0 || i >= g.len() || g.is(i, Kind::Rparen) {
        Ok(())
    } else if !g.is(i, Kind::Name) {
        Err(
            template::refusal(
                no_name_message(g.toks[i].kind),
                shifted(off, g.toks[i].span),
            ),
        )
    } else {
        let behind: Result<int, ErrorModel> = if g.is(i + 1, Kind::Assign) {
            match expression_of(g, off, i + 2) {
                Ok((_, next)) => Ok(next),
                Err(e) => Err(e),
            }
        } else {
            Ok(i + 1)
        };
        match behind {
            Err(e) => Err(e),
            Ok(j) => if g.is(j, Kind::Comma) {
                if g.is(j + 1, Kind::Rparen) {
                    Err(
                        template::refusal(
                            "expected token 'name', got ')'"@,
                            shifted(off, g.toks[j + 1].span),
                        ),
                    )
                } else if i < j {
                    params_from(g, off, j + 1)
                } else {
                    Ok(())
                }
            } else if g.is(j, Kind::Rparen) {
                Ok(())
            } else {
                Err(
                    template::refusal(
                        "expected token ',' or ')'"@,
                        shifted(off, g.toks[j].span),
                    ),
                )
            },
        }
    }
}

/// The signature of a `macro` or `call`, which may be absent.
pub open spec fn signature_of(g: Input, off: int, rest: int) -> Result<(), ErrorModel> {
    let i = if g.is(rest, Kind::Name) {
        rest + 1
    } else {
        rest
    };
    if g.is(i, Kind::Lparen) {
        params_from(g, off, i + 1)
    } else {
        Ok(())
    }
}

/// What is read of a tag that opens a block.
pub open spec fn opened(g: Input, off: int, rest: int, tag: Seq<char>) -> Result<(), ErrorModel> {
    if tag == "if"@ {
        only_error(expression_of(g, off, rest))
    } else if tag == "for"@ {
        match word_from(g, "in"@, rest) {
            Some(at) => only_error(expression_of(g, off, at + 1)),
            None => Err(
                template::refusal("expected token 'in'"@, shifted(off, g.toks[rest].span)),
            ),
        }
    } else if tag == "macro"@ || tag == "call"@ {
        signature_of(g, off, rest)
    } else {
        Ok(())
    }
}

/// What a tag that continues a block has to hold: an `elif` reaches an expression.
pub open spec fn continuing(g: Input, off: int, rest: int, tag: Seq<char>) -> Result<
    (),
    ErrorModel,
> {
    if tag == "elif"@ {
        only_error(expression_of(g, off, rest))
    } else {
        Ok(())
    }
}

/// The kind of a tag that names a template.
pub open spec fn ref_tag(tag: Seq<char>) -> Option<RefTag> {
    if tag == "extends"@ {
        Some(RefTag::Extends)
    } else if tag == "include"@ {
        Some(RefTag::Include)
    } else if tag == "import"@ {
        Some(RefTag::Import)
    } else if tag == "from"@ {
        Some(RefTag::From)
    } else {
        None
    }
}

/// Does `ignore missing` stand at `i` or behind it?
pub open spec fn ignores_missing(g: Input, i: int) -> bool {
    exists|k: int| i <= k < g.len() - 1 && #[trigger] ignores_at(g, k)
}

pub open spec fn ignores_at(g: Input, k: int) -> bool {
    g.text(k) == "ignore"@ && g.text(k + 1) == "missing"@
}

/// The literal names among expressions.
pub open spec fn literals(
    items: Seq<ExprModel>,
    n: int,
    off: int,
    tag: RefTag,
    ignore_missing: bool,
) -> Seq<RefModel>
    decreases n,
{
    if n <= 0 || n > items.len() {
        Seq::empty()
    } else {
        let before = literals(items, n - 1, off, tag, ignore_missing);
        let e = items[n - 1];
        match e.kind {
            KindModel::Const(ast::ConstModel::Str(s)) => before.push(
                RefModel { template: s, span: shifted(off, e.span), tag, ignore_missing },
            ),
            _ => before,
        }
    }
}

/// Do the references stand between two offsets?
pub open spec fn refs_inside(refs: Seq<RefModel>, low: int, high: int) -> bool {
    forall|i: int|
        0 <= i < refs.len() ==> low <= (#[trigger] refs[i]).span.start <= refs[i].span.end <= high
}

/// The names in the target of a tag: one literal, or the literals of a list.
pub open spec fn named(e: ExprModel, off: int, tag: RefTag, ignore_missing: bool) -> Seq<RefModel> {
    match e.kind {
        KindModel::List(items) => literals(items, items.len() as int, off, tag, ignore_missing),
        _ => literals(seq![e], 1, off, tag, ignore_missing),
    }
}

/// The templates that a tag without a body names.
pub open spec fn standalone_of(g: Input, off: int, rest: int, tag: Seq<char>) -> Result<
    Seq<RefModel>,
    ErrorModel,
> {
    let none = Seq::<RefModel>::empty();
    match ref_tag(tag) {
        Some(kind) => match expression_of(g, off, rest) {
            Ok((e, next)) => Ok(
                named(e, off, kind, kind == RefTag::Include && ignores_missing(g, next)),
            ),
            Err(e) => Err(e),
        },
        None => {
            let checked = if tag == "set"@ {
                match kind_from(g, Kind::Assign, rest) {
                    Some(at) => only_error(expression_of(g, off, at + 1)),
                    None => Ok(()),
                }
            } else if tag == "print"@ || tag == "do"@ {
                only_error(expression_of(g, off, rest))
            } else {
                Ok(())
            };
            match checked {
                Ok(_) => Ok(none),
                Err(e) => Err(e),
            }
        },
    }
}

pub open spec fn unknown_message(tag: Seq<char>) -> Seq<char> {
    "Encountered unknown tag '"@ + tag + "'."@
}

/// The statement that a tag's tokens are.
pub open spec fn tag_of(g: Input, off: int) -> Result<StmtModel, ErrorModel> {
    let tag = g.text(0);
    if !g.is(0, Kind::Name) {
        Err(template::refusal("tag name expected"@, shifted(off, g.toks[0].span)))
    } else if tag == "set"@ && !assigned(g, 1, 0) {
        Ok(StmtModel::Open { tag, end: "endset"@, references: Seq::empty() })
    } else if tag != "set"@ && closer(tag, 0) is Some {
        match opened(g, off, 1, tag) {
            Ok(_) => Ok(
                StmtModel::Open { tag, end: closer(tag, 0)->0, references: Seq::empty() },
            ),
            Err(e) => Err(e),
        }
    } else if tag != "set"@ && opener(tag, 0) is Some {
        Ok(StmtModel::End { tag, opener: opener(tag, 0)->0 })
    } else if tag != "set"@ && continued(tag) is Some {
        match continuing(g, off, 1, tag) {
            Ok(_) => Ok(StmtModel::Continuation { tag }),
            Err(e) => Err(e),
        }
    } else if tag == "set"@ || keywords::listed(STANDALONE@, tag) {
        match standalone_of(g, off, 1, tag) {
            Ok(references) => Ok(StmtModel::Standalone { tag, references }),
            Err(e) => Err(e),
        }
    } else {
        Err(template::refusal(unknown_message(tag), shifted(off, g.toks[0].span)))
    }
}

/// The statement that the content of a tag is.
pub open spec fn statement_of(src: Seq<char>, inner: Span) -> Result<StmtModel, ErrorModel> {
    let body = parse::text_between(src, inner.start as int, inner.end as int);
    match lexer::lexed(body) {
        Err(e) => Err(moved_error(inner.start as int, e)),
        Ok(toks) => tag_of(Input { src: body, toks }, inner.start as int),
    }
}

pub open spec fn unclosed_message(open: Seq<char>) -> Seq<char> {
    "Unexpected end of template. Jinja was looking for the following tags: 'end"@ + open
        + "'. The innermost block that needs to be closed is '"@ + open + "'."@
}

pub open spec fn crossed_message(tag: Seq<char>, open: Seq<char>) -> Seq<char> {
    "Encountered unknown tag '"@ + tag
        + "'. Jinja was looking for the following tags: 'end"@ + open
        + "'. The innermost block that needs to be closed is '"@ + open + "'."@
}

/// A block that is open: its tag and where it stands.
pub type Opened = (Seq<char>, Span);

/// What one statement makes of the open blocks.
pub open spec fn nest(stack: Seq<Opened>, stmt: StmtModel, span: Span) -> Result<
    Seq<Opened>,
    ErrorModel,
> {
    match stmt {
        StmtModel::Open { tag, .. } => Ok(stack.push((tag, span))),
        StmtModel::Standalone { .. } => Ok(stack),
        StmtModel::Continuation { tag } => if stack.len() > 0 && continued(tag) is Some
            && keywords::listed(continued(tag)->0, stack.last().0) {
            Ok(stack)
        } else {
            Err(template::refusal(unknown_message(tag), span))
        },
        StmtModel::End { tag, opener } => if stack.len() == 0 {
            Err(template::refusal(unknown_message(tag), span))
        } else if stack.last().0 == opener {
            Ok(stack.drop_last())
        } else {
            Err(template::refusal(crossed_message(tag, stack.last().0), span))
        },
    }
}

/// The templates that one statement names.
pub open spec fn named_by(stmt: StmtModel) -> Seq<RefModel> {
    match stmt {
        StmtModel::Open { references, .. } => references,
        StmtModel::Standalone { references, .. } => references,
        _ => Seq::empty(),
    }
}

/// The templates that the blocks from `i` on name, behind those in `refs`.
pub open spec fn checked_from(
    src: Seq<char>,
    blocks: Seq<Block>,
    i: int,
    stack: Seq<Opened>,
    refs: Seq<RefModel>,
) -> Result<Seq<RefModel>, ErrorModel>
    decreases blocks.len() - i,
{
    if i < 0 || i >= blocks.len() {
        if stack.len() == 0 {
            Ok(refs)
        } else {
            Err(template::refusal(unclosed_message(stack.last().0), stack.last().1))
        }
    } else if blocks[i].kind != template::Kind::Statement {
        checked_from(src, blocks, i + 1, stack, refs)
    } else {
        match statement_of(src, blocks[i].inner) {
            Err(e) => Err(e),
            Ok(stmt) => match nest(stack, stmt, blocks[i].span) {
                Err(e) => Err(e),
                Ok(next) => checked_from(src, blocks, i + 1, next, refs + named_by(stmt)),
            },
        }
    }
}

/// The templates that blocks name, in order.
pub open spec fn checked(src: Seq<char>, blocks: Seq<Block>) -> Result<Seq<RefModel>, ErrorModel> {
    checked_from(src, blocks, 0, Seq::empty(), Seq::empty())
}

/// The templates that a whole file names.
pub open spec fn references_of(src: Seq<char>, d: Delims) -> Result<Seq<RefModel>, ErrorModel> {
    match template::document_of(src, d, true) {
        Err(e) => Err(e),
        Ok((blocks, _)) => checked(src, blocks),
    }
}

// -------------------------------------------------------------- the functions

fn end_of(tag: &str) -> (r: Option<&'static str>)
    ensures
        r is Some == closer(tag@, 0) is Some,
        r is Some ==> (r->0)@ == closer(tag@, 0)->0,
{
    let mut i: usize = 0;
    while i < OPENERS.len()
        invariant
            i <= OPENERS@.len(),
            closer(tag@, 0) == closer(tag@, i as int),
        decreases OPENERS@.len() - i,
    {
        if str_eq(OPENERS[i].0, tag) {
            return Some(OPENERS[i].1);
        }
        i += 1;
    }
    None
}

fn opener_of(tag: &str) -> (r: Option<&'static str>)
    ensures
        r is Some == opener(tag@, 0) is Some,
        r is Some ==> (r->0)@ == opener(tag@, 0)->0,
{
    let mut i: usize = 0;
    while i < OPENERS.len()
        invariant
            i <= OPENERS@.len(),
            opener(tag@, 0) == opener(tag@, i as int),
        decreases OPENERS@.len() - i,
    {
        if str_eq(OPENERS[i].1, tag) {
            return Some(OPENERS[i].0);
        }
        i += 1;
    }
    None
}

/// Is the tag one that continues a block?
fn is_continuation(tag: &str) -> (r: bool)
    ensures
        r == continued(tag@) is Some,
{
    str_eq(tag, "else") || str_eq(tag, "elif") || str_eq(tag, "pluralize")
}

/// Does the tag continue a block that `open` opened?
fn continues(tag: &str, open: &str) -> (r: bool)
    ensures
        r == (continued(tag@) is Some && keywords::listed(continued(tag@)->0, open@)),
{
    if str_eq(tag, "else") {
        in_set(&ELSE_OPENERS, open)
    } else if str_eq(tag, "elif") {
        in_set(&ELIF_OPENERS, open)
    } else if str_eq(tag, "pluralize") {
        in_set(&PLURALIZE_OPENERS, open)
    } else {
        false
    }
}

fn err(msg: String, span: Span) -> (r: Error)
    ensures
        r.view() == template::refusal(msg@, span),
{
    Error { msg, span, cause: Cause::Parse }
}

/// A text in lower case, for the ASCII letters.
fn lower(s: &str) -> (r: String)
    ensures
        r@ == lowered(s@),
{
    let v = to_chars(s);
    let n: usize = v.len();
    let mut out = String::new();
    let mut i: usize = 0;
    assert(out@ =~= lowered(s@).subrange(0, 0));
    while i < n
        invariant
            i <= n == v@.len(),
            v@ == s@,
            out@ == lowered(s@).subrange(0, i as int),
        decreases n - i,
    {
        let c = v[i];
        let low = if 'A' <= c && c <= 'Z' {
            (c as u8 + 32) as char
        } else {
            c
        };
        out.push(low);
        i += 1;
        assert(low == lowered(s@)[i - 1]);
        assert(lowered(s@).subrange(0, i as int) =~= lowered(s@).subrange(0, i - 1).push(low));
    }
    assert(lowered(s@).subrange(0, n as int) =~= lowered(s@));
    out
}

/// A reference behind others.
fn push_ref(v: &mut Vec<Reference>, r: Reference)
    ensures
        ref_models(final(v)@) == ref_models(old(v)@).push(r.view()),
{
    let ghost before = v@;
    v.push(r);
    assert(ref_models(v@) =~= ref_models(before).push(r.view()));
}

/// The content of one tag: its text, its tokens, and where it stands.
struct Tag<'a> {
    body: &'a str,
    toks: &'a [Token],
    off: usize,
}

impl<'a> Tag<'a> {
    spec fn g(&self) -> Input {
        Input { src: self.body@, toks: self.toks@ }
    }

    spec fn n(&self) -> int {
        encode_utf8(self.body@).len() as int
    }

    spec fn wf(&self) -> bool {
        &&& lexer::tokens_ok(encode_utf8(self.body@), self.toks@)
        &&& self.off + self.n() <= usize::MAX
    }

    fn shift(&self, s: Span) -> (r: Span)
        requires
            s.start <= s.end <= self.n(),
            self.off + self.n() <= usize::MAX,
        ensures
            r == shifted(self.off as int, s),
    {
        Span { start: s.start + self.off, end: s.end + self.off }
    }

    fn fail_at(&self, msg: String, i: usize) -> (r: Error)
        requires
            self.wf(),
            i < self.toks@.len(),
        ensures
            r.view() == template::refusal(msg@, shifted(self.off as int, self.toks@[i as int].span)),
    {
        assert(lexer::token_ok(encode_utf8(self.body@), self.toks@[i as int]));
        err(msg, self.shift(self.toks[i].span))
    }

    fn is(&self, i: usize, kind: Kind) -> (r: bool)
        ensures
            r == self.g().is(i as int, kind),
    {
        i < self.toks.len() && self.toks[i].kind == kind
    }

    /// The text of a token.
    fn text_at(&self, i: usize) -> (r: &'a str)
        requires
            i < self.toks@.len(),
        ensures
            r@ == self.g().text(i as int),
    {
        self.toks[i].span.slice(self.body)
    }

    /// Does an `=` stand outside all brackets?
    fn assigns(&self, rest: usize) -> (r: bool)
        ensures
            r == assigned(self.g(), rest as int, 0),
    {
        let n: usize = self.toks.len();
        let mut depth: i128 = 0;
        let mut i: usize = rest;
        while i < n
            invariant
                n == self.toks@.len(),
                rest <= i,
                -(i - rest) <= depth <= i - rest,
                assigned(self.g(), rest as int, 0) == assigned(self.g(), i as int, depth as int),
            decreases n - i,
        {
            match self.toks[i].kind {
                Kind::Lparen | Kind::Lbracket | Kind::Lbrace => {
                    depth += 1;
                },
                Kind::Rparen | Kind::Rbracket | Kind::Rbrace => {
                    depth -= 1;
                },
                Kind::Assign => {
                    if depth == 0 {
                        return true;
                    }
                },
                _ => {},
            }
            i += 1;
        }
        false
    }

    /// The first token of a kind.
    fn find_kind(&self, kind: Kind, from: usize) -> (r: Option<usize>)
        requires
            self.wf(),
            kind != Kind::Eof,
        ensures
            r is Some == kind_from(self.g(), kind, from as int) is Some,
            r is Some ==> kind_from(self.g(), kind, from as int) == Some(r->0 as int) && r->0
                + 1 < self.toks@.len(),
    {
        let n: usize = self.toks.len();
        let mut i: usize = from;
        while i < n
            invariant
                self.wf(),
                n == self.toks@.len(),
                kind != Kind::Eof,
                kind_from(self.g(), kind, from as int) == kind_from(self.g(), kind, i as int),
            decreases n - i,
        {
            if self.toks[i].kind == kind {
                return Some(i);
            }
            i += 1;
        }
        None
    }

    /// The first token that is a name with this spelling.
    fn find_word(&self, word: &str, from: usize) -> (r: Option<usize>)
        requires
            self.wf(),
        ensures
            r is Some == word_from(self.g(), word@, from as int) is Some,
            r is Some ==> word_from(self.g(), word@, from as int) == Some(r->0 as int) && r->0
                + 1 < self.toks@.len(),
    {
        let n: usize = self.toks.len();
        let mut i: usize = from;
        while i < n
            invariant
                self.wf(),
                n == self.toks@.len(),
                word_from(self.g(), word@, from as int) == word_from(self.g(), word@, i as int),
            decreases n - i,
        {
            if self.toks[i].kind == Kind::Name && str_eq(self.text_at(i), word) {
                return Some(i);
            }
            i += 1;
        }
        None
    }

    fn expression(&self, at: usize) -> (r: Result<(Expr, usize), Error>)
        requires
            self.wf(),
            at < self.toks@.len(),
        ensures
            match r {
                Ok((e, p)) => expression_of(self.g(), self.off as int, at as int) == Ok::<
                    (ExprModel, int),
                    ErrorModel,
                >((e.view(), p as int)) && at < p < self.toks@.len() && spans::stands(
                    self.g(),
                    at as int,
                    p as int,
                    e.view(),
                ),
                Err(e) => expression_of(self.g(), self.off as int, at as int) == Err::<
                    (ExprModel, int),
                    ErrorModel,
                >(e.view()),
            },
    {
        if self.toks[at].kind == Kind::Eof {
            return Err(
                self.fail_at("Expected an expression, got 'end of statement block'".to_owned(), at),
            );
        }
        proof {
            spans::expression_spans(self.g(), at as int, 0);
        }
        match parser::expression_at(self.body, self.toks, at) {
            Ok(x) => Ok(x),
            Err(e) => Err(Error { msg: e.msg, span: self.shift(e.span), cause: e.cause }),
        }
    }

    /// What is read of a tag that opens a block: `if` and `for` must reach an expression, and the
    /// signature of a `macro` must be one.
    fn validate_opener(&self, rest: usize, tag: &str) -> (r: Result<(), Error>)
        requires
            self.wf(),
            rest < self.toks@.len(),
        ensures
            match r {
                Ok(()) => opened(self.g(), self.off as int, rest as int, tag@) is Ok,
                Err(e) => opened(self.g(), self.off as int, rest as int, tag@) == Err::<
                    (),
                    ErrorModel,
                >(e.view()),
            },
    {
        let n: usize = self.toks.len();
        if str_eq(tag, "if") {
            self.expression(rest)?;
        } else if str_eq(tag, "for") {
            match self.find_word("in", rest) {
                Some(at) => {
                    self.expression(at + 1)?;
                },
                None => return Err(self.fail_at("expected token 'in'".to_owned(), rest)),
            }
        } else if str_eq(tag, "macro") || str_eq(tag, "call") {
            self.signature(rest)?;
        }
        Ok(())
    }

    fn signature(&self, rest: usize) -> (r: Result<(), Error>)
        requires
            self.wf(),
            rest < self.toks@.len(),
        ensures
            match r {
                Ok(()) => signature_of(self.g(), self.off as int, rest as int) is Ok,
                Err(e) => signature_of(self.g(), self.off as int, rest as int) == Err::<
                    (),
                    ErrorModel,
                >(e.view()),
            },
    {
        let n: usize = self.toks.len();
        let mut i: usize = rest;
        if self.is(i, Kind::Name) {
            i += 1;
        }
        if !self.is(i, Kind::Lparen) {
            return Ok(());
        }
        i += 1;
        loop
            invariant
                self.wf(),
                n == self.toks@.len(),
                i < n,
                signature_of(self.g(), self.off as int, rest as int) == params_from(
                    self.g(),
                    self.off as int,
                    i as int,
                ),
            decreases n - i,
        {
            if self.is(i, Kind::Rparen) {
                return Ok(());
            }
            if !self.is(i, Kind::Name) {
                let mut msg = "expected token 'name', got \"".to_owned();
                let got = lower(lexer::kind_text(self.toks[i].kind));
                msg.append(got.as_str());
                msg.append("\"");
                return Err(self.fail_at(msg, i));
            }
            let ghost at = i as int;
            i += 1;
            if self.is(i, Kind::Assign) {
                let (_, next) = self.expression(i + 1)?;
                i = next;
            }
            if self.is(i, Kind::Comma) {
                i += 1;
            } else if self.is(i, Kind::Rparen) {
                return Ok(());
            } else {
                return Err(self.fail_at("expected token ',' or ')'".to_owned(), i));
            }
            // A name must follow the comma, so `(a,)` does not close.
            if self.is(i, Kind::Rparen) {
                return Err(self.fail_at("expected token 'name', got ')'".to_owned(), i));
            }
        }
    }

    /// Does `ignore missing` stand at `from` or behind it?
    fn finds_ignore_missing(&self, from: usize) -> (r: bool)
        requires
            from < self.toks@.len(),
        ensures
            r == ignores_missing(self.g(), from as int),
    {
        let n: usize = self.toks.len();
        let mut k: usize = from;
        while k < n - 1
            invariant
                from <= k < n == self.toks@.len(),
                forall|j: int| from <= j < k ==> !#[trigger] ignores_at(self.g(), j),
            decreases n - k,
        {
            if str_eq(self.text_at(k), "ignore") && str_eq(self.text_at(k + 1), "missing") {
                assert(ignores_at(self.g(), k as int));
                return true;
            }
            assert(!ignores_at(self.g(), k as int));
            k += 1;
        }
        false
    }

    /// Adds the name that an expression is, where it is a literal one.
    fn push_name(&self, refs: &mut Vec<Reference>, e: &Expr, tag: RefTag, ignore_missing: bool)
        requires
            self.wf(),
            spans::nested(e.view(), 0, self.n()),
        ensures
            ref_models(final(refs)@) == match e.view().kind {
                KindModel::Const(ast::ConstModel::Str(s)) => ref_models(old(refs)@).push(
                    RefModel {
                        template: s,
                        span: shifted(self.off as int, e.view().span),
                        tag,
                        ignore_missing,
                    },
                ),
                _ => ref_models(old(refs)@),
            },
            refs_inside(ref_models(old(refs)@), self.off as int, self.off + self.n()) ==> refs_inside(
                ref_models(final(refs)@),
                self.off as int,
                self.off + self.n(),
            ),
    {
        match &e.kind {
            ExprKind::Const(Const::Str(s)) => {
                proof {
                    reveal(spans::nested);
                }
                let span = self.shift(e.span);
                push_ref(refs, Reference { template: s.clone(), span, tag, ignore_missing });
            },
            _ => {},
        }
    }

    /// The names in the target of a tag. A dynamic name is no reference. A list is not dynamic: its
    /// literals are names, tried in order.
    fn names(&self, e: &Expr, tag: RefTag, ignore_missing: bool) -> (r: Vec<Reference>)
        requires
            self.wf(),
            spans::nested(e.view(), 0, self.n()),
        ensures
            ref_models(r@) == named(e.view(), self.off as int, tag, ignore_missing),
            refs_inside(ref_models(r@), self.off as int, self.off + self.n()),
    {
        let mut refs: Vec<Reference> = Vec::new();
        assert(ref_models(refs@) =~= Seq::empty());
        match &e.kind {
            ExprKind::List(items) => {
                let ghost models = ast::expr_models(items@);
                assert(e.view().kind == KindModel::List(models));
                let n: usize = items.len();
                let mut i: usize = 0;
                while i < n
                    invariant
                        self.wf(),
                        i <= n == items@.len(),
                        models == ast::expr_models(items@),
                        e.view().kind == KindModel::List(models),
                        spans::nested(e.view(), 0, self.n()),
                        refs_inside(ref_models(refs@), self.off as int, self.off + self.n()),
                        ref_models(refs@) == literals(
                            models,
                            i as int,
                            self.off as int,
                            tag,
                            ignore_missing,
                        ),
                    decreases n - i,
                {
                    let item = &items[i];
                    proof {
                        assert(item.view() == models[i as int]);
                        spans::item_nested(e.view(), models, i as int, 0, self.n());
                    }
                    self.push_name(&mut refs, item, tag, ignore_missing);
                    i += 1;
                }
            },
            _ => {
                self.push_name(&mut refs, e, tag, ignore_missing);
                proof {
                    reveal_with_fuel(literals, 2);
                    assert(seq![e.view()][0] == e.view());
                }
            },
        }
        refs
    }

    /// The templates that a tag without a body names. The four tags that name one all read it as an
    /// expression; what follows it are modifiers.
    fn standalone_references(&self, rest: usize, tag: &str) -> (r: Result<Vec<Reference>, Error>)
        requires
            self.wf(),
            rest < self.toks@.len(),
        ensures
            match r {
                Ok(v) => standalone_of(self.g(), self.off as int, rest as int, tag@) == Ok::<
                    Seq<RefModel>,
                    ErrorModel,
                >(ref_models(v@)) && refs_inside(
                    ref_models(v@),
                    self.off as int,
                    self.off + self.n(),
                ),
                Err(e) => standalone_of(self.g(), self.off as int, rest as int, tag@) == Err::<
                    Seq<RefModel>,
                    ErrorModel,
                >(e.view()),
            },
    {
        let n: usize = self.toks.len();
        let kind = if str_eq(tag, "extends") {
            RefTag::Extends
        } else if str_eq(tag, "include") {
            RefTag::Include
        } else if str_eq(tag, "import") {
            RefTag::Import
        } else if str_eq(tag, "from") {
            RefTag::From
        } else {
            if str_eq(tag, "set") {
                match self.find_kind(Kind::Assign, rest) {
                    Some(at) => {
                        self.expression(at + 1)?;
                    },
                    None => {},
                }
            } else if str_eq(tag, "print") || str_eq(tag, "do") {
                self.expression(rest)?;
            }
            let none: Vec<Reference> = Vec::new();
            assert(ref_models(none@) =~= Seq::empty());
            return Ok(none);
        };
        let (e, next) = self.expression(rest)?;
        let ignore_missing = kind == RefTag::Include && self.finds_ignore_missing(next);
        proof {
            assert(lexer::token_ok(encode_utf8(self.body@), self.toks@[rest as int]));
            assert(lexer::token_ok(encode_utf8(self.body@), self.toks@[next - 1]));
            spans::widen(
                e.view(),
                spans::left(self.g(), rest as int),
                spans::right(self.g(), next as int),
                0,
                self.n(),
            );
        }
        Ok(self.names(&e, kind, ignore_missing))
    }

    fn statement(&self) -> (r: Result<Stmt, Error>)
        requires
            self.wf(),
        ensures
            match r {
                Ok(s) => tag_of(self.g(), self.off as int) == Ok::<StmtModel, ErrorModel>(s.view())
                    && refs_inside(named_by(s.view()), self.off as int, self.off + self.n()),
                Err(e) => tag_of(self.g(), self.off as int) == Err::<StmtModel, ErrorModel>(
                    e.view(),
                ),
            },
    {
        if !self.is(0, Kind::Name) {
            return Err(self.fail_at("tag name expected".to_owned(), 0));
        }
        let name = self.text_at(0);
        let tag = name.to_owned();
        let none: Vec<Reference> = Vec::new();
        assert(ref_models(none@) =~= Seq::empty());
        if str_eq(name, "set") {
            return if self.assigns(1) {
                let references = self.standalone_references(1, name)?;
                Ok(Stmt::Standalone { tag, references })
            } else {
                Ok(Stmt::Open { tag, end: "endset", references: none })
            };
        }
        if let Some(end) = end_of(name) {
            self.validate_opener(1, name)?;
            return Ok(Stmt::Open { tag, end, references: none });
        }
        if let Some(opener) = opener_of(name) {
            return Ok(Stmt::End { tag, opener: opener.to_owned() });
        }
        if is_continuation(name) {
            if str_eq(name, "elif") {
                self.expression(1)?;
            }
            return Ok(Stmt::Continuation { tag });
        }
        if in_set(&STANDALONE, name) {
            let references = self.standalone_references(1, name)?;
            return Ok(Stmt::Standalone { tag, references });
        }
        Err(self.fail_at(unknown(name), 0))
    }
}

fn unknown(tag: &str) -> (r: String)
    ensures
        r@ == unknown_message(tag@),
{
    let mut msg = "Encountered unknown tag '".to_owned();
    msg.append(tag);
    msg.append("'.");
    msg
}

/// Reads one statement from the content of a `{% … %}`.
///
/// `inner` is the span of that content, so every span here is one of `src`; the literals that name
/// a template stand inside it.
pub fn parse(src: &str, inner: Span) -> (r: Result<Stmt, Error>)
    ensures
        match r {
            Ok(s) => statement_of(src@, inner) == Ok::<StmtModel, ErrorModel>(s.view())
                && refs_inside(named_by(s.view()), inner.start as int, inner.end as int),
            Err(e) => statement_of(src@, inner) == Err::<StmtModel, ErrorModel>(e.view()),
        },
{
    let body = inner.slice(src);
    let off = inner.start;
    proof {
        parse::text_between_len(src@, inner.start as int, inner.end as int);
    }
    match lexer::tokens(body) {
        Err(e) => Err(
            Error {
                msg: e.msg,
                span: Span { start: e.span.start + off, end: e.span.end + off },
                cause: e.cause,
            },
        ),
        Ok(toks) => {
            let t = Tag { body, toks: toks.as_slice(), off };
            t.statement()
        },
    }
}

/// A block that is open.
struct Pending {
    tag: String,
    span: Span,
}

spec fn opened_models(v: Seq<Pending>) -> Seq<Opened> {
    v.map_values(|p: Pending| (p.tag@, p.span))
}

fn push_refs(refs: &mut Vec<Reference>, more: Vec<Reference>)
    ensures
        ref_models(final(refs)@) == ref_models(old(refs)@) + ref_models(more@),
{
    let mut more = more;
    let ghost a = refs@;
    let ghost b = more@;
    refs.append(&mut more);
    assert(refs@ =~= a + b);
    assert(ref_models(refs@) =~= ref_models(a) + ref_models(b));
}

/// What one statement makes of the open blocks.
fn nest_one(stack: &mut Vec<Pending>, refs: &mut Vec<Reference>, stmt: Stmt, span: Span) -> (r: Result<
    (),
    Error,
>)
    ensures
        match r {
            Ok(()) => nest(opened_models(old(stack)@), stmt.view(), span) == Ok::<
                Seq<Opened>,
                ErrorModel,
            >(opened_models(final(stack)@)) && ref_models(final(refs)@) == ref_models(old(refs)@)
                + named_by(stmt.view()),
            Err(e) => nest(opened_models(old(stack)@), stmt.view(), span) == Err::<
                Seq<Opened>,
                ErrorModel,
            >(e.view()),
        },
{
    let ghost before = stack@;
    let ghost models = opened_models(before);
    assert(ref_models(refs@) =~= ref_models(refs@) + Seq::empty());
    let n: usize = stack.len();
    match stmt {
        Stmt::Open { tag, references, .. } => {
            push_refs(refs, references);
            let ghost t = tag@;
            stack.push(Pending { tag, span });
            assert(opened_models(stack@) =~= models.push((t, span)));
            Ok(())
        },
        Stmt::Standalone { references, .. } => {
            push_refs(refs, references);
            Ok(())
        },
        Stmt::Continuation { tag } => {
            if n > 0 && continues(tag.as_str(), stack[n - 1].tag.as_str()) {
                Ok(())
            } else {
                Err(err(unknown(tag.as_str()), span))
            }
        },
        Stmt::End { tag, opener } => {
            if n == 0 {
                return Err(err(unknown(tag.as_str()), span));
            }
            if str_eq(stack[n - 1].tag.as_str(), opener.as_str()) {
                stack.pop();
                assert(opened_models(stack@) =~= models.drop_last());
                return Ok(());
            }
            let open = stack[n - 1].tag.as_str();
            let mut msg = "Encountered unknown tag '".to_owned();
            msg.append(tag.as_str());
            msg.append("'. Jinja was looking for the following tags: 'end");
            msg.append(open);
            msg.append("'. The innermost block that needs to be closed is '");
            msg.append(open);
            msg.append("'.");
            Err(err(msg, span))
        },
    }
}

/// Walks a whole template: every statement is read, every block closed by its own end tag.
///
/// Returns the templates that it names, in order. The nesting is what makes an unknown tag
/// reportable at all.
pub fn check(src: &str, blocks: &[Block]) -> (r: Result<Vec<Reference>, Error>)
    ensures
        match r {
            Ok(v) => checked(src@, blocks@) == Ok::<Seq<RefModel>, ErrorModel>(ref_models(v@)),
            Err(e) => checked(src@, blocks@) == Err::<Seq<RefModel>, ErrorModel>(e.view()),
        },
{
    let mut refs: Vec<Reference> = Vec::new();
    let mut stack: Vec<Pending> = Vec::new();
    let n: usize = blocks.len();
    let mut i: usize = 0;
    assert(ref_models(refs@) =~= Seq::empty());
    assert(opened_models(stack@) =~= Seq::empty());
    while i < n
        invariant
            i <= n == blocks@.len(),
            checked(src@, blocks@) == checked_from(
                src@,
                blocks@,
                i as int,
                opened_models(stack@),
                ref_models(refs@),
            ),
        decreases n - i,
    {
        let b = blocks[i];
        if b.kind == template::Kind::Statement {
            let stmt = parse(src, b.inner)?;
            nest_one(&mut stack, &mut refs, stmt, b.span)?;
        }
        i += 1;
    }
    let left: usize = stack.len();
    if left > 0 {
        let open = stack[left - 1].tag.as_str();
        let mut msg =
            "Unexpected end of template. Jinja was looking for the following tags: 'end".to_owned();
        msg.append(open);
        msg.append("'. The innermost block that needs to be closed is '");
        msg.append(open);
        msg.append("'.");
        return Err(err(msg, stack[left - 1].span));
    }
    Ok(refs)
}

/// Every template that a file names, or the reason why the file will not render. A `#jinja2:` line
/// can change every delimiter; `d` is what holds where it does not.
pub fn references(src: &str, d: &Delimiters) -> (r: Result<Vec<Reference>, Error>)
    ensures
        match r {
            Ok(v) => references_of(src@, d.view()) == Ok::<Seq<RefModel>, ErrorModel>(
                ref_models(v@),
            ),
            Err(e) => references_of(src@, d.view()) == Err::<Seq<RefModel>, ErrorModel>(e.view()),
        },
{
    let (blocks, _) = template::document(src, d)?;
    check(src, blocks.as_slice())
}

/// Why a file will not render, where it will not.
///
/// Silent when any Jinja extension is configured: an extension may rewrite the source before it is
/// read, so no refusal would be safe to report.
pub fn will_not_render(src: &str, d: &Delimiters, extensions: &[String]) -> (r: Option<Error>)
    ensures
        r is Some == (extensions@.len() == 0 && references_of(src@, d.view()) is Err),
        r is Some ==> (r->0).view() == references_of(src@, d.view())->Err_0,
{
    if extensions.len() > 0 {
        return None;
    }
    match references(src, d) {
        Ok(_) => None,
        Err(e) => Some(e),
    }
}

// -------------------------------------------------------------------- nesting

/// How a block changes the number of open blocks.
pub open spec fn step_of(src: Seq<char>, block: Block) -> int {
    if block.kind != template::Kind::Statement {
        0
    } else {
        match statement_of(src, block.inner) {
            Ok(StmtModel::Open { .. }) => 1,
            Ok(StmtModel::End { .. }) => -1,
            _ => 0,
        }
    }
}

/// How many of the blocks in `blocks[from..to]` stay open.
pub open spec fn balance(src: Seq<char>, blocks: Seq<Block>, from: int, to: int) -> int
    decreases to - from,
{
    if from >= to {
        0
    } else {
        step_of(src, blocks[from]) + balance(src, blocks, from + 1, to)
    }
}

proof fn balanced_from(
    src: Seq<char>,
    blocks: Seq<Block>,
    i: int,
    to: int,
    stack: Seq<Opened>,
    refs: Seq<RefModel>,
)
    requires
        0 <= i <= to <= blocks.len(),
        checked_from(src, blocks, i, stack, refs) is Ok,
    ensures
        stack.len() + balance(src, blocks, i, to) >= 0,
        to == blocks.len() ==> stack.len() + balance(src, blocks, i, to) == 0,
    decreases to - i,
{
    if i < to {
        if blocks[i].kind != template::Kind::Statement {
            balanced_from(src, blocks, i + 1, to, stack, refs);
        } else {
            let stmt = statement_of(src, blocks[i].inner)->Ok_0;
            let next = nest(stack, stmt, blocks[i].span)->Ok_0;
            balanced_from(src, blocks, i + 1, to, next, refs + named_by(stmt));
        }
    }
}

/// In a template that renders, every block that is opened is closed, and no end tag comes before
/// the tag that it closes.
pub proof fn every_block_is_closed(src: Seq<char>, blocks: Seq<Block>, to: int)
    requires
        checked(src, blocks) is Ok,
        0 <= to <= blocks.len(),
    ensures
        balance(src, blocks, 0, to) >= 0,
        balance(src, blocks, 0, blocks.len() as int) == 0,
{
    balanced_from(src, blocks, 0, to, Seq::empty(), Seq::empty());
    balanced_from(src, blocks, 0, blocks.len() as int, Seq::empty(), Seq::empty());
}

} // verus!
