//! Semantic tokens for a Jinja source: what an editor paints, decided by the parser rather than by
//! a pattern.
//!
//! A grammar of patterns hardcodes `{%`, so a template whose `#jinja2:` line renames the delimiters
//! gets its real tags missed and its literal `{%` painted as a tag. This reads the header, so the
//! answer follows the delimiters that the template renders with.

use crate::jinja::grammar::Input;
use crate::jinja::lexer::{self, Kind, Token};
use crate::jinja::statement;
use crate::jinja::template::{self, Block, Delimiters, Delims};
use crate::keywords::{self, in_set};
use crate::parse::{self, Span};
use crate::text::{self, find_bytes_from, str_eq};
use vstd::prelude::*;
use vstd::utf8::encode_utf8;

verus! {

/// The kinds of tokens, named for the standard set of the Language Server Protocol.
#[derive(Debug, Clone, Copy, PartialEq, Eq, Structural)]
pub enum TokenType {
    Comment,
    Keyword,
    Variable,
    Function,
    /// The name after a `.`: `hostname` in `ansible_facts.hostname`. A called one stays a
    /// [`TokenType::Function`].
    Property,
    /// `group` in `{% macro upstream(group) %}`, and a keyword argument.
    Parameter,
    /// `m` in `{% import "macros.j2" as m %}`: a name whose members are macros.
    Namespace,
    /// `body` in `{% block body %}`: a name that two templates agree on.
    Label,
    String,
    Number,
    /// A symbolic operator: `|`, `==`, `+`.
    Operator,
    /// `and`, `or`, `not`, `in`, `is`: an operator spelled as a word.
    WordOperator,
    /// `true`, `false`, `none` and their capitalised spellings.
    Constant,
    /// Literal output that a grammar of patterns paints as a comment.
    Text,
    /// `{%`, `%}`, `{{`, `}}`: the delimiter itself, whatever it currently is.
    Delimiter,
}

#[derive(Debug, Clone, Copy, PartialEq, Eq, Structural)]
pub struct SemToken {
    pub span: Span,
    pub ty: TokenType,
    /// This occurrence introduces the name rather than reading it: `h` in `{% for h in hosts %}`.
    pub declaration: bool,
}

/// Operators that are spelled as words.
pub const WORD_OPERATORS: [&'static str; 12] = [
    "and",
    "or",
    "not",
    "in",
    "is",
    "if",
    "else",
    "elif",
    "as",
    "with",
    "without",
    "recursive",
];

/// The six spellings of a literal.
pub const LITERALS: [&'static str; 6] = ["true", "True", "false", "False", "none", "None"];

/// Words that are keywords only in the statement that owns them: `{% if context %}` reads a
/// variable, `{% import "x" as m with context %}` does not.
pub const IMPORT_WORDS: [&'static str; 3] = ["context", "ignore", "missing"];

pub const BLOCK_WORDS: [&'static str; 2] = ["scoped", "required"];

/// What the name of a statement says about the names behind it.
#[derive(Debug, Clone, Copy)]
pub enum Shape {
    /// `for k, v in d.items()`: every name before the first `in` is a binding.
    For { in_at: Option<usize> },
    /// `macro name(a, b=1)`: `name` is a function being defined, and the names directly after `(`
    /// or `,` inside its parentheses are parameters.
    Macro { parens: Option<(usize, usize)> },
    /// `import "x" as m`: the name after `as` is a namespace being introduced.
    Import,
    /// `from "x" import a, b as c with context`: every name after `import` is a macro of the other
    /// file. The one that lands in this scope, `a`, and `c` rather than `b`, is being introduced.
    From { names: Option<(usize, usize)> },
    /// `set a, b = …`, `set x | upper`, `set ns.attr = …`: the names before `=` or `|` are being
    /// introduced, unless a dot stands beside them.
    Assign { end: usize },
    /// `include "x" ignore missing with context`: introduces nothing.
    Include,
    /// `block name scoped required`: the name is a label being defined. `endblock name` is the same
    /// label, referenced.
    Block { defines: bool },
    /// `filter upper`: the word after the tag name is a filter.
    Filter,
    Other,
}

// ------------------------------------------------------------------ the model

/// The last token of a kind before `n`.
pub open spec fn kind_before(g: Input, kind: Kind, n: int) -> Option<int>
    decreases n,
{
    if n <= 0 || n > g.len() {
        None
    } else if g.toks[n - 1].kind == kind {
        Some(n - 1)
    } else {
        kind_before(g, kind, n - 1)
    }
}

/// The first `=` or `|` from `i` on, or the end.
pub open spec fn target_end(g: Input, i: int) -> int
    decreases g.len() - i,
{
    if i < 0 || i >= g.len() || g.is(i, Kind::Assign) || g.is(i, Kind::Pipe) {
        i
    } else {
        target_end(g, i + 1)
    }
}

/// A place of the model as an index.
pub open spec fn index(i: Option<int>) -> Option<usize> {
    match i {
        Some(i) => Some(i as usize),
        None => None,
    }
}

/// The shape of a statement.
pub open spec fn shape_of(g: Input) -> Shape {
    let first = g.text(0);
    if !g.is(0, Kind::Name) {
        Shape::Other
    } else if first == "for"@ {
        Shape::For { in_at: index(statement::word_from(g, "in"@, 1)) }
    } else if first == "macro"@ {
        let open = statement::kind_from(g, Kind::Lparen, 0);
        let close = kind_before(g, Kind::Rparen, g.len());
        Shape::Macro {
            parens: if open is Some && close is Some && open->0 < close->0 {
                Some((open->0 as usize, close->0 as usize))
            } else {
                None
            },
        }
    } else if first == "import"@ {
        Shape::Import
    } else if first == "from"@ {
        match statement::word_from(g, "import"@, 1) {
            None => Shape::From { names: None },
            Some(at) => {
                let end = match statement::word_from(g, "with"@, at + 1) {
                    Some(k) => k,
                    None => match statement::word_from(g, "without"@, at + 1) {
                        Some(k) => k,
                        None => g.len(),
                    },
                };
                Shape::From { names: Some(((at + 1) as usize, end as usize)) }
            },
        }
    } else if first == "set"@ {
        Shape::Assign { end: target_end(g, 0) as usize }
    } else if first == "include"@ || first == "extends"@ {
        Shape::Include
    } else if first == "block"@ {
        Shape::Block { defines: true }
    } else if first == "endblock"@ {
        Shape::Block { defines: false }
    } else if first == "filter"@ {
        Shape::Filter
    } else {
        Shape::Other
    }
}

/// Is the token at `i` a name among these words?
pub open spec fn word_in(g: Input, i: int, words: Seq<&'static str>) -> bool {
    g.is(i, Kind::Name) && keywords::listed(words, g.text(i))
}

/// Does the name at `i` follow a `(` or a comma?
pub open spec fn leads(g: Input, i: int) -> bool {
    g.is(i - 1, Kind::Lparen) || g.is(i - 1, Kind::Comma)
}

/// What a statement says of the name at `i`, where it introduces it, or paints it because of what
/// it introduces.
pub open spec fn introduced(shape: Shape, g: Input, i: int) -> Option<(TokenType, bool)> {
    match shape {
        Shape::For { in_at } => if in_at is Some && 0 < i < in_at->0 {
            Some((TokenType::Variable, true))
        } else {
            None
        },
        Shape::Import => if word_in(g, i, IMPORT_WORDS@) {
            Some((TokenType::Keyword, false))
        } else if g.word(i - 1, "as"@) {
            Some((TokenType::Namespace, true))
        } else {
            None
        },
        Shape::From { names } => if word_in(g, i, IMPORT_WORDS@) || g.word(i, "import"@) {
            Some((TokenType::Keyword, false))
        } else if names is Some && (names->0).0 <= i < (names->0).1 && !g.word(i, "as"@) {
            Some((TokenType::Function, !g.word(i + 1, "as"@)))
        } else {
            None
        },
        Shape::Include => if word_in(g, i, IMPORT_WORDS@) {
            Some((TokenType::Keyword, false))
        } else {
            None
        },
        Shape::Block { defines } => if word_in(g, i, BLOCK_WORDS@) {
            Some((TokenType::Keyword, false))
        } else if i == 1 {
            Some((TokenType::Label, defines))
        } else {
            None
        },
        Shape::Filter => if i == 1 {
            Some((TokenType::Function, false))
        } else {
            None
        },
        Shape::Macro { parens } => if i == 1 {
            Some((TokenType::Function, true))
        } else if parens is Some && (parens->0).0 < i < (parens->0).1 && leads(g, i) {
            Some((TokenType::Parameter, true))
        } else {
            None
        },
        Shape::Assign { end } => if 0 < i < end && !g.is(i - 1, Kind::Dot) && !g.is(i + 1, Kind::Dot) {
            Some((TokenType::Variable, true))
        } else {
            None
        },
        Shape::Other => None,
    }
}

/// Is the name at `i` the test of an `is`? A `not` may stand between the two.
pub open spec fn is_test(g: Input, i: int) -> bool {
    ||| 1 <= i <= g.len() && g.text(i - 1) == "is"@
    ||| 2 <= i <= g.len() && g.text(i - 1) == "not"@ && g.text(i - 2) == "is"@
}

/// What statements introduced, in order.
pub type Names = Seq<(Seq<char>, TokenType)>;

/// What the last of the first `n` statements that introduced a name said of it.
pub open spec fn last_kind(known: Names, name: Seq<char>, n: int) -> Option<TokenType>
    decreases n,
{
    if n <= 0 || n > known.len() {
        None
    } else if known[n - 1].0 == name {
        Some(known[n - 1].1)
    } else {
        last_kind(known, name, n - 1)
    }
}

/// What a bare use of a name is, where a statement before it said so. Only namespaces and functions
/// are remembered.
pub open spec fn use_kind(known: Names, name: Seq<char>) -> Option<TokenType> {
    match last_kind(known, name, known.len() as int) {
        Some(TokenType::Namespace) => Some(TokenType::Namespace),
        Some(TokenType::Function) => Some(TokenType::Function),
        _ => None,
    }
}

/// What the name at `i` is.
pub open spec fn name_type(g: Input, shape: Shape, is_statement: bool, known: Names, i: int) -> (
    TokenType,
    bool,
) {
    if is_statement && i == 0 {
        (TokenType::Keyword, false)
    } else if introduced(shape, g, i) is Some {
        introduced(shape, g, i)->0
    } else if g.is(i + 1, Kind::Assign) && leads(g, i) {
        (TokenType::Parameter, false)
    } else if keywords::listed(LITERALS@, g.text(i)) {
        (TokenType::Constant, false)
    } else if keywords::listed(WORD_OPERATORS@, g.text(i)) {
        (TokenType::WordOperator, false)
    } else if is_test(g, i) || g.is(i - 1, Kind::Pipe) || g.is(i + 1, Kind::Lparen) {
        (TokenType::Function, false)
    } else if g.is(i - 1, Kind::Dot) {
        (TokenType::Property, false)
    } else {
        match use_kind(known, g.text(i)) {
            Some(ty) => (ty, false),
            None => (TokenType::Variable, false),
        }
    }
}

/// What the token at `i` is.
pub open spec fn token_type(g: Input, shape: Shape, is_statement: bool, known: Names, i: int) -> (
    TokenType,
    bool,
) {
    match g.toks[i].kind {
        Kind::Str => (TokenType::String, false),
        Kind::Int | Kind::Float => (TokenType::Number, false),
        Kind::Name => name_type(g, shape, is_statement, known, i),
        _ => (TokenType::Operator, false),
    }
}

/// Where painting stands: what was introduced, and what was painted.
pub struct Paint {
    pub known: Names,
    pub out: Seq<SemToken>,
}

/// The tokens of one tag from `i` on.
pub open spec fn painted_from(
    g: Input,
    off: int,
    shape: Shape,
    is_statement: bool,
    i: int,
    p: Paint,
) -> Paint
    decreases g.len() - i,
{
    if i < 0 || i >= g.len() {
        p
    } else if g.is(i, Kind::Eof) {
        painted_from(g, off, shape, is_statement, i + 1, p)
    } else {
        let (ty, declaration) = token_type(g, shape, is_statement, p.known, i);
        let next = Paint {
            known: if declaration {
                p.known.push((g.text(i), ty))
            } else {
                p.known
            },
            out: p.out.push(
                SemToken { span: statement::shifted(off, g.toks[i].span), ty, declaration },
            ),
        };
        painted_from(g, off, shape, is_statement, i + 1, next)
    }
}

/// The tokens of the content of one tag. What does not lex is left alone.
pub open spec fn painted_inner(src: Seq<char>, inner: Span, is_statement: bool, p: Paint) -> Paint {
    let body = parse::text_between(src, inner.start as int, inner.end as int);
    match lexer::lexed(body) {
        Err(_) => p,
        Ok(toks) => {
            let g = Input { src: body, toks };
            let shape = if is_statement {
                shape_of(g)
            } else {
                Shape::Other
            };
            painted_from(g, inner.start as int, shape, is_statement, 0, p)
        },
    }
}

/// A delimiter, where there is one.
pub open spec fn with_delimiter(out: Seq<SemToken>, start: int, end: int) -> Seq<SemToken> {
    if end > start {
        out.push(
            SemToken {
                span: template::span(start, end),
                ty: TokenType::Delimiter,
                declaration: false,
            },
        )
    } else {
        out
    }
}

/// The `{# … #}` runs from byte `i` on of a text that stands at `base`. One without an end is left
/// alone.
pub open spec fn repainted(b: Seq<u8>, i: int, base: int, out: Seq<SemToken>) -> Seq<SemToken>
    decreases b.len() - i,
{
    match text::find_bytes(b, encode_utf8("{#"@), i) {
        None => out,
        Some(start) => {
            let after = start + encode_utf8("{#"@).len();
            match text::find_bytes(b, encode_utf8("#}"@), after) {
                None => out,
                Some(e) => {
                    let end = e + encode_utf8("#}"@).len();
                    let token = SemToken {
                        span: template::span(base + start, base + end),
                        ty: TokenType::Text,
                        declaration: false,
                    };
                    if i < end <= b.len() {
                        repainted(b, end, base, out.push(token))
                    } else {
                        out.push(token)
                    }
                },
            }
        },
    }
}

/// The tokens of one block.
pub open spec fn painted_block(src: Seq<char>, repaint: bool, block: Block, p: Paint) -> Paint {
    match block.kind {
        template::Kind::Data => if repaint {
            let body = lexer::covered(src, block.span);
            Paint {
                out: repainted(encode_utf8(body), 0, block.span.start as int, p.out),
                ..p
            }
        } else {
            p
        },
        template::Kind::Comment => Paint {
            out: p.out.push(
                SemToken { span: block.span, ty: TokenType::Comment, declaration: false },
            ),
            ..p
        },
        _ => {
            let opened = Paint {
                out: with_delimiter(p.out, block.span.start as int, block.inner.start as int),
                ..p
            };
            let is_statement = block.kind == template::Kind::Statement;
            let body = painted_inner(src, block.inner, is_statement, opened);
            Paint {
                out: with_delimiter(body.out, block.inner.end as int, block.span.end as int),
                ..body
            }
        },
    }
}

/// The tokens of the first `n` blocks.
pub open spec fn painted_blocks(src: Seq<char>, repaint: bool, blocks: Seq<Block>, n: int) -> Paint
    decreases n,
{
    if n <= 0 || n > blocks.len() {
        Paint { known: Seq::empty(), out: Seq::empty() }
    } else {
        painted_block(
            src,
            repaint,
            blocks[n - 1],
            painted_blocks(src, repaint, blocks, n - 1),
        )
    }
}

/// The tokens of a whole template. One that does not split has none.
pub open spec fn painted(src: Seq<char>, base: Delims, root: bool) -> Seq<SemToken> {
    match template::document_of(src, base, root) {
        Err(_) => Seq::empty(),
        Ok((blocks, d)) => painted_blocks(
            src,
            d.comment_start != "{#"@,
            blocks,
            blocks.len() as int,
        ).out,
    }
}

/// Tokens in the order of the text, none reaching into the next, all before `limit`.
pub open spec fn in_order(out: Seq<SemToken>, limit: int) -> bool {
    &&& forall|i: int|
        0 <= i < out.len() ==> (#[trigger] out[i]).span.start <= out[i].span.end <= limit
    &&& forall|i: int, j: int|
        0 <= i < j < out.len() ==> (#[trigger] out[i]).span.end <= (#[trigger] out[j]).span.start
}

// -------------------------------------------------------------- the functions

/// What statements introduced, by name. The order of the source is the scope rule: a name is known
/// from its statement on, and a later declaration replaces an earlier one.
struct Known {
    names: Vec<(String, TokenType)>,
}

impl Known {
    spec fn view(&self) -> Names {
        self.names@.map_values(|e: (String, TokenType)| (e.0@, e.1))
    }

    fn declare(&mut self, name: &str, ty: TokenType)
        ensures
            final(self).view() == old(self).view().push((name@, ty)),
    {
        let ghost before = self.view();
        self.names.push((name.to_owned(), ty));
        assert(self.view() =~= before.push((name@, ty)));
    }

    /// What a bare use of a name is, where a statement before it said so.
    fn use_of(&self, name: &str) -> (r: Option<TokenType>)
        ensures
            r == use_kind(self.view(), name@),
    {
        let mut n: usize = self.names.len();
        while n > 0
            invariant
                n <= self.names@.len(),
                last_kind(self.view(), name@, self.names@.len() as int) == last_kind(
                    self.view(),
                    name@,
                    n as int,
                ),
            decreases n,
        {
            let (known, ty) = (&self.names[n - 1].0, self.names[n - 1].1);
            assert(self.view()[n - 1] == (known@, ty));
            if str_eq(known.as_str(), name) {
                return match ty {
                    TokenType::Namespace => Some(TokenType::Namespace),
                    TokenType::Function => Some(TokenType::Function),
                    _ => None,
                };
            }
            n -= 1;
        }
        None
    }
}

/// Adds a token behind the others.
fn push_token(out: &mut Vec<SemToken>, token: SemToken, Ghost(limit): Ghost<int>)
    requires
        in_order(old(out)@, limit),
        limit <= token.span.start <= token.span.end,
    ensures
        final(out)@ == old(out)@.push(token),
        in_order(final(out)@, token.span.end as int),
{
    out.push(token);
}

/// The tokens of one tag and the text that they stand in.
struct Tag<'a> {
    text: &'a str,
    toks: &'a [Token],
}

impl<'a> Tag<'a> {
    spec fn g(&self) -> Input {
        Input { src: self.text@, toks: self.toks@ }
    }

    fn is(&self, i: usize, kind: Kind) -> (r: bool)
        ensures
            r == self.g().is(i as int, kind),
    {
        i < self.toks.len() && self.toks[i].kind == kind
    }

    fn is_before(&self, i: usize, kind: Kind) -> (r: bool)
        ensures
            r == self.g().is(i - 1, kind),
    {
        i > 0 && self.is(i - 1, kind)
    }

    fn is_behind(&self, i: usize, kind: Kind) -> (r: bool)
        requires
            i < self.toks@.len(),
        ensures
            r == self.g().is(i + 1, kind),
    {
        let n: usize = self.toks.len();
        i + 1 < n && self.toks[i + 1].kind == kind
    }

    fn text_at(&self, i: usize) -> (r: &'a str)
        requires
            i < self.toks@.len(),
        ensures
            r@ == self.g().text(i as int),
    {
        self.toks[i].span.slice(self.text)
    }

    fn is_word(&self, i: usize, word: &str) -> (r: bool)
        ensures
            r == self.g().word(i as int, word@),
    {
        self.is(i, Kind::Name) && str_eq(self.text_at(i), word)
    }

    fn find_word(&self, word: &str, from: usize) -> (r: Option<usize>)
        requires
            from <= self.toks@.len(),
        ensures
            r == index(statement::word_from(self.g(), word@, from as int)),
            r is Some == statement::word_from(self.g(), word@, from as int) is Some,
            r is Some ==> from <= r->0 < self.toks@.len(),
            r is Some ==> r->0 == statement::word_from(self.g(), word@, from as int)->0,
    {
        let n: usize = self.toks.len();
        let mut i: usize = from;
        while i < n
            invariant
                from <= i <= n == self.toks@.len(),
                statement::word_from(self.g(), word@, from as int) == statement::word_from(
                    self.g(),
                    word@,
                    i as int,
                ),
            decreases n - i,
        {
            if self.is_word(i, word) {
                return Some(i);
            }
            i += 1;
        }
        None
    }

    fn first_of(&self, kind: Kind) -> (r: Option<usize>)
        ensures
            r is Some == statement::kind_from(self.g(), kind, 0) is Some,
            r is Some ==> r->0 == statement::kind_from(self.g(), kind, 0)->0,
    {
        let n: usize = self.toks.len();
        let mut i: usize = 0;
        while i < n
            invariant
                i <= n == self.toks@.len(),
                statement::kind_from(self.g(), kind, 0) == statement::kind_from(
                    self.g(),
                    kind,
                    i as int,
                ),
            decreases n - i,
        {
            if self.toks[i].kind == kind {
                return Some(i);
            }
            i += 1;
        }
        None
    }

    fn last_of(&self, kind: Kind) -> (r: Option<usize>)
        ensures
            r is Some == kind_before(self.g(), kind, self.g().len()) is Some,
            r is Some ==> r->0 == kind_before(self.g(), kind, self.g().len())->0,
    {
        let mut n: usize = self.toks.len();
        while n > 0
            invariant
                n <= self.toks@.len(),
                kind_before(self.g(), kind, self.g().len()) == kind_before(
                    self.g(),
                    kind,
                    n as int,
                ),
            decreases n,
        {
            if self.toks[n - 1].kind == kind {
                return Some(n - 1);
            }
            n -= 1;
        }
        None
    }

    /// Where the targets of a `set` end.
    fn find_target_end(&self) -> (r: usize)
        ensures
            r == target_end(self.g(), 0),
    {
        let n: usize = self.toks.len();
        let mut i: usize = 0;
        while i < n && !matches!(self.toks[i].kind, Kind::Assign | Kind::Pipe)
            invariant
                i <= n == self.toks@.len(),
                target_end(self.g(), 0) == target_end(self.g(), i as int),
            decreases n - i,
        {
            i += 1;
        }
        i
    }

    fn shape(&self) -> (r: Shape)
        ensures
            r == shape_of(self.g()),
    {
        let n: usize = self.toks.len();
        if !self.is(0, Kind::Name) {
            return Shape::Other;
        }
        let first = self.text_at(0);
        if str_eq(first, "for") {
            Shape::For { in_at: self.find_word("in", 1) }
        } else if str_eq(first, "macro") {
            let parens = match (self.first_of(Kind::Lparen), self.last_of(Kind::Rparen)) {
                (Some(open), Some(close)) => if open < close {
                    Some((open, close))
                } else {
                    None
                },
                _ => None,
            };
            Shape::Macro { parens }
        } else if str_eq(first, "import") {
            Shape::Import
        } else if str_eq(first, "from") {
            match self.find_word("import", 1) {
                None => Shape::From { names: None },
                Some(at) => {
                    let end: usize = match self.find_word("with", at + 1) {
                        Some(k) => k,
                        None => match self.find_word("without", at + 1) {
                            Some(k) => k,
                            None => n,
                        },
                    };
                    Shape::From { names: Some((at + 1, end)) }
                },
            }
        } else if str_eq(first, "set") {
            Shape::Assign { end: self.find_target_end() }
        } else if str_eq(first, "include") || str_eq(first, "extends") {
            Shape::Include
        } else if str_eq(first, "block") {
            Shape::Block { defines: true }
        } else if str_eq(first, "endblock") {
            Shape::Block { defines: false }
        } else if str_eq(first, "filter") {
            Shape::Filter
        } else {
            Shape::Other
        }
    }

    /// Does the name at `i` follow a `(` or a comma?
    fn leads_at(&self, i: usize) -> (r: bool)
        ensures
            r == leads(self.g(), i as int),
    {
        self.is_before(i, Kind::Lparen) || self.is_before(i, Kind::Comma)
    }

    /// What a statement of this shape says of the name at `i`.
    fn introduces(&self, shape: Shape, i: usize) -> (r: Option<(TokenType, bool)>)
        requires
            i < self.toks@.len(),
            self.toks@[i as int].kind == Kind::Name,
        ensures
            r == introduced(shape, self.g(), i as int),
    {
        let n: usize = self.toks.len();
        let word = self.text_at(i);
        match shape {
            Shape::For { in_at } => match in_at {
                Some(at) => if i > 0 && i < at {
                    Some((TokenType::Variable, true))
                } else {
                    None
                },
                None => None,
            },
            Shape::Import => if in_set(&IMPORT_WORDS, word) {
                Some((TokenType::Keyword, false))
            } else if i > 0 && self.is_word(i - 1, "as") {
                Some((TokenType::Namespace, true))
            } else {
                None
            },
            Shape::From { names } => if in_set(&IMPORT_WORDS, word) || str_eq(word, "import") {
                Some((TokenType::Keyword, false))
            } else {
                match names {
                    Some((start, end)) => if start <= i && i < end && !str_eq(word, "as") {
                        let renamed_away = i + 1 < n && self.is_word(i + 1, "as");
                        Some((TokenType::Function, !renamed_away))
                    } else {
                        None
                    },
                    None => None,
                }
            },
            Shape::Include => if in_set(&IMPORT_WORDS, word) {
                Some((TokenType::Keyword, false))
            } else {
                None
            },
            Shape::Block { defines } => if in_set(&BLOCK_WORDS, word) {
                Some((TokenType::Keyword, false))
            } else if i == 1 {
                Some((TokenType::Label, defines))
            } else {
                None
            },
            Shape::Filter => if i == 1 {
                Some((TokenType::Function, false))
            } else {
                None
            },
            Shape::Macro { parens } => if i == 1 {
                Some((TokenType::Function, true))
            } else {
                match parens {
                    Some((open, close)) => if open < i && i < close && self.leads_at(i) {
                        Some((TokenType::Parameter, true))
                    } else {
                        None
                    },
                    None => None,
                }
            },
            Shape::Assign { end } => if i > 0 && i < end && !self.is_before(i, Kind::Dot)
                && !self.is_behind(i, Kind::Dot) {
                Some((TokenType::Variable, true))
            } else {
                None
            },
            Shape::Other => None,
        }
    }

    /// Is the name at `i` the test of an `is`?
    fn is_test_name(&self, i: usize) -> (r: bool)
        requires
            i < self.toks@.len(),
        ensures
            r == is_test(self.g(), i as int),
    {
        if i == 0 {
            return false;
        }
        let before = self.text_at(i - 1);
        str_eq(before, "is") || (i >= 2 && str_eq(before, "not") && str_eq(
            self.text_at(i - 2),
            "is",
        ))
    }

    /// What the name at `i` is.
    fn classify_name(&self, shape: Shape, is_statement: bool, known: &Known, i: usize) -> (r: (
        TokenType,
        bool,
    ))
        requires
            i < self.toks@.len(),
            self.toks@[i as int].kind == Kind::Name,
        ensures
            r == name_type(self.g(), shape, is_statement, known.view(), i as int),
    {
        let word = self.text_at(i);
        if is_statement && i == 0 {
            return (TokenType::Keyword, false);
        }
        if let Some(found) = self.introduces(shape, i) {
            return found;
        }
        if self.is_behind(i, Kind::Assign) && self.leads_at(i) {
            (TokenType::Parameter, false)
        } else if in_set(&LITERALS, word) {
            (TokenType::Constant, false)
        } else if in_set(&WORD_OPERATORS, word) {
            (TokenType::WordOperator, false)
        } else if self.is_test_name(i) || self.is_before(i, Kind::Pipe) || self.is_behind(
            i,
            Kind::Lparen,
        ) {
            (TokenType::Function, false)
        } else if self.is_before(i, Kind::Dot) {
            (TokenType::Property, false)
        } else {
            match known.use_of(word) {
                Some(ty) => (ty, false),
                None => (TokenType::Variable, false),
            }
        }
    }

    /// What the token at `i` is.
    fn classify(&self, shape: Shape, is_statement: bool, known: &Known, i: usize) -> (r: (
        TokenType,
        bool,
    ))
        requires
            i < self.toks@.len(),
        ensures
            r == token_type(self.g(), shape, is_statement, known.view(), i as int),
    {
        match self.toks[i].kind {
            Kind::Str => (TokenType::String, false),
            Kind::Int | Kind::Float => (TokenType::Number, false),
            Kind::Name => self.classify_name(shape, is_statement, known, i),
            _ => (TokenType::Operator, false),
        }
    }
}

/// Classifies the contents of one `{% … %}` or `{{ … }}`.
///
/// `is_statement` marks the first name as the tag keyword: `include` in `{% include x %}` is a
/// keyword, while the same text in `{{ include }}` is a variable.
fn inner_tokens(
    src: &str,
    inner: Span,
    is_statement: bool,
    known: &mut Known,
    out: &mut Vec<SemToken>,
)
    requires
        in_order(old(out)@, inner.start as int),
        inner.start <= inner.end,
    ensures
        (Paint { known: final(known).view(), out: final(out)@ }) == painted_inner(
            src@,
            inner,
            is_statement,
            Paint { known: old(known).view(), out: old(out)@ },
        ),
        in_order(final(out)@, inner.end as int),
{
    let text = inner.slice(src);
    proof {
        parse::text_between_len(src@, inner.start as int, inner.end as int);
    }
    let toks = match lexer::tokens(text) {
        Ok(toks) => toks,
        Err(_) => return ,
    };
    let tag = Tag { text, toks: toks.as_slice() };
    let shape = if is_statement {
        tag.shape()
    } else {
        Shape::Other
    };
    let n: usize = toks.len();
    let off = inner.start;
    let ghost whole = painted_inner(
        src@,
        inner,
        is_statement,
        Paint { known: known.view(), out: out@ },
    );
    let mut i: usize = 0;
    let ghost mut limit: int = inner.start as int;
    while i < n
        invariant
            i <= n == toks@.len(),
            tag.text@ == text@,
            tag.toks@ == toks@,
            off == inner.start,
            off + encode_utf8(text@).len() <= inner.end,
            lexer::tokens_ok(encode_utf8(text@), toks@),
            whole == painted_from(
                tag.g(),
                off as int,
                shape,
                is_statement,
                i as int,
                Paint { known: known.view(), out: out@ },
            ),
            in_order(out@, limit),
            off <= limit <= inner.end,
            forall|j: int| i <= j < n ==> limit <= off + (#[trigger] toks@[j]).span.start,
        decreases n - i,
    {
        assert(lexer::token_ok(encode_utf8(text@), toks@[i as int]));
        let t = toks[i];
        if t.kind != Kind::Eof {
            let (ty, declaration) = tag.classify(shape, is_statement, known, i);
            if declaration {
                known.declare(tag.text_at(i), ty);
            }
            let span = Span { start: off + t.span.start, end: off + t.span.end };
            push_token(out, SemToken { span, ty, declaration }, Ghost(limit));
            proof {
                limit = span.end as int;
                assert forall|j: int| i + 1 <= j < n implies limit <= off + (
                #[trigger] toks@[j]).span.start by {
                    assert(toks@[i as int].span.end <= toks@[j].span.start);
                }
            }
        }
        i += 1;
    }
    proof {
        wider(out@, limit, inner.end as int);
    }
}

/// Tokens before a limit are before a higher one.
proof fn wider(out: Seq<SemToken>, limit: int, higher: int)
    requires
        in_order(out, limit),
        limit <= higher,
    ensures
        in_order(out, higher),
{
}

/// One delimiter, where there is one: an empty one would be nothing to paint.
fn delimiter(start: usize, end: usize, out: &mut Vec<SemToken>)
    requires
        in_order(old(out)@, start as int),
        start <= end,
    ensures
        final(out)@ == with_delimiter(old(out)@, start as int, end as int),
        in_order(final(out)@, end as int),
{
    if end > start {
        let span = Span { start, end };
        push_token(
            out,
            SemToken { span, ty: TokenType::Delimiter, declaration: false },
            Ghost(start as int),
        );
    }
}

/// Repaints the `{# … #}` runs inside one data block: literal output, where the comment delimiters
/// are others.
fn repaint_literal_comments(src: &str, span: Span, out: &mut Vec<SemToken>)
    requires
        in_order(old(out)@, span.start as int),
        span.start <= span.end,
    ensures
        final(out)@ == repainted(
            encode_utf8(lexer::covered(src@, span)),
            0,
            span.start as int,
            old(out)@,
        ),
        in_order(final(out)@, span.end as int),
{
    let text = span.slice(src);
    proof {
        parse::text_between_len(src@, span.start as int, span.end as int);
        two_bytes();
    }
    let b = text.as_bytes();
    let base = span.start;
    let open = "{#".as_bytes();
    let close = "#}".as_bytes();
    let ghost whole = repainted(b@, 0, base as int, out@);
    let mut i: usize = 0;
    let mut more = true;
    while more
        invariant
            i <= b@.len(),
            base + b@.len() <= span.end,
            base == span.start,
            open@ == encode_utf8("{#"@),
            close@ == encode_utf8("#}"@),
            open@.len() == 2,
            close@.len() == 2,
            more ==> whole == repainted(b@, i as int, base as int, out@),
            !more ==> whole == out@,
            in_order(out@, base + i),
        decreases (if more { b@.len() + 1 - i } else { 0int }),
    {
        match find_bytes_from(b, open, i) {
            None => {
                more = false;
            },
            Some(start) => match find_bytes_from(b, close, start + 2) {
                None => {
                    more = false;
                },
                Some(e) => {
                    let end: usize = e + 2;
                    let at = Span { start: base + start, end: base + end };
                    proof {
                        wider(out@, base + i, base + start);
                    }
                    push_token(
                        out,
                        SemToken { span: at, ty: TokenType::Text, declaration: false },
                        Ghost(base + start),
                    );
                    i = end;
                },
            },
        }
    }
    proof {
        wider(out@, base + i, span.end as int);
    }
}

proof fn two_bytes()
    ensures
        encode_utf8("{#"@).len() == 2,
        encode_utf8("#}"@).len() == 2,
{
    reveal_strlit("{#");
    reveal_strlit("#}");
    vstd::utf8::is_ascii_chars_encode_utf8("{#"@);
    vstd::utf8::is_ascii_chars_encode_utf8("#}"@);
}

/// The tokens of a whole template. `root` says whether the source's own `#jinja2:` line applies:
/// not for a partial that is only ever included.
///
/// A template that does not split has no tokens. The tokens come in the order of the text, none
/// reaching into the next.
pub fn tokens(src: &str, base: &Delimiters, root: bool) -> (r: Vec<SemToken>)
    ensures
        r@ == painted(src@, base.view(), root),
        in_order(r@, encode_utf8(src@).len() as int),
{
    let total: usize = src.as_bytes().len();
    let mut out: Vec<SemToken> = Vec::new();
    let mut known = Known { names: Vec::new() };
    assert(known.view() =~= Seq::empty());
    let (blocks, delims) = match template::document_in(src, base, root) {
        Ok(found) => found,
        Err(_) => return out,
    };
    let repaint = !str_eq(delims.comment_start.as_str(), "{#");
    let n: usize = blocks.len();
    let mut i: usize = 0;
    let ghost mut limit: int = 0;
    while i < n
        invariant
            i <= n == blocks@.len(),
            template::ordered(blocks@, total as int),
            (Paint { known: known.view(), out: out@ }) == painted_blocks(
                src@,
                repaint,
                blocks@,
                i as int,
            ),
            in_order(out@, limit),
            limit <= total,
            forall|j: int| i <= j < n ==> limit <= (#[trigger] blocks@[j]).span.start,
        decreases n - i,
    {
        let b = blocks[i];
        assert(template::fits(blocks@[i as int], total as int));
        proof {
            wider(out@, limit, b.span.start as int);
        }
        match b.kind {
            template::Kind::Data => {
                if repaint {
                    repaint_literal_comments(src, b.span, &mut out);
                } else {
                    proof {
                        wider(out@, b.span.start as int, b.span.end as int);
                    }
                }
            },
            template::Kind::Comment => {
                push_token(
                    &mut out,
                    SemToken { span: b.span, ty: TokenType::Comment, declaration: false },
                    Ghost(b.span.start as int),
                );
            },
            _ => {
                delimiter(b.span.start, b.inner.start, &mut out);
                inner_tokens(
                    src,
                    b.inner,
                    b.kind == template::Kind::Statement,
                    &mut known,
                    &mut out,
                );
                delimiter(b.inner.end, b.span.end, &mut out);
            },
        }
        proof {
            limit = b.span.end as int;
            assert forall|j: int| i + 1 <= j < n implies limit <= (
            #[trigger] blocks@[j]).span.start by {
                assert(blocks@[i as int].span.end <= blocks@[j].span.start);
            }
        }
        i += 1;
    }
    proof {
        wider(out@, limit, total as int);
    }
    out
}

/// The tokens of a bare expression: a `when:`, where the whole scalar is the expression and there
/// are no delimiters. Its first name is a variable, not a tag keyword.
pub fn expression_tokens(src: &str) -> (r: Vec<SemToken>)
    ensures
        r@ == painted_inner(
            src@,
            template::span(0, encode_utf8(src@).len() as int),
            false,
            Paint { known: Seq::empty(), out: Seq::empty() },
        ).out,
        in_order(r@, encode_utf8(src@).len() as int),
{
    let mut out: Vec<SemToken> = Vec::new();
    let mut known = Known { names: Vec::new() };
    assert(known.view() =~= Seq::empty());
    let end: usize = src.as_bytes().len();
    inner_tokens(src, Span { start: 0, end }, false, &mut known, &mut out);
    out
}

} // verus!
