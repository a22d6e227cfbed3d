//! What the tokens of a tag are painted as: every token once, in order, by what it is and by what
//! stands around it.

use vstd::prelude::*;

use crate::jinja::grammar::Input;
use crate::jinja::highlight::{self, Names, Paint, SemToken, Shape, TokenType};
use crate::jinja::lexer::Kind;
use crate::jinja::reading;
use crate::jinja::statement;
use crate::jinja::template::{self, Block};
use crate::keywords;

verus! {

/// Does the tag have `n` tokens and an end behind them, and no other end?
pub open spec fn ended(g: Input, n: int) -> bool {
    &&& g.toks.len() == n + 1
    &&& g.is(n, Kind::Eof)
    &&& forall|i: int| 0 <= i < n ==> (#[trigger] g.toks[i]).kind != Kind::Eof
}

/// What the token at `j` can be painted as, whatever was introduced before.
pub open spec fn painted_as(g: Input, shape: Shape, statement: bool, j: int, t: SemToken) -> bool {
    exists|known: Names|
        (t.ty, t.declaration) == #[trigger] highlight::token_type(g, shape, statement, known, j)
}

proof fn painted_each(
    g: Input,
    off: int,
    shape: Shape,
    is_statement: bool,
    i: int,
    n: int,
    p: Paint,
)
    requires
        ended(g, n),
        0 <= i <= n,
    ensures
        ({
            let out = highlight::painted_from(g, off, shape, is_statement, i, p).out;
            &&& out.len() == p.out.len() + n - i
            &&& forall|k: int| 0 <= k < p.out.len() ==> #[trigger] out[k] == p.out[k]
            &&& forall|j: int|
                #![trigger g.toks[j]]
                i <= j < n ==> out[p.out.len() + j - i].span == statement::shifted(
                    off,
                    g.toks[j].span,
                ) && painted_as(g, shape, is_statement, j, out[p.out.len() + j - i])
        }),
    decreases n - i,
{
    reveal_with_fuel(highlight::painted_from, 3);
    if i < n {
        assert(g.toks[i].kind != Kind::Eof);
        let (ty, declaration) = highlight::token_type(g, shape, is_statement, p.known, i);
        let t = SemToken { span: statement::shifted(off, g.toks[i].span), ty, declaration };
        let next = Paint {
            known: if declaration {
                p.known.push((g.text(i), ty))
            } else {
                p.known
            },
            out: p.out.push(t),
        };
        painted_each(g, off, shape, is_statement, i + 1, n, next);
        let out = highlight::painted_from(g, off, shape, is_statement, i, p).out;
        assert(out == highlight::painted_from(g, off, shape, is_statement, i + 1, next).out);
        assert(next.out[p.out.len() as int] == t);
        assert(out[p.out.len() as int] == t);
        assert(painted_as(g, shape, is_statement, i, t));
        assert forall|k: int| 0 <= k < p.out.len() implies #[trigger] out[k] == p.out[k] by {
            assert(out[k] == next.out[k]);
        }
        assert forall|j: int|
            #![trigger g.toks[j]]
            i <= j < n implies out[p.out.len() + j - i].span == statement::shifted(
            off,
            g.toks[j].span,
        ) && painted_as(g, shape, is_statement, j, out[p.out.len() + j - i]) by {
            if j > i {
                assert(next.out.len() + j - (i + 1) == p.out.len() + j - i);
            }
        }
    }
}

/// Every token of a tag is painted once, in order, where it stands. What was painted before stays.
pub proof fn every_token_is_painted(
    g: Input,
    off: int,
    shape: Shape,
    is_statement: bool,
    n: int,
    p: Paint,
)
    requires
        ended(g, n),
        0 <= n,
    ensures
        ({
            let out = highlight::painted_from(g, off, shape, is_statement, 0, p).out;
            &&& out.len() == p.out.len() + n
            &&& forall|k: int| 0 <= k < p.out.len() ==> #[trigger] out[k] == p.out[k]
            &&& forall|j: int|
                #![trigger g.toks[j]]
                0 <= j < n ==> out[p.out.len() + j].span == statement::shifted(
                    off,
                    g.toks[j].span,
                ) && painted_as(g, shape, is_statement, j, out[p.out.len() + j])
        }),
{
    painted_each(g, off, shape, is_statement, 0, n, p);
}

// ------------------------------------------------------------------ kinds

/// Strings, numbers and signs are painted as what they are, wherever they stand.
pub proof fn literals_and_signs(
    g: Input,
    shape: Shape,
    is_statement: bool,
    j: int,
    t: SemToken,
)
    requires
        painted_as(g, shape, is_statement, j, t),
    ensures
        g.toks[j].kind == Kind::Str ==> t.ty == TokenType::String && !t.declaration,
        g.toks[j].kind == Kind::Int || g.toks[j].kind == Kind::Float ==> t.ty == TokenType::Number
            && !t.declaration,
        reading::sign_of(g.toks[j].kind) is Some ==> t.ty == TokenType::Operator && !t.declaration,
{
}

/// The words that are operators.
pub open spec fn operator_word(w: Seq<char>) -> bool {
    ||| w == "and"@
    ||| w == "or"@
    ||| w == "not"@
    ||| w == "in"@
    ||| w == "is"@
    ||| w == "if"@
    ||| w == "else"@
    ||| w == "elif"@
    ||| w == "as"@
    ||| w == "with"@
    ||| w == "without"@
    ||| w == "recursive"@
}

proof fn word_tables(w: Seq<char>)
    ensures
        keywords::listed(highlight::LITERALS@, w) == reading::literal_word(w),
        keywords::listed(highlight::WORD_OPERATORS@, w) == operator_word(w),
{
    let a = highlight::LITERALS@;
    assert(a.len() == 6 && a[0]@ == "true"@ && a[1]@ == "True"@ && a[2]@ == "false"@ && a[3]@
        == "False"@ && a[4]@ == "none"@ && a[5]@ == "None"@);
    let b = highlight::WORD_OPERATORS@;
    assert(b.len() == 12 && b[0]@ == "and"@ && b[1]@ == "or"@ && b[2]@ == "not"@ && b[3]@ == "in"@
        && b[4]@ == "is"@ && b[5]@ == "if"@);
    assert(b[6]@ == "else"@ && b[7]@ == "elif"@ && b[8]@ == "as"@ && b[9]@ == "with"@ && b[10]@
        == "without"@ && b[11]@ == "recursive"@);
}

/// Is the name at `j` a keyword argument: in front of an `=`, behind a bracket or a comma?
pub open spec fn keyword_argument(g: Input, j: int) -> bool {
    g.is(j + 1, Kind::Assign) && (g.is(j - 1, Kind::Lparen) || g.is(j - 1, Kind::Comma))
}

/// Is the name at `j` applied: behind a pipe, behind an `is` or an `is not`, or in front of a
/// parenthesis?
pub open spec fn applied(g: Input, j: int) -> bool {
    ||| g.is(j - 1, Kind::Pipe)
    ||| g.is(j + 1, Kind::Lparen)
    ||| 1 <= j <= g.len() && g.text(j - 1) == "is"@
    ||| 2 <= j <= g.len() && g.text(j - 1) == "not"@ && g.text(j - 2) == "is"@
}

/// In an expression, a name is a parameter where it is a keyword argument; else a constant or an
/// operator by its word; else a function where it is applied, a property behind a dot, and
/// otherwise a variable, unless a statement made it a namespace or a function. An expression
/// introduces nothing.
pub proof fn names_in_expressions(g: Input, j: int, known: Names)
    requires
        0 <= j,
        reading::name_at(g, j),
    ensures
        ({
            let w = reading::text_at(g, j);
            let (ty, declaration) = highlight::token_type(g, Shape::Other, false, known, j);
            &&& !declaration
            &&& keyword_argument(g, j) ==> ty == TokenType::Parameter
            &&& !keyword_argument(g, j) && reading::literal_word(w) ==> ty == TokenType::Constant
            &&& !keyword_argument(g, j) && !reading::literal_word(w) && operator_word(w) ==> ty
                == TokenType::WordOperator
            &&& !keyword_argument(g, j) && !reading::literal_word(w) && !operator_word(w)
                && applied(g, j) ==> ty == TokenType::Function
            &&& !keyword_argument(g, j) && !reading::literal_word(w) && !operator_word(w)
                && !applied(g, j) && g.is(j - 1, Kind::Dot) ==> ty == TokenType::Property
            &&& !keyword_argument(g, j) && !reading::literal_word(w) && !operator_word(w)
                && !applied(g, j) && !g.is(j - 1, Kind::Dot) ==> (ty == TokenType::Variable || ty
                == TokenType::Namespace || ty == TokenType::Function)
            &&& !keyword_argument(g, j) && !reading::literal_word(w) && !operator_word(w)
                && !applied(g, j) && !g.is(j - 1, Kind::Dot) && (forall|k: int|
                0 <= k < known.len() ==> (#[trigger] known[k]).0 != w) ==> ty == TokenType::Variable
        }),
{
    let w = reading::text_at(g, j);
    word_tables(w);
    last_kind_is(known, w, known.len() as int);
}

proof fn last_kind_is(known: Names, name: Seq<char>, n: int)
    requires
        0 <= n <= known.len(),
    ensures
        match highlight::last_kind(known, name, n) {
            Some(ty) => exists|k: int|
                0 <= k < n && (#[trigger] known[k]) == (name, ty) && forall|j: int|
                    k < j < n ==> (#[trigger] known[j]).0 != name,
            None => forall|k: int| 0 <= k < n ==> (#[trigger] known[k]).0 != name,
        },
    decreases n,
{
    if n > 0 {
        last_kind_is(known, name, n - 1);
        if known[n - 1].0 == name {
            assert(known[n - 1] == (name, known[n - 1].1));
        } else if let Some(ty) = highlight::last_kind(known, name, n - 1) {
            let k = choose|k: int|
                0 <= k < n - 1 && (#[trigger] known[k]) == (name, ty) && forall|j: int|
                    k < j < n - 1 ==> (#[trigger] known[j]).0 != name;
            assert(known[k] == (name, ty));
        }
    }
}

/// A name that a statement last introduced as a namespace or a function is painted as one where it
/// stands bare.
pub proof fn names_are_remembered(g: Input, j: int, known: Names, k: int)
    requires
        0 <= j,
        reading::name_at(g, j),
        !keyword_argument(g, j),
        !reading::literal_word(reading::text_at(g, j)),
        !operator_word(reading::text_at(g, j)),
        !applied(g, j),
        !g.is(j - 1, Kind::Dot),
        0 <= k < known.len(),
        known[k].0 == reading::text_at(g, j),
        known[k].1 == TokenType::Namespace || known[k].1 == TokenType::Function,
        forall|i: int| k < i < known.len() ==> (#[trigger] known[i]).0 != reading::text_at(g, j),
    ensures
        highlight::token_type(g, Shape::Other, false, known, j) == (known[k].1, false),
{
    let w = reading::text_at(g, j);
    word_tables(w);
    last_kind_is(known, w, known.len() as int);
    if let Some(ty) = highlight::last_kind(known, w, known.len() as int) {
        let m = choose|m: int|
            0 <= m < known.len() && (#[trigger] known[m]) == (w, ty) && forall|i: int|
                m < i < known.len() ==> (#[trigger] known[i]).0 != w;
        if m < k {
            assert(known[k].0 != w);
        }
        if k < m {
            assert(known[m].0 != w);
        }
    } else {
        assert(known[k].0 != w);
    }
}

// ------------------------------------------------------------------ statements

/// The name of a statement is a keyword.
pub proof fn a_tag_name_is_a_keyword(g: Input, shape: Shape, known: Names)
    requires
        reading::name_at(g, 0),
    ensures
        highlight::token_type(g, shape, true, known, 0) == (TokenType::Keyword, false),
{
}

proof fn tags_differ()
    ensures
        "for"@ != "macro"@,
        "for"@ != "set"@,
        "for"@ != "block"@,
        "for"@ != "import"@,
        "macro"@ != "set"@,
        "macro"@ != "block"@,
        "macro"@ != "import"@,
        "set"@ != "import"@,
        "set"@ != "from"@,
        "set"@ != "block"@,
        "block"@ != "import"@,
        "block"@ != "from"@,
        "block"@ != "include"@,
        "block"@ != "extends"@,
        "for"@ != "filter"@,
        "macro"@ != "filter"@,
        "import"@ != "filter"@,
        "from"@ != "filter"@,
        "set"@ != "filter"@,
        "include"@ != "filter"@,
        "extends"@ != "filter"@,
        "block"@ != "filter"@,
        "endblock"@ != "filter"@,
{
    reveal_strlit("for");
    reveal_strlit("macro");
    reveal_strlit("set");
    reveal_strlit("block");
    reveal_strlit("import");
    reveal_strlit("from");
    reveal_strlit("include");
    reveal_strlit("extends");
    reveal_strlit("filter");
    reveal_strlit("endblock");
    assert("for"@.len() == 3 && "macro"@.len() == 5 && "set"@.len() == 3 && "block"@.len() == 5);
    assert("import"@.len() == 6 && "from"@.len() == 4 && "include"@.len() == 7);
    assert("extends"@.len() == 7 && "filter"@.len() == 6 && "endblock"@.len() == 8);
    assert("for"@[0] == 'f' && "set"@[0] == 's' && "macro"@[0] == 'm' && "block"@[0] == 'b');
    assert("import"@[0] == 'i' && "filter"@[0] == 'f');
}

proof fn first_word(g: Input, word: Seq<char>, i: int, k: int)
    requires
        0 <= i <= k < g.len(),
        g.word(k, word),
        forall|j: int| i <= j < k ==> !#[trigger] g.word(j, word),
    ensures
        statement::word_from(g, word, i) == Some(k),
    decreases k - i,
{
    if i < k {
        assert(!g.word(i, word));
        first_word(g, word, i + 1, k);
    }
}

/// The names between `for` and the first `in` are variables that it introduces.
pub proof fn a_for_introduces_its_targets(g: Input, k: int, j: int, known: Names)
    requires
        g.word(0, "for"@),
        g.word(k, "in"@),
        0 < j < k <= usize::MAX,
        forall|i: int| 1 <= i < k ==> !#[trigger] g.word(i, "in"@),
        reading::name_at(g, j),
    ensures
        highlight::token_type(g, highlight::shape_of(g), true, known, j) == (
            TokenType::Variable,
            true,
        ),
{
    first_word(g, "in"@, 1, k);
}

/// The name behind `macro` is a function that it introduces, and the one behind `block` a label;
/// the one behind `filter` is a function.
pub proof fn a_definition_introduces_its_name(g: Input, known: Names)
    requires
        reading::name_at(g, 0),
        reading::name_at(g, 1),
    ensures
        g.word(0, "macro"@) ==> highlight::token_type(g, highlight::shape_of(g), true, known, 1)
            == (TokenType::Function, true),
        g.word(0, "filter"@) ==> highlight::token_type(g, highlight::shape_of(g), true, known, 1)
            == (TokenType::Function, false),
        g.word(0, "block"@) && reading::text_at(g, 1) != "scoped"@ && reading::text_at(g, 1)
            != "required"@ ==> highlight::token_type(g, highlight::shape_of(g), true, known, 1) == (
            TokenType::Label,
            true,
        ),
{
    tags_differ();
    let w = highlight::BLOCK_WORDS@;
    assert(w.len() == 2 && w[0]@ == "scoped"@ && w[1]@ == "required"@);
}

proof fn target_ends(g: Input, i: int, k: int)
    requires
        0 <= i <= k <= g.len(),
        k < g.len() ==> g.is(k, Kind::Assign) || g.is(k, Kind::Pipe),
        forall|j: int|
            i <= j < k ==> (#[trigger] g.toks[j]).kind != Kind::Assign && g.toks[j].kind
                != Kind::Pipe,
    ensures
        highlight::target_end(g, i) == k,
    decreases k - i,
{
    if i < k {
        assert(g.toks[i].kind != Kind::Pipe);
        target_ends(g, i + 1, k);
    }
}

/// The names between `set` and the first `=` or `|` are variables that it introduces, unless a dot
/// stands beside them.
pub proof fn a_set_introduces_its_targets(g: Input, k: int, j: int, known: Names)
    requires
        g.word(0, "set"@),
        0 < j < k <= g.len(),
        g.len() <= usize::MAX,
        k < g.len() ==> g.is(k, Kind::Assign) || g.is(k, Kind::Pipe),
        forall|i: int|
            0 <= i < k ==> (#[trigger] g.toks[i]).kind != Kind::Assign && g.toks[i].kind
                != Kind::Pipe,
        reading::name_at(g, j),
        !g.is(j - 1, Kind::Dot),
        !g.is(j + 1, Kind::Dot),
    ensures
        highlight::token_type(g, highlight::shape_of(g), true, known, j) == (
            TokenType::Variable,
            true,
        ),
{
    tags_differ();
    target_ends(g, 0, k);
}

/// The name behind `as` in an `import` is a namespace that it introduces.
pub proof fn an_import_introduces_a_namespace(g: Input, j: int, known: Names)
    requires
        g.word(0, "import"@),
        0 < j,
        g.word(j - 1, "as"@),
        reading::name_at(g, j),
        reading::text_at(g, j) != "context"@,
        reading::text_at(g, j) != "ignore"@,
        reading::text_at(g, j) != "missing"@,
    ensures
        highlight::token_type(g, highlight::shape_of(g), true, known, j) == (
            TokenType::Namespace,
            true,
        ),
{
    tags_differ();
    let w = highlight::IMPORT_WORDS@;
    assert(w.len() == 3 && w[0]@ == "context"@ && w[1]@ == "ignore"@ && w[2]@ == "missing"@);
}

// ------------------------------------------------------------------ blocks

/// A comment is one token, all of it. Text between the tags is none, unless it is repainted. Of
/// every other block, what is in front of its content and what is behind it are delimiters.
pub proof fn blocks_are_delimited(src: Seq<char>, repaint: bool, block: Block, p: Paint)
    requires
        block.span.start < block.inner.start,
        block.inner.end < block.span.end,
    ensures
        ({
            let out = highlight::painted_block(src, repaint, block, p).out;
            let n = p.out.len() as int;
            &&& block.kind == template::Kind::Comment ==> out == p.out.push(
                SemToken { span: block.span, ty: TokenType::Comment, declaration: false },
            )
            &&& block.kind == template::Kind::Data && !repaint ==> out == p.out
            &&& block.kind == template::Kind::Expression || block.kind
                == template::Kind::Statement ==> out.len() > 0 && out.last() == (SemToken {
                span: template::span(block.inner.end as int, block.span.end as int),
                ty: TokenType::Delimiter,
                declaration: false,
            })
        }),
{
}

/// Of the names behind the `import` of a `from`, in front of a `with` or `without`, each is a
/// function; it is introduced unless an `as` follows it.
pub proof fn a_from_introduces_its_names(g: Input, k: int, j: int, known: Names)
    requires
        g.word(0, "from"@),
        1 <= k < j,
        g.len() <= usize::MAX,
        g.word(k, "import"@),
        forall|i: int| 1 <= i < k ==> !#[trigger] g.word(i, "import"@),
        forall|i: int|
            k < i <= j ==> !#[trigger] g.word(i, "with"@) && !g.word(i, "without"@) && !g.word(
                i,
                "as"@,
            ) && !g.word(i, "import"@),
        reading::name_at(g, j),
        reading::text_at(g, j) != "context"@,
        reading::text_at(g, j) != "ignore"@,
        reading::text_at(g, j) != "missing"@,
    ensures
        highlight::token_type(g, highlight::shape_of(g), true, known, j) == (
            TokenType::Function,
            !g.word(j + 1, "as"@),
        ),
{
    from_is_its_own();
    first_word(g, "import"@, 1, k);
    assert forall|m: int| k + 1 <= m <= j implies !#[trigger] g.word(m, "without"@) by {
        assert(!g.word(m, "with"@));
    }
    word_behind(g, "with"@, k + 1, j);
    word_behind(g, "without"@, k + 1, j);
    let w = highlight::IMPORT_WORDS@;
    assert(w.len() == 3 && w[0]@ == "context"@ && w[1]@ == "ignore"@ && w[2]@ == "missing"@);
    assert(!g.word(j, "with"@));
}

proof fn from_is_its_own()
    ensures
        "from"@ != "for"@,
        "from"@ != "macro"@,
        "from"@ != "import"@,
{
    reveal_strlit("from");
    reveal_strlit("for");
    reveal_strlit("macro");
    reveal_strlit("import");
    assert("from"@.len() == 4 && "for"@.len() == 3 && "macro"@.len() == 5 && "import"@.len() == 6);
}

proof fn word_behind(g: Input, word: Seq<char>, i: int, j: int)
    requires
        0 <= i <= j + 1,
        0 <= j < g.len(),
        forall|m: int| i <= m <= j ==> !#[trigger] g.word(m, word),
    ensures
        match statement::word_from(g, word, i) {
            Some(k) => j < k < g.len(),
            None => true,
        },
    decreases g.len() - i,
{
    if i <= j {
        assert(!g.word(i, word));
        word_behind(g, word, i + 1, j);
    } else if i < g.len() && !g.word(i, word) {
        word_behind_all(g, word, i + 1, j);
    }
}

proof fn word_behind_all(g: Input, word: Seq<char>, i: int, j: int)
    requires
        0 <= j < i,
    ensures
        match statement::word_from(g, word, i) {
            Some(k) => j < k < g.len(),
            None => true,
        },
    decreases g.len() - i,
{
    if i < g.len() && !g.word(i, word) {
        word_behind_all(g, word, i + 1, j);
    }
}

} // verus!
