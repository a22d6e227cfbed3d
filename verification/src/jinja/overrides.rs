//! What the `#jinja2:` line of a template sets: each key its own delimiter, and nothing else.

use vstd::prelude::*;
use vstd::utf8::encode_utf8;

use crate::assign;
use crate::jinja::lexer::ErrorModel;
use crate::jinja::template::{self, Delims};
use crate::keywords;
use crate::parse::Span;
use crate::text;

verus! {

/// The eight things that a header can set.
pub enum Field {
    BlockStart,
    BlockEnd,
    VariableStart,
    VariableEnd,
    CommentStart,
    CommentEnd,
    LineStatement,
    LineComment,
}

/// The key that sets it.
pub open spec fn key_of(f: Field) -> Seq<char> {
    match f {
        Field::BlockStart => "block_start_string"@,
        Field::BlockEnd => "block_end_string"@,
        Field::VariableStart => "variable_start_string"@,
        Field::VariableEnd => "variable_end_string"@,
        Field::CommentStart => "comment_start_string"@,
        Field::CommentEnd => "comment_end_string"@,
        Field::LineStatement => "line_statement_prefix"@,
        Field::LineComment => "line_comment_prefix"@,
    }
}

/// What the delimiters say of it.
pub open spec fn value_of(d: Delims, f: Field) -> Option<Seq<char>> {
    match f {
        Field::BlockStart => Some(d.block_start),
        Field::BlockEnd => Some(d.block_end),
        Field::VariableStart => Some(d.variable_start),
        Field::VariableEnd => Some(d.variable_end),
        Field::CommentStart => Some(d.comment_start),
        Field::CommentEnd => Some(d.comment_end),
        Field::LineStatement => d.line_statement_prefix,
        Field::LineComment => d.line_comment_prefix,
    }
}

proof fn keys_differ()
    ensures
        forall|f: Field, g: Field| f != g ==> #[trigger] key_of(f) != #[trigger] key_of(g),
        forall|f: Field| (#[trigger] key_of(f)).len() > 0 && key_of(f)[0] != ' ',
{
    reveal_strlit("block_start_string");
    reveal_strlit("block_end_string");
    reveal_strlit("variable_start_string");
    reveal_strlit("variable_end_string");
    reveal_strlit("comment_start_string");
    reveal_strlit("comment_end_string");
    reveal_strlit("line_statement_prefix");
    reveal_strlit("line_comment_prefix");
    assert("block_start_string"@.len() == 18 && "block_end_string"@.len() == 16);
    assert("variable_start_string"@.len() == 21 && "variable_end_string"@.len() == 19);
    assert("comment_start_string"@.len() == 20 && "comment_end_string"@.len() == 18);
    assert("line_statement_prefix"@.len() == 21 && "line_comment_prefix"@.len() == 19);
    assert("block_start_string"@[0] == 'b' && "comment_end_string"@[0] == 'c');
    assert("variable_start_string"@[0] == 'v' && "line_statement_prefix"@[0] == 'l');
    assert("variable_end_string"@[0] == 'v' && "line_comment_prefix"@[0] == 'l');
}

/// To set a key sets what it names, and leaves the rest.
pub proof fn a_key_sets_its_delimiter(d: Delims, f: Field, value: Seq<char>)
    ensures
        value_of(template::with_field(d, key_of(f), value), f) == Some(value),
        forall|g: Field|
            g != f ==> #[trigger] value_of(template::with_field(d, key_of(f), value), g)
                == value_of(d, g),
{
    keys_differ();
    assert(key_of(Field::BlockStart) == "block_start_string"@);
    assert(key_of(Field::BlockEnd) == "block_end_string"@);
    assert(key_of(Field::VariableStart) == "variable_start_string"@);
    assert(key_of(Field::VariableEnd) == "variable_end_string"@);
    assert(key_of(Field::CommentStart) == "comment_start_string"@);
    assert(key_of(Field::CommentEnd) == "comment_end_string"@);
    assert(key_of(Field::LineStatement) == "line_statement_prefix"@);
    assert(key_of(Field::LineComment) == "line_comment_prefix"@);
}

/// Is the key free of white space and colons?
proof fn keys_are_words(f: Field)
    ensures
        forall|i: int|
            0 <= i < key_of(f).len() ==> !text::white(#[trigger] key_of(f)[i]) && key_of(f)[i]
                != ':',
        key_of(f).len() > 0,
{
    reveal_strlit("block_start_string");
    reveal_strlit("block_end_string");
    reveal_strlit("variable_start_string");
    reveal_strlit("variable_end_string");
    reveal_strlit("comment_start_string");
    reveal_strlit("comment_end_string");
    reveal_strlit("line_statement_prefix");
    reveal_strlit("line_comment_prefix");
}

proof fn first_char(s: Seq<char>, c: char, i: int, k: int, to: int)
    requires
        0 <= i <= k <= to <= s.len(),
        forall|j: int| i <= j < k ==> s[j] != c,
        k < to ==> s[k] == c,
    ensures
        template::char_or(s, c, i, to) == k,
    decreases k - i,
{
    if i < k {
        first_char(s, c, i + 1, k, to);
    }
}

/// A pair of one of the keys and a quoted text sets that delimiter to the text.
pub proof fn a_pair_sets_its_delimiter(
    d: Delims,
    f: Field,
    value: Seq<char>,
    q: char,
    at: Span,
)
    requires
        q == '"' || q == '\'',
        forall|i: int| 0 <= i < value.len() ==> value[i] != q,
    ensures
        template::pair_of(
            key_of(f).push(':') + (seq![q] + value.push(q)),
            at,
            d,
        ) == Ok::<Delims, ErrorModel>(template::with_field(d, key_of(f), value)),
{
    let key = key_of(f);
    let raw = seq![q] + value.push(q);
    let pair = key.push(':') + raw;
    let n = pair.len() as int;
    keys_are_words(f);
    assert forall|j: int| 0 <= j < key.len() implies pair[j] != ':' by {
        assert(pair[j] == key[j]);
    }
    assert(pair[key.len() as int] == ':');
    first_char(pair, ':', 0, key.len() as int, n);
    assert(pair.subrange(0, key.len() as int) =~= key);
    assert(pair.subrange(key.len() as int + 1, n) =~= raw);
    assert(!text::white(key[0]) && !text::white(key[key.len() - 1]));
    assign::a_bare_text_is_trimmed(key);
    assert(raw[0] == q && raw[raw.len() - 1] == q);
    assign::a_bare_text_is_trimmed(raw);
    assert(pair[0] == key[0] && pair[n - 1] == q);
    assign::a_bare_text_is_trimmed(pair);
    listed_key(f);
    assert(raw.subrange(1, raw.len() - 1) =~= value);
    assert(raw.last() == q);
}

proof fn listed_key(f: Field)
    ensures
        keywords::listed(template::OVERRIDE_KEYS@, key_of(f)),
{
    let t = template::OVERRIDE_KEYS@;
    assert(exists|i: int| 0 <= i < t.len() && (#[trigger] t[i])@ == "block_start_string"@) by {
        assert(t[0]@ == "block_start_string"@);
    }
    assert(t[1]@ == "block_end_string"@);
    assert(t[2]@ == "variable_start_string"@);
    assert(t[3]@ == "variable_end_string"@);
    assert(t[4]@ == "comment_start_string"@);
    assert(t[5]@ == "comment_end_string"@);
    assert(t[6]@ == "line_statement_prefix"@);
    assert(t[7]@ == "line_comment_prefix"@);
}

/// A template whose first line is `#jinja2:` and one such pair is read with that delimiter set, and
/// its body begins behind that line; unless two kinds of tags would open alike.
pub proof fn a_header_sets_its_delimiter(
    base: Delims,
    f: Field,
    value: Seq<char>,
    q: char,
    rest: Seq<char>,
)
    requires
        q == '"' || q == '\'',
        forall|i: int|
            0 <= i < value.len() ==> value[i] != q && value[i] != ',' && value[i] != '\n',
    ensures
        ({
            let line = "#jinja2:"@ + (key_of(f).push(':') + (seq![q] + value.push(q)));
            let d = template::with_field(base, key_of(f), value);
            let r = template::header_of(line.push('\n') + rest, base);
            if d.block_start == d.variable_start || d.variable_start == d.comment_start
                || d.block_start == d.comment_start {
                r is Err
            } else {
                r is Ok && r->Ok_0.0 == d && r->Ok_0.1 == encode_utf8(line).len() + 1
            }
        }),
{
    reveal_strlit("#jinja2:");
    let mark = "#jinja2:"@;
    let pair = key_of(f).push(':') + (seq![q] + value.push(q));
    let line = mark + pair;
    let src = line.push('\n') + rest;
    let eol = line.len() as int;
    let n = src.len() as int;
    keys_are_words(f);
    assert forall|j: int| 0 <= j < eol implies src[j] != '\n' && (j >= mark.len() ==> src[j]
        != ',') by {
        if j < mark.len() {
            assert(src[j] == mark[j]);
        } else {
            let p = j - mark.len();
            assert(src[j] == pair[p]);
            let k = key_of(f).len() as int;
            if p < k {
                assert(pair[p] == key_of(f)[p]);
                commas_are_not_in_keys(f, p);
            } else if p == k {
                assert(pair[p] == ':');
            } else if p == k + 1 {
                assert(pair[p] == q);
            } else if p < k + 2 + value.len() {
                assert(pair[p] == value[p - k - 2]);
            } else {
                assert(pair[p] == q);
            }
        }
    }
    assert(src[eol] == '\n');
    first_char(src, '\n', 0, eol, n);
    first_char(src, ',', mark.len() as int, eol, eol);
    assert(template::JINJA2_OVERRIDE@ == mark);
    assert(src.subrange(0, mark.len() as int) =~= mark);
    assert(src.subrange(mark.len() as int, eol) =~= pair);
    assert(src.subrange(0, eol) =~= line);
    a_pair_sets_its_delimiter(
        base,
        f,
        value,
        q,
        template::span(
            template::offset(src, mark.len() as int),
            template::offset(src, eol),
        ),
    );
    reveal_with_fuel(template::pairs_from, 2);
}

proof fn commas_are_not_in_keys(f: Field, i: int)
    requires
        0 <= i < key_of(f).len(),
    ensures
        key_of(f)[i] != ',',
        key_of(f)[i] != '\n',
{
    reveal_strlit("block_start_string");
    reveal_strlit("block_end_string");
    reveal_strlit("variable_start_string");
    reveal_strlit("variable_end_string");
    reveal_strlit("comment_start_string");
    reveal_strlit("comment_end_string");
    reveal_strlit("line_statement_prefix");
    reveal_strlit("line_comment_prefix");
}

/// A template without such a line is read as it was asked for, from its start.
pub proof fn without_a_header_nothing_is_set(src: Seq<char>, base: Delims)
    requires
        src.len() < 8 || src.subrange(0, 8) != "#jinja2:"@,
    ensures
        template::header_of(src, base) == Ok::<(Delims, int), ErrorModel>((base, 0)),
{
    reveal_strlit("#jinja2:");
    assert(template::JINJA2_OVERRIDE@ == "#jinja2:"@);
}

} // verus!
