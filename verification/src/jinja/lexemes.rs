//! What the tokens of a text are: they leave out nothing but blanks, each is as long as it can be,
//! and a literal stands for the number or the characters that it spells.

use vstd::prelude::*;
use vstd::utf8::encode_utf8;

use crate::jinja::lexer::{self, ErrorModel, Kind, Token};
use crate::text;

verus! {

/// Space, tab, line feed, form feed and carriage return.
pub open spec fn gap(c: u8) -> bool {
    c == 32 || c == 9 || c == 10 || c == 12 || c == 13
}

/// Is there nothing but blanks between two offsets?
pub open spec fn gaps(b: Seq<u8>, from: int, to: int) -> bool {
    0 <= from <= to <= b.len() && forall|k: int| from <= k < to ==> gap(#[trigger] b[k])
}

/// Where the token in front of the `i`th ends.
pub open spec fn end_before(toks: Seq<Token>, i: int) -> int {
    if i <= 0 {
        0
    } else {
        toks[i - 1].span.end as int
    }
}

/// Do the tokens tile the text up to an offset, with blanks between them?
#[verifier::opaque]
pub open spec fn tiles(b: Seq<u8>, toks: Seq<Token>, end: int) -> bool {
    &&& forall|i: int|
        #![trigger toks[i]]
        0 <= i < toks.len() ==> toks[i].span.start < toks[i].span.end <= b.len() && !gap(
            b[toks[i].span.start as int],
        ) && toks[i].kind != Kind::Eof
    &&& forall|i: int|
        0 <= i < toks.len() ==> gaps(b, #[trigger] end_before(toks, i), toks[i].span.start as int)
    &&& gaps(b, end_before(toks, toks.len() as int), end)
}

proof fn one_blank_more(b: Seq<u8>, toks: Seq<Token>, i: int)
    requires
        tiles(b, toks, i),
        i < b.len(),
        gap(b[i]),
    ensures
        tiles(b, toks, i + 1),
{
    reveal(tiles);
}

proof fn one_token_more(b: Seq<u8>, acc: Seq<Token>, i: int, t: Token)
    requires
        tiles(b, acc, i),
        t.span.start == i,
        i < t.span.end <= b.len(),
        !gap(b[i]),
        t.kind != Kind::Eof,
    ensures
        tiles(b, acc.push(t), t.span.end as int),
{
    reveal(tiles);
    let more = acc.push(t);
    assert forall|k: int| 0 <= k < more.len() implies gaps(
        b,
        #[trigger] end_before(more, k),
        more[k].span.start as int,
    ) by {
        assert(end_before(more, k) == end_before(acc, k));
    }
    assert(end_before(more, more.len() as int) == t.span.end);
}

proof fn no_token_is_the_end(b: Seq<u8>, i: int)
    ensures
        match lexer::lexeme(b, i) {
            Some((kind, _)) => kind != Kind::Eof,
            None => true,
        },
{
}

proof fn tiled_from(b: Seq<u8>, i: int, acc: Seq<Token>)
    requires
        0 <= i <= b.len() <= usize::MAX,
        tiles(b, acc, i),
    ensures
        match lexer::lex_from(b, i, acc) {
            Ok(toks) => toks.len() > 0 && toks.last().kind == Kind::Eof && toks.last().span.start
                == b.len() && toks.last().span.end == b.len() && tiles(
                b,
                toks.drop_last(),
                b.len() as int,
            ),
            Err(_) => true,
        },
    decreases b.len() - i,
{
    if i >= b.len() {
        let toks = acc.push(lexer::token(Kind::Eof, b.len() as int, b.len() as int));
        assert(toks.drop_last() =~= acc);
    } else if lexer::blank(b[i]) {
        one_blank_more(b, acc, i);
        tiled_from(b, i + 1, acc);
    } else {
        no_token_is_the_end(b, i);
        if let Some((kind, end)) = lexer::lexeme(b, i) {
            if i < end <= b.len() {
                let t = lexer::token(kind, i, end);
                one_token_more(b, acc, i, t);
                tiled_from(b, end, acc.push(t));
            }
        }
    }
}

/// The tokens of a text, its end behind them, leave out nothing but blanks, and none of them begins
/// with one.
pub proof fn tokens_tile_the_text(src: Seq<char>, toks: Seq<Token>)
    requires
        lexer::lexed(src) == Ok::<Seq<Token>, ErrorModel>(toks),
        encode_utf8(src).len() <= usize::MAX,
    ensures
        toks.len() > 0,
        toks.last().kind == Kind::Eof,
        toks.last().span.start == encode_utf8(src).len(),
        toks.last().span.end == encode_utf8(src).len(),
        tiles(encode_utf8(src), toks.drop_last(), encode_utf8(src).len() as int),
{
    let none = Seq::<Token>::empty();
    assert(tiles(encode_utf8(src), none, 0)) by {
        reveal(tiles);
    }
    tiled_from(encode_utf8(src), 0, none);
}

// ------------------------------------------------------------------ one token

/// A decimal digit.
pub open spec fn decimal(c: u8) -> bool {
    48 <= c <= 57
}

/// A string begins with a quote and ends with the first one of the same kind behind it that is not
/// escaped; it holds at least the two. An integer and a float begin with a digit.
pub proof fn literals_look_as_they_should(b: Seq<u8>, i: int, kind: Kind, end: int)
    requires
        0 <= i < b.len(),
        lexer::lexeme(b, i) == Some((kind, end)),
        i < end <= b.len(),
    ensures
        kind == Kind::Str ==> (b[i] == 34 || b[i] == 39) && i + 2 <= end && b[end - 1] == b[i],
        kind == Kind::Str ==> forall|k: int|
            i < k < end - 1 && #[trigger] b[k] == b[i] ==> b[k - 1] == 92,
        kind == Kind::Int || kind == Kind::Float ==> decimal(b[i]),
        decimal(b[i]) ==> kind == Kind::Int || kind == Kind::Float,
{
    digit_is(b[i]);
    if b[i] == 34 || b[i] == 39 {
        quote_closes(b, b[i], i + 1);
    }
    if decimal(b[i]) && b[i] == 48 {
        digits_go_on(b, i + 1, 1);
    }
}

proof fn digit_is(c: u8)
    ensures
        lexer::digit(c, 10) == decimal(c),
{
}

proof fn digits_go_on(b: Seq<u8>, j: int, radix: int)
    ensures
        j <= lexer::prefixed_digits(b, j, radix),
    decreases b.len() - j,
{
    if 0 <= j < b.len() {
        let d = if b[j] == 95 {
            j + 1
        } else {
            j
        };
        if d < b.len() && lexer::digit(b[d], radix) {
            digits_go_on(b, d + 1, radix);
        }
    }
}

proof fn quote_closes(b: Seq<u8>, quote: u8, j: int)
    requires
        0 < j,
        quote != 92,
    ensures
        match lexer::closing_quote(b, quote, j) {
            Some(end) => j < end <= b.len() && b[end - 1] == quote && forall|k: int|
                j <= k < end - 1 && #[trigger] b[k] == quote ==> b[k - 1] == 92,
            None => true,
        },
    decreases b.len() + 2 - j,
{
    if j < b.len() {
        if b[j] == 92 {
            quote_closes(b, quote, j + 2);
        } else if b[j] != quote {
            quote_closes(b, quote, j + 1);
        }
    }
}

/// A sign of one byte stands alone only where the next byte makes no longer sign of it.
pub proof fn signs_are_longest(b: Seq<u8>, i: int, kind: Kind, end: int)
    requires
        0 <= i < b.len(),
        lexer::lexeme(b, i) == Some((kind, end)),
        end < b.len(),
    ensures
        kind == Kind::Assign ==> b[end] != 61,
        kind == Kind::Gt ==> b[end] != 61,
        kind == Kind::Lt ==> b[end] != 61,
        kind == Kind::Div ==> b[end] != 47,
        kind == Kind::Mul ==> b[end] != 42,
{
}

// ------------------------------------------------------------------ numbers

/// The value of a decimal digit.
pub open spec fn worth(c: char) -> int {
    c as int - '0' as int
}

/// Are these decimal digits?
pub open spec fn decimals(s: Seq<char>) -> bool {
    s.len() > 0 && forall|i: int| 0 <= i < s.len() ==> '0' <= #[trigger] s[i] <= '9'
}

proof fn nothing_underscored(s: Seq<char>, n: int)
    requires
        0 <= n <= s.len(),
        forall|i: int| 0 <= i < s.len() ==> s[i] != '_',
    ensures
        lexer::no_underscores(s, n) == s.subrange(0, n),
    decreases n,
{
    if n > 0 {
        nothing_underscored(s, n - 1);
        assert(s.subrange(0, n) =~= s.subrange(0, n - 1).push(s[n - 1]));
    } else {
        assert(s.subrange(0, 0) =~= Seq::empty());
    }
}

proof fn value_of_decimals(s: Seq<char>)
    requires
        decimals(s),
    ensures
        lexer::literal_value(s) == if lexer::digits_value(s, 10) <= i64::MAX {
            Some(lexer::digits_value(s, 10))
        } else {
            None
        },
        0 <= lexer::digits_value(s, 10),
{
    assert forall|i: int| 0 <= i < s.len() implies s[i] != '_' && s[i] != 'b' && s[i] != 'B' && s[i]
        != 'o' && s[i] != 'O' && s[i] != 'x' && s[i] != 'X' by {
        assert('0' <= s[i] <= '9');
    }
    nothing_underscored(s, s.len() as int);
    assert(s.subrange(0, s.len() as int) =~= s);
    assert(lexer::all_digits(s, 10)) by {
        assert forall|i: int| 0 <= i < s.len() implies lexer::char_digit(#[trigger] s[i], 10) by {
            assert('0' <= s[i] <= '9');
        }
    }
    assert('0' <= s[0] <= '9');
    value_is_positive(s);
}

proof fn value_is_positive(s: Seq<char>)
    ensures
        0 <= lexer::digits_value(s, 10),
    decreases s.len(),
{
    if s.len() > 0 {
        value_is_positive(s.drop_last());
    }
}

/// A decimal digit is worth its place after `0`; a digit behind others is worth itself, and the
/// others ten times what they were. What no `i64` holds is no integer.
pub proof fn decimals_are_worth_their_places(s: Seq<char>, c: char)
    requires
        '0' <= c <= '9',
        s.len() == 0 || decimals(s),
    ensures
        s.len() == 0 ==> lexer::literal_value(seq![c]) == Some(worth(c)),
        s.len() > 0 ==> lexer::literal_value(s.push(c)) == match lexer::literal_value(s) {
            Some(v) => if 10 * v + worth(c) <= i64::MAX {
                Some(10 * v + worth(c))
            } else {
                None
            },
            None => None,
        },
{
    let t = s.push(c);
    assert(decimals(t)) by {
        assert forall|i: int| 0 <= i < t.len() implies '0' <= #[trigger] t[i] <= '9' by {
            if i < s.len() {
                assert('0' <= s[i] <= '9');
            }
        }
    }
    value_of_decimals(t);
    assert(t.drop_last() =~= s);
    if s.len() > 0 {
        value_of_decimals(s);
    } else {
        assert(t =~= seq![c]);
        reveal_with_fuel(lexer::digits_value, 2);
    }
}

/// Underscores between the digits of a decimal integer change nothing.
pub proof fn underscores_change_nothing(s: Seq<char>, t: Seq<char>)
    requires
        decimals(s),
        decimals(t),
    ensures
        lexer::literal_value(s + seq!['_'] + t) == lexer::literal_value(s + t),
{
    let x = s + seq!['_'] + t;
    let y = s + t;
    assert forall|i: int| 0 <= i < y.len() implies '0' <= #[trigger] y[i] <= '9' by {
        if i < s.len() {
            assert('0' <= s[i] <= '9');
        } else {
            assert('0' <= t[i - s.len()] <= '9');
        }
    }
    one_underscore(s, t, t.len() as int);
    assert(t.subrange(0, t.len() as int) =~= t);
    nothing_underscored(y, y.len() as int);
    assert(y.subrange(0, y.len() as int) =~= y);
    assert(x.subrange(0, x.len() as int) =~= x);
    assert('0' <= s[0] <= '9' && x[0] == s[0] && y[0] == s[0]);
    if s.len() > 1 {
        assert('0' <= s[1] <= '9' && x[1] == s[1]);
    } else {
        assert(x[1] == '_');
    }
    assert('0' <= y[1] <= '9');
}

proof fn one_underscore(s: Seq<char>, t: Seq<char>, n: int)
    requires
        decimals(s),
        decimals(t),
        0 <= n <= t.len(),
    ensures
        lexer::no_underscores(s + seq!['_'] + t, s.len() + 1 + n) == s + t.subrange(0, n),
    decreases n,
{
    let x = s + seq!['_'] + t;
    if n > 0 {
        one_underscore(s, t, n - 1);
        assert('0' <= t[n - 1] <= '9');
        assert(x[s.len() + n] == t[n - 1]);
        assert(s + t.subrange(0, n) =~= (s + t.subrange(0, n - 1)).push(t[n - 1]));
    } else {
        assert(x[s.len() as int] == '_');
        before_underscore(s, t, s.len() as int);
        assert(s.subrange(0, s.len() as int) =~= s);
        assert(s + t.subrange(0, 0) =~= s);
    }
}

proof fn before_underscore(s: Seq<char>, t: Seq<char>, n: int)
    requires
        decimals(s),
        0 <= n <= s.len(),
    ensures
        lexer::no_underscores(s + seq!['_'] + t, n) == s.subrange(0, n),
    decreases n,
{
    let x = s + seq!['_'] + t;
    if n > 0 {
        before_underscore(s, t, n - 1);
        assert('0' <= s[n - 1] <= '9');
        assert(x[n - 1] == s[n - 1]);
        assert(s.subrange(0, n) =~= s.subrange(0, n - 1).push(s[n - 1]));
    } else {
        assert(s.subrange(0, 0) =~= Seq::empty());
    }
}

/// Behind `0x`, `0o` and `0b` the digits count sixteen, eight and two.
pub proof fn a_prefix_sets_the_radix(c: char, s: Seq<char>, radix: int)
    requires
        (radix == 16 && (c == 'x' || c == 'X')) || (radix == 8 && (c == 'o' || c == 'O')) || (radix
            == 2 && (c == 'b' || c == 'B')),
        s.len() > 0,
        forall|i: int| 0 <= i < s.len() ==> lexer::char_digit(#[trigger] s[i], radix),
        lexer::digits_value(s, radix) <= i64::MAX,
    ensures
        lexer::literal_value(seq!['0', c] + s) == Some(lexer::digits_value(s, radix)),
{
    let x = seq!['0', c] + s;
    assert(x[0] == '0' && x[1] == c);
    assert(x.subrange(2, x.len() as int) =~= s);
    assert forall|i: int| 0 <= i < s.len() implies s[i] != '_' by {
        assert(lexer::char_digit(s[i], radix));
    }
    nothing_underscored(s, s.len() as int);
    assert(s.subrange(0, s.len() as int) =~= s);
    assert(lexer::char_digit(s[0], radix));
    radix_value_is_positive(s, radix);
}

proof fn radix_value_is_positive(s: Seq<char>, radix: int)
    requires
        radix > 0,
    ensures
        0 <= lexer::digits_value(s, radix),
    decreases s.len(),
{
    if s.len() > 0 {
        radix_value_is_positive(s.drop_last(), radix);
        let v = lexer::digits_value(s.drop_last(), radix);
        assert(0 <= v * radix) by (nonlinear_arith)
            requires
                0 <= v,
                0 < radix,
        ;
    }
}

/// The hexadecimal digits, in both cases, are worth nought to fifteen.
pub proof fn hexadecimal_digits(c: char)
    ensures
        '0' <= c <= '9' ==> text::hex_digit(c) == Some(worth(c)),
        'a' <= c <= 'f' ==> text::hex_digit(c) == Some(c as int - 'a' as int + 10),
        'A' <= c <= 'F' ==> text::hex_digit(c) == Some(c as int - 'A' as int + 10),
        !('0' <= c <= '9') && !('a' <= c <= 'f') && !('A' <= c <= 'F') ==> text::hex_digit(c)
            is None,
{
}

// ------------------------------------------------------------------ strings

/// What a backslash and one character stand for.
pub open spec fn escape(c: char, r: char) -> bool {
    ||| c == 'n' && r == '\n'
    ||| c == 't' && r == '\t'
    ||| c == 'r' && r == '\r'
    ||| c == 'a' && r == '\u{7}'
    ||| c == 'b' && r == '\u{8}'
    ||| c == 'f' && r == '\u{c}'
    ||| c == 'v' && r == '\u{b}'
    ||| c == '\\' && r == '\\'
    ||| c == '\'' && r == '\''
    ||| c == '"' && r == '"'
}

/// Does the text hold neither a backslash nor a carriage return?
pub open spec fn unescaped(s: Seq<char>) -> bool {
    forall|k: int| 0 <= k < s.len() ==> s[k] != '\\' && #[trigger] s[k] != '\r'
}

proof fn plain_run(s: Seq<char>, i: int, j: int, out: Seq<char>)
    requires
        0 <= i <= j <= s.len(),
        forall|k: int| i <= k < j ==> s[k] != '\\' && #[trigger] s[k] != '\r',
    ensures
        lexer::decode_body(s, i, out) == lexer::decode_body(s, j, out + s.subrange(i, j)),
    decreases j - i,
{
    if i < j {
        assert(s[i] != '\r');
        plain_run(s, i + 1, j, out.push(s[i]));
        assert(out.push(s[i]) + s.subrange(i + 1, j) =~= out + s.subrange(i, j));
    } else {
        assert(out + s.subrange(i, j) =~= out);
    }
}

/// An escape between plain texts stands for its character, and the texts for themselves.
pub proof fn an_escape_stands_for_its_character(
    a: Seq<char>,
    c: char,
    r: char,
    b: Seq<char>,
)
    requires
        unescaped(a),
        unescaped(b),
        escape(c, r),
    ensures
        lexer::decode_body(a + seq!['\\', c] + b, 0, Seq::empty()) == Ok::<Seq<char>, Seq<char>>(
            a.push(r) + b,
        ),
{
    let s = a + seq!['\\', c] + b;
    let n = a.len() as int;
    assert(s[n] == '\\' && s[n + 1] == c);
    assert forall|k: int| 0 <= k < n implies s[k] != '\\' && #[trigger] s[k] != '\r' by {
        assert(s[k] == a[k]);
    }
    plain_run(s, 0, n, Seq::empty());
    assert(Seq::<char>::empty() + s.subrange(0, n) =~= a);
    assert forall|k: int| n + 2 <= k < s.len() implies s[k] != '\\' && #[trigger] s[k] != '\r' by {
        assert(s[k] == b[k - n - 2]);
    }
    plain_run(s, n + 2, s.len() as int, a.push(r));
    assert(s.subrange(n + 2, s.len() as int) =~= b);
}

/// A backslash before any other letter stays, and so does the letter.
pub proof fn an_unknown_escape_stays(a: Seq<char>, c: char, b: Seq<char>)
    requires
        unescaped(a),
        unescaped(b),
        forall|r: char| !escape(c, r),
        !('0' <= c <= '7'),
        c != 'x' && c != 'u' && c != 'U' && c != 'N' && c != '\n' && c != '\r',
    ensures
        lexer::decode_body(a + seq!['\\', c] + b, 0, Seq::empty()) == Ok::<Seq<char>, Seq<char>>(
            a + seq!['\\', c] + b,
        ),
{
    let s = a + seq!['\\', c] + b;
    let n = a.len() as int;
    assert(s[n] == '\\' && s[n + 1] == c);
    assert(!escape(c, '\n') && !escape(c, '\t') && !escape(c, '\r') && !escape(c, '\u{7}'));
    assert(!escape(c, '\u{8}') && !escape(c, '\u{c}') && !escape(c, '\u{b}') && !escape(c, c));
    assert forall|k: int| 0 <= k < n implies s[k] != '\\' && #[trigger] s[k] != '\r' by {
        assert(s[k] == a[k]);
    }
    plain_run(s, 0, n, Seq::empty());
    assert(Seq::<char>::empty() + s.subrange(0, n) =~= a);
    assert forall|k: int| n + 2 <= k < s.len() implies s[k] != '\\' && #[trigger] s[k] != '\r' by {
        assert(s[k] == b[k - n - 2]);
    }
    plain_run(s, n + 2, s.len() as int, a.push('\\').push(c));
    assert(a.push('\\').push(c) + s.subrange(n + 2, s.len() as int) =~= s);
}

} // verus!
