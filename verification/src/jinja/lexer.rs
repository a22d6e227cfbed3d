//! The Jinja expression tokeniser: everything inside `{{ }}` or `{% %}` once the delimiter has
//! been consumed.
//!
//! The order of the rules is load-bearing: whitespace, **float, integer**, name, string,
//! operator. Float before integer is what makes `1.5` one token; integer before name is what
//! makes `0b2` an integer `0` followed by the name `b2`.
//!
//! A [`Token`] carries a span, not a value. [`int_value`] and [`string_value`] decode it, so a bad
//! escape is an error of [`string_value`] rather than of [`tokens`]. Identifiers are
//! XID_Start/XID_Continue, by `unicode-ident`.

use crate::parse::{self, Span};
use crate::text::{self, char_at, hex_digit_value, plain_escape, to_chars};
use vstd::prelude::*;
use vstd::utf8::*;

verus! {

/// Every token an expression can hold.
#[derive(Debug, Clone, Copy, PartialEq, Eq, Structural)]
pub enum Kind {
    Name,
    Str,
    Int,
    Float,
    // Arithmetic.
    Add,
    Sub,
    Mul,
    Div,
    FloorDiv,
    Mod,
    Pow,
    Tilde,
    // Comparison. `!` alone is not an operator in Jinja: only `!=` is.
    Eq,
    Ne,
    Gt,
    Gteq,
    Lt,
    Lteq,
    Assign,
    // Punctuation.
    Dot,
    Comma,
    Colon,
    Semicolon,
    Pipe,
    Lparen,
    Rparen,
    Lbracket,
    Rbracket,
    Lbrace,
    Rbrace,
    /// Never produced by a rule; appended once so that a parser always has something to look at.
    Eof,
}

/// The name of a kind of tokens, for messages.
pub open spec fn kind_name(kind: Kind) -> Seq<char> {
    match kind {
        Kind::Name => "Name"@,
        Kind::Str => "Str"@,
        Kind::Int => "Int"@,
        Kind::Float => "Float"@,
        Kind::Add => "Add"@,
        Kind::Sub => "Sub"@,
        Kind::Mul => "Mul"@,
        Kind::Div => "Div"@,
        Kind::FloorDiv => "FloorDiv"@,
        Kind::Mod => "Mod"@,
        Kind::Pow => "Pow"@,
        Kind::Tilde => "Tilde"@,
        Kind::Eq => "Eq"@,
        Kind::Ne => "Ne"@,
        Kind::Gt => "Gt"@,
        Kind::Gteq => "Gteq"@,
        Kind::Lt => "Lt"@,
        Kind::Lteq => "Lteq"@,
        Kind::Assign => "Assign"@,
        Kind::Dot => "Dot"@,
        Kind::Comma => "Comma"@,
        Kind::Colon => "Colon"@,
        Kind::Semicolon => "Semicolon"@,
        Kind::Pipe => "Pipe"@,
        Kind::Lparen => "Lparen"@,
        Kind::Rparen => "Rparen"@,
        Kind::Lbracket => "Lbracket"@,
        Kind::Rbracket => "Rbracket"@,
        Kind::Lbrace => "Lbrace"@,
        Kind::Rbrace => "Rbrace"@,
        Kind::Eof => "Eof"@,
    }
}

/// The name of a kind of tokens, for messages.
pub fn kind_text(kind: Kind) -> (r: &'static str)
    ensures
        r@ == kind_name(kind),
{
    match kind {
        Kind::Name => "Name",
        Kind::Str => "Str",
        Kind::Int => "Int",
        Kind::Float => "Float",
        Kind::Add => "Add",
        Kind::Sub => "Sub",
        Kind::Mul => "Mul",
        Kind::Div => "Div",
        Kind::FloorDiv => "FloorDiv",
        Kind::Mod => "Mod",
        Kind::Pow => "Pow",
        Kind::Tilde => "Tilde",
        Kind::Eq => "Eq",
        Kind::Ne => "Ne",
        Kind::Gt => "Gt",
        Kind::Gteq => "Gteq",
        Kind::Lt => "Lt",
        Kind::Lteq => "Lteq",
        Kind::Assign => "Assign",
        Kind::Dot => "Dot",
        Kind::Comma => "Comma",
        Kind::Colon => "Colon",
        Kind::Semicolon => "Semicolon",
        Kind::Pipe => "Pipe",
        Kind::Lparen => "Lparen",
        Kind::Rparen => "Rparen",
        Kind::Lbracket => "Lbracket",
        Kind::Rbracket => "Rbracket",
        Kind::Lbrace => "Lbrace",
        Kind::Rbrace => "Rbrace",
        Kind::Eof => "Eof",
    }
}

#[derive(Debug, Clone, Copy, PartialEq, Eq, Structural)]
pub struct Token {
    pub kind: Kind,
    pub span: Span,
}

/// Which stage refused.
#[derive(Debug, Clone, Copy, PartialEq, Eq, Structural)]
pub enum Cause {
    /// The tokeniser, or a literal that does not decode.
    Lex,
    /// The parser, at the end of the input.
    Eof,
    /// The parser, on a token.
    Parse,
    /// Something stands behind a whole expression.
    Trailing,
    /// The expression nests too deeply.
    Depth,
}

/// A refusal, with the range to underline.
#[derive(Debug, Clone, PartialEq, Eq)]
pub struct Error {
    pub msg: String,
    pub span: Span,
    pub cause: Cause,
}

/// What an [`Error`] says.
pub struct ErrorModel {
    pub msg: Seq<char>,
    pub span: Span,
    pub cause: Cause,
}

impl Error {
    pub open spec fn view(&self) -> ErrorModel {
        ErrorModel { msg: self.msg@, span: self.span, cause: self.cause }
    }
}

/// `{:?}` of a character.
pub uninterp spec fn char_debug(c: char) -> Seq<char>;

/// The `Debug` form of `char`: the character in single quotes, escaped where it needs to be. What
/// exactly is escaped goes by std's tables and is not stated.
#[verifier::external_body]
fn debug_of(c: char) -> (r: String)
    ensures
        r@ == char_debug(c),
{
    format!("{:?}", c)
}

/// The Unicode property XID_Start.
pub uninterp spec fn xid_start(c: char) -> bool;

/// The Unicode property XID_Continue.
pub uninterp spec fn xid_continue(c: char) -> bool;

pub open spec fn ascii_letter(c: char) -> bool {
    'a' <= c <= 'z' || 'A' <= c <= 'Z'
}

pub open spec fn ascii_digit(c: char) -> bool {
    '0' <= c <= '9'
}

/// `unicode_ident::is_xid_start`: the property XID_Start, which among the ASCII characters the
/// letters have.
#[verifier::external_body]
fn is_xid_start(c: char) -> (r: bool)
    ensures
        r == xid_start(c),
        c < '\u{80}' ==> r == ascii_letter(c),
{
    unicode_ident::is_xid_start(c)
}

/// `unicode_ident::is_xid_continue`: the property XID_Continue, which among the ASCII characters
/// the letters, the digits and the underscore have.
#[verifier::external_body]
fn is_xid_continue(c: char) -> (r: bool)
    ensures
        r == xid_continue(c),
        c < '\u{80}' ==> r == (ascii_letter(c) || ascii_digit(c) || c == '_'),
{
    unicode_ident::is_xid_continue(c)
}

/// Space, tab, line feed, form feed and carriage return.
pub open spec fn blank(c: u8) -> bool {
    c == 32 || c == 9 || c == 10 || c == 12 || c == 13
}

/// Is the byte a digit in this radix, which is at most 16?
pub open spec fn digit(c: u8, radix: int) -> bool {
    match text::hex_digit(c as char) {
        Some(d) => d < radix,
        None => false,
    }
}

/// The end of a run of digits that single underscores may join, from `i` on.
pub open spec fn digits_from(b: Seq<u8>, i: int, radix: int) -> int
    decreases b.len() - i,
{
    if i < 0 || i >= b.len() {
        i
    } else if digit(b[i], radix) {
        digits_from(b, i + 1, radix)
    } else if b[i] == 95 && i + 1 < b.len() && digit(b[i + 1], radix) {
        digits_from(b, i + 2, radix)
    } else {
        i
    }
}

/// The end of the run of digits that begins at `i`, where a digit stands there. `1_0` is one run;
/// `1__0` stops after the `1`.
pub open spec fn run_of_digits(b: Seq<u8>, i: int, radix: int) -> Option<int> {
    if 0 <= i < b.len() && digit(b[i], radix) {
        Some(digits_from(b, i, radix))
    } else {
        None
    }
}

/// The end of the digits behind a radix prefix: each may have one underscore before it.
pub open spec fn prefixed_digits(b: Seq<u8>, j: int, radix: int) -> int
    decreases b.len() - j,
{
    if j < 0 || j >= b.len() {
        j
    } else {
        let d = if b[j] == 95 {
            j + 1
        } else {
            j
        };
        if d < b.len() && digit(b[d], radix) {
            prefixed_digits(b, d + 1, radix)
        } else {
            j
        }
    }
}

/// The radix that the letter behind a `0` announces.
pub open spec fn radix_of(c: u8) -> Option<int> {
    if c == 98 || c == 66 {
        Some(2)
    } else if c == 111 || c == 79 {
        Some(8)
    } else if c == 120 || c == 88 {
        Some(16)
    } else {
        None
    }
}

/// The end of the integer at `i`. A leading zero takes the run of zeros and stops, so `007` is
/// `00` and then `7`; a prefix without a digit behind it is no prefix, so `0b2` is `0` and a name.
pub open spec fn int_end(b: Seq<u8>, i: int) -> Option<int> {
    if i < 0 || i >= b.len() {
        None
    } else {
        let radix = if b[i] == 48 && i + 1 < b.len() {
            radix_of(b[i + 1])
        } else {
            None
        };
        if radix is Some && prefixed_digits(b, i + 2, radix->0) > i + 2 {
            Some(prefixed_digits(b, i + 2, radix->0))
        } else if 49 <= b[i] <= 57 {
            run_of_digits(b, i, 10)
        } else if b[i] == 48 {
            Some(prefixed_digits(b, i + 1, 1))
        } else {
            None
        }
    }
}

/// The end of an exponent that begins at `j`.
pub open spec fn exponent_end(b: Seq<u8>, j: int) -> Option<int> {
    if 0 <= j < b.len() && (b[j] == 101 || b[j] == 69) {
        let k = if j + 1 < b.len() && (b[j + 1] == 43 || b[j + 1] == 45) {
            j + 2
        } else {
            j + 1
        };
        run_of_digits(b, k, 10)
    } else {
        None
    }
}

/// The end of a fraction that begins at `j`.
pub open spec fn fraction_end(b: Seq<u8>, j: int) -> Option<int> {
    if 0 <= j < b.len() && b[j] == 46 {
        run_of_digits(b, j + 1, 10)
    } else {
        None
    }
}

/// The end of the float at `i`: digits with an exponent behind them, a fraction between them or
/// not, or else with a fraction. Directly behind a dot there is no float.
pub open spec fn float_end(b: Seq<u8>, i: int) -> Option<int> {
    if i > 0 && i <= b.len() && b[i - 1] == 46 {
        None
    } else {
        match run_of_digits(b, i, 10) {
            None => None,
            Some(whole) => {
                let fraction = fraction_end(b, whole);
                let both = match fraction {
                    Some(f) => exponent_end(b, f),
                    None => None,
                };
                if both is Some {
                    both
                } else if exponent_end(b, whole) is Some {
                    exponent_end(b, whole)
                } else {
                    fraction
                }
            },
        }
    }
}

/// The end of the characters that go on an identifier, from `j` on.
pub open spec fn name_rest(b: Seq<u8>, j: int) -> int
    decreases b.len() - j,
{
    match text::char_from(b, j) {
        Some((c, w)) => if xid_continue(c) && w > 0 && j + w <= b.len() {
            name_rest(b, j + w)
        } else {
            j
        },
        None => j,
    }
}

/// The end of the name at `i`.
pub open spec fn name_end(b: Seq<u8>, i: int) -> Option<int> {
    match text::char_from(b, i) {
        Some((c, w)) => if xid_start(c) || c == '_' {
            Some(name_rest(b, i + w))
        } else {
            None
        },
        None => None,
    }
}

/// The end of a string with this quote, of which `j` is an inner byte. A backslash takes the byte
/// behind it along, whatever it is.
pub open spec fn closing_quote(b: Seq<u8>, quote: u8, j: int) -> Option<int>
    decreases b.len() + 2 - j,
{
    if j < 0 || j >= b.len() {
        None
    } else if b[j] == 92 {
        closing_quote(b, quote, j + 2)
    } else if b[j] == quote {
        Some(j + 1)
    } else {
        closing_quote(b, quote, j + 1)
    }
}

/// The end of the string at `i`. An unterminated quote is no string.
pub open spec fn string_end(b: Seq<u8>, i: int) -> Option<int> {
    if 0 <= i < b.len() && (b[i] == 39 || b[i] == 34) {
        closing_quote(b, b[i], i + 1)
    } else {
        None
    }
}

/// The operator of two bytes.
pub open spec fn double_operator(c: u8, d: u8) -> Option<Kind> {
    if c == 47 && d == 47 {
        Some(Kind::FloorDiv)
    } else if c == 42 && d == 42 {
        Some(Kind::Pow)
    } else if c == 61 && d == 61 {
        Some(Kind::Eq)
    } else if c == 33 && d == 61 {
        Some(Kind::Ne)
    } else if c == 62 && d == 61 {
        Some(Kind::Gteq)
    } else if c == 60 && d == 61 {
        Some(Kind::Lteq)
    } else {
        None
    }
}

/// The operator of one byte.
pub open spec fn single_operator(c: u8) -> Option<Kind> {
    if c == 43 {
        Some(Kind::Add)
    } else if c == 45 {
        Some(Kind::Sub)
    } else if c == 47 {
        Some(Kind::Div)
    } else if c == 42 {
        Some(Kind::Mul)
    } else if c == 37 {
        Some(Kind::Mod)
    } else if c == 126 {
        Some(Kind::Tilde)
    } else if c == 91 {
        Some(Kind::Lbracket)
    } else if c == 93 {
        Some(Kind::Rbracket)
    } else if c == 40 {
        Some(Kind::Lparen)
    } else if c == 41 {
        Some(Kind::Rparen)
    } else if c == 123 {
        Some(Kind::Lbrace)
    } else if c == 125 {
        Some(Kind::Rbrace)
    } else if c == 62 {
        Some(Kind::Gt)
    } else if c == 60 {
        Some(Kind::Lt)
    } else if c == 61 {
        Some(Kind::Assign)
    } else if c == 46 {
        Some(Kind::Dot)
    } else if c == 58 {
        Some(Kind::Colon)
    } else if c == 124 {
        Some(Kind::Pipe)
    } else if c == 44 {
        Some(Kind::Comma)
    } else if c == 59 {
        Some(Kind::Semicolon)
    } else {
        None
    }
}

/// The operator at `i` and its end. The longer one wins, so `//` is never two `/`.
pub open spec fn operator_at(b: Seq<u8>, i: int) -> Option<(Kind, int)> {
    if i < 0 || i >= b.len() {
        None
    } else if i + 1 < b.len() && double_operator(b[i], b[i + 1]) is Some {
        Some((double_operator(b[i], b[i + 1])->0, i + 2))
    } else {
        match single_operator(b[i]) {
            Some(kind) => Some((kind, i + 1)),
            None => None,
        }
    }
}

/// The token at `i`, by the first rule that applies, and its end.
pub open spec fn lexeme(b: Seq<u8>, i: int) -> Option<(Kind, int)> {
    if float_end(b, i) is Some {
        Some((Kind::Float, float_end(b, i)->0))
    } else if int_end(b, i) is Some {
        Some((Kind::Int, int_end(b, i)->0))
    } else if name_end(b, i) is Some {
        Some((Kind::Name, name_end(b, i)->0))
    } else if string_end(b, i) is Some {
        Some((Kind::Str, string_end(b, i)->0))
    } else {
        operator_at(b, i)
    }
}

pub open spec fn token(kind: Kind, start: int, end: int) -> Token {
    Token { kind, span: Span { start: start as usize, end: end as usize } }
}

/// The refusal of the character at `i`.
pub open spec fn unexpected(b: Seq<u8>, i: int) -> ErrorModel {
    let (c, w) = match text::char_from(b, i) {
        Some((c, w)) => (c, w),
        None => ('\u{fffd}', 1),
    };
    ErrorModel {
        msg: "unexpected char "@ + char_debug(c),
        span: Span { start: i as usize, end: (i + w) as usize },
        cause: Cause::Lex,
    }
}

/// The tokens from byte `i` on, behind those in `acc`.
pub open spec fn lex_from(b: Seq<u8>, i: int, acc: Seq<Token>) -> Result<Seq<Token>, ErrorModel>
    decreases b.len() - i,
{
    if i < 0 || i >= b.len() {
        Ok(acc.push(token(Kind::Eof, b.len() as int, b.len() as int)))
    } else if blank(b[i]) {
        lex_from(b, i + 1, acc)
    } else {
        match lexeme(b, i) {
            Some((kind, end)) => if i < end <= b.len() {
                lex_from(b, end, acc.push(token(kind, i, end)))
            } else {
                Err(unexpected(b, i))
            },
            None => Err(unexpected(b, i)),
        }
    }
}

/// The tokens of an expression.
pub open spec fn lexed(src: Seq<char>) -> Result<Seq<Token>, ErrorModel> {
    lex_from(encode_utf8(src), 0, Seq::empty())
}

pub fn is_blank(c: u8) -> (r: bool)
    ensures
        r == blank(c),
{
    c == 32 || c == 9 || c == 10 || c == 12 || c == 13
}

fn is_digit(c: u8, radix: u32) -> (r: bool)
    ensures
        r == digit(c, radix as int),
{
    match hex_digit_value(c as char) {
        Some(d) => d < radix,
        None => false,
    }
}

fn digit_run(b: &[u8], i: usize, radix: u32) -> (r: Option<usize>)
    ensures
        r is Some == run_of_digits(b@, i as int, radix as int) is Some,
        r is Some ==> run_of_digits(b@, i as int, radix as int) == Some(r->0 as int) && i < r->0
            <= b@.len(),
{
    let n: usize = b.len();
    if i >= n || !is_digit(b[i], radix) {
        return None;
    }
    let mut j: usize = i;
    let mut going = true;
    while going
        invariant
            n == b@.len(),
            i <= j <= n,
            i < n,
            digit(b@[i as int], radix as int),
            !going ==> i < j,
            digits_from(b@, i as int, radix as int) == if going {
                digits_from(b@, j as int, radix as int)
            } else {
                j as int
            },
        decreases n - j, (if going { 1int } else { 0int }),
    {
        if j < n && is_digit(b[j], radix) {
            j += 1;
        } else if j < n && b[j] == 95 && n - j > 1 && is_digit(b[j + 1], radix) {
            j += 2;
        } else {
            going = false;
        }
    }
    Some(j)
}

fn digits_behind(b: &[u8], i: usize, radix: u32) -> (r: usize)
    requires
        i <= b@.len(),
    ensures
        r == prefixed_digits(b@, i as int, radix as int),
        i <= r <= b@.len(),
{
    let n: usize = b.len();
    let mut j: usize = i;
    let mut going = true;
    while going
        invariant
            n == b@.len(),
            i <= j <= n,
            prefixed_digits(b@, i as int, radix as int) == if going {
                prefixed_digits(b@, j as int, radix as int)
            } else {
                j as int
            },
        decreases n - j, (if going { 1int } else { 0int }),
    {
        if j >= n {
            going = false;
        } else {
            let d: usize = if b[j] == 95 {
                j + 1
            } else {
                j
            };
            if d < n && is_digit(b[d], radix) {
                j = d + 1;
            } else {
                going = false;
            }
        }
    }
    j
}

/// The end of the integer at `i`.
pub fn scan_int(b: &[u8], i: usize) -> (r: Option<usize>)
    ensures
        r is Some == int_end(b@, i as int) is Some,
        r is Some ==> int_end(b@, i as int) == Some(r->0 as int) && i < r->0 <= b@.len(),
{
    let n: usize = b.len();
    if i >= n {
        return None;
    }
    if b[i] == 48 && n - i > 1 {
        let c = b[i + 1];
        let radix: u32 = if c == 98 || c == 66 {
            2
        } else if c == 111 || c == 79 {
            8
        } else if c == 120 || c == 88 {
            16
        } else {
            0
        };
        if radix > 0 {
            let j = digits_behind(b, i + 2, radix);
            if j > i + 2 {
                return Some(j);
            }
        }
    }
    if 49 <= b[i] && b[i] <= 57 {
        digit_run(b, i, 10)
    } else if b[i] == 48 {
        Some(digits_behind(b, i + 1, 1))
    } else {
        None
    }
}

fn scan_exponent(b: &[u8], j: usize) -> (r: Option<usize>)
    ensures
        r is Some == exponent_end(b@, j as int) is Some,
        r is Some ==> exponent_end(b@, j as int) == Some(r->0 as int) && j < r->0 <= b@.len(),
{
    let n: usize = b.len();
    if j >= n || (b[j] != 101 && b[j] != 69) {
        return None;
    }
    let k: usize = if n - j > 1 && (b[j + 1] == 43 || b[j + 1] == 45) {
        j + 2
    } else {
        j + 1
    };
    digit_run(b, k, 10)
}

fn scan_fraction(b: &[u8], j: usize) -> (r: Option<usize>)
    ensures
        r is Some == fraction_end(b@, j as int) is Some,
        r is Some ==> fraction_end(b@, j as int) == Some(r->0 as int) && j < r->0 <= b@.len(),
{
    let n: usize = b.len();
    if j < n && b[j] == 46 {
        digit_run(b, j + 1, 10)
    } else {
        None
    }
}

/// The end of the float at `i`.
pub fn scan_float(b: &[u8], i: usize) -> (r: Option<usize>)
    ensures
        r is Some == float_end(b@, i as int) is Some,
        r is Some ==> float_end(b@, i as int) == Some(r->0 as int) && i < r->0 <= b@.len(),
{
    let n: usize = b.len();
    if i > 0 && i <= n && b[i - 1] == 46 {
        return None;
    }
    let whole = match digit_run(b, i, 10) {
        Some(end) => end,
        None => return None,
    };
    let fraction = scan_fraction(b, whole);
    if let Some(f) = fraction {
        if let Some(end) = scan_exponent(b, f) {
            return Some(end);
        }
    }
    if let Some(end) = scan_exponent(b, whole) {
        return Some(end);
    }
    fraction
}

/// Reachable only when neither number rule matched, so a leading digit never arrives here.
pub fn scan_name(b: &[u8], i: usize) -> (r: Option<usize>)
    ensures
        r is Some == name_end(b@, i as int) is Some,
        r is Some ==> name_end(b@, i as int) == Some(r->0 as int) && i < r->0 <= b@.len(),
{
    let n: usize = b.len();
    let (first, w) = match char_at(b, i) {
        Some(cw) => cw,
        None => return None,
    };
    if !(is_xid_start(first) || first == '_') {
        return None;
    }
    let mut end: usize = i + w;
    let ghost from = i + w;
    let mut going = true;
    while going
        invariant
            n == b@.len(),
            i < end <= n,
            name_rest(b@, from) == if going {
                name_rest(b@, end as int)
            } else {
                end as int
            },
        decreases n - end, (if going { 1int } else { 0int }),
    {
        match char_at(b, end) {
            Some((c, w)) => {
                if is_xid_continue(c) {
                    end = end + w;
                } else {
                    going = false;
                }
            },
            None => {
                going = false;
            },
        }
    }
    Some(end)
}

/// The end of the string at `i`, behind its closing quote.
pub fn scan_string(b: &[u8], i: usize) -> (r: Option<usize>)
    ensures
        r is Some == string_end(b@, i as int) is Some,
        r is Some ==> string_end(b@, i as int) == Some(r->0 as int) && i + 2 <= r->0 <= b@.len()
            && b@[i as int] < 0x80 && b@[r->0 - 1] < 0x80,
{
    let n: usize = b.len();
    if i >= n || (b[i] != 39 && b[i] != 34) {
        return None;
    }
    let quote = b[i];
    let mut j: usize = i + 1;
    while j < n
        invariant
            n == b@.len(),
            i < j,
            i < n,
            quote == b@[i as int],
            quote == 39 || quote == 34,
            closing_quote(b@, quote, i + 1) == closing_quote(b@, quote, j as int),
        decreases n - j,
    {
        if b[j] == 92 {
            if n - j <= 2 {
                assert(closing_quote(b@, quote, j + 2) is None);
                return None;
            }
            j += 2;
        } else if b[j] == quote {
            return Some(j + 1);
        } else {
            j += 1;
        }
    }
    None
}

/// The operator at `i`, and its end.
pub fn scan_operator(b: &[u8], i: usize) -> (r: Option<(Kind, usize)>)
    ensures
        r is Some == operator_at(b@, i as int) is Some,
        r is Some ==> operator_at(b@, i as int) == Some(((r->0).0, (r->0).1 as int)) && i < (
        r->0).1 <= b@.len() && (r->0).0 != Kind::Str,
{
    let n: usize = b.len();
    if i >= n {
        return None;
    }
    let c = b[i];
    if n - i > 1 {
        let d = b[i + 1];
        let long = if c == 47 && d == 47 {
            Some(Kind::FloorDiv)
        } else if c == 42 && d == 42 {
            Some(Kind::Pow)
        } else if c == 61 && d == 61 {
            Some(Kind::Eq)
        } else if c == 33 && d == 61 {
            Some(Kind::Ne)
        } else if c == 62 && d == 61 {
            Some(Kind::Gteq)
        } else if c == 60 && d == 61 {
            Some(Kind::Lteq)
        } else {
            None
        };
        if let Some(kind) = long {
            return Some((kind, i + 2));
        }
    }
    let kind = match c {
        43 => Kind::Add,
        45 => Kind::Sub,
        47 => Kind::Div,
        42 => Kind::Mul,
        37 => Kind::Mod,
        126 => Kind::Tilde,
        91 => Kind::Lbracket,
        93 => Kind::Rbracket,
        40 => Kind::Lparen,
        41 => Kind::Rparen,
        123 => Kind::Lbrace,
        125 => Kind::Rbrace,
        62 => Kind::Gt,
        60 => Kind::Lt,
        61 => Kind::Assign,
        46 => Kind::Dot,
        58 => Kind::Colon,
        124 => Kind::Pipe,
        44 => Kind::Comma,
        59 => Kind::Semicolon,
        _ => return None,
    };
    Some((kind, i + 1))
}

/// Does the span lie in the text, with an ASCII character at either end of it?
pub open spec fn ascii_ends(b: Seq<u8>, span: Span) -> bool {
    &&& span.start + 2 <= span.end <= b.len()
    &&& b[span.start as int] < 0x80
    &&& b[span.end - 1] < 0x80
}

/// Does the token lie in the text, and does a string have its quotes?
pub open spec fn token_ok(b: Seq<u8>, t: Token) -> bool {
    &&& t.span.start <= t.span.end <= b.len()
    &&& t.kind == Kind::Str ==> ascii_ends(b, t.span)
}

/// Tokens of a text, in order, none of them empty but the last one, which alone is the end.
pub open spec fn tokens_ok(b: Seq<u8>, toks: Seq<Token>) -> bool {
    &&& toks.len() > 0
    &&& toks.last().kind == Kind::Eof
    &&& forall|i: int| 0 <= i < toks.len() ==> token_ok(b, #[trigger] toks[i])
    &&& forall|i: int| 0 <= i < toks.len() - 1 ==> (#[trigger] toks[i]).kind != Kind::Eof
    &&& forall|i: int|
        0 <= i < toks.len() - 1 ==> (#[trigger] toks[i]).span.start < toks[i].span.end
    &&& forall|i: int, j: int|
        0 <= i < j < toks.len() ==> (#[trigger] toks[i]).span.end <= (#[trigger] toks[j]).span.start
}

fn scan_token(b: &[u8], i: usize) -> (r: Option<(Kind, usize)>)
    ensures
        r is Some == lexeme(b@, i as int) is Some,
        r is Some ==> lexeme(b@, i as int) == Some(((r->0).0, (r->0).1 as int)) && i < (r->0).1
            <= b@.len() && (r->0).0 != Kind::Eof && ((r->0).0 == Kind::Str ==> i + 2 <= (r->0).1
            && b@[i as int] < 0x80 && b@[(r->0).1 - 1] < 0x80),
{
    if let Some(end) = scan_float(b, i) {
        Some((Kind::Float, end))
    } else if let Some(end) = scan_int(b, i) {
        Some((Kind::Int, end))
    } else if let Some(end) = scan_name(b, i) {
        Some((Kind::Name, end))
    } else if let Some(end) = scan_string(b, i) {
        Some((Kind::Str, end))
    } else {
        scan_operator(b, i)
    }
}

/// Tokenise one expression. The result always ends with [`Kind::Eof`].
///
/// Whitespace is dropped, so `hosts|length>0` and `hosts | length > 0` have the same kinds.
pub fn tokens(src: &str) -> (r: Result<Vec<Token>, Error>)
    ensures
        match r {
            Ok(v) => lexed(src@) == Ok::<Seq<Token>, ErrorModel>(v@) && tokens_ok(
                encode_utf8(src@),
                v@,
            ),
            Err(e) => lexed(src@) == Err::<Seq<Token>, ErrorModel>(e.view()) && e.span.start
                <= e.span.end <= encode_utf8(src@).len(),
        },
{
    let b = src.as_bytes();
    let n: usize = b.len();
    let mut out: Vec<Token> = Vec::new();
    let mut i: usize = 0;
    while i < n
        invariant
            b@ == encode_utf8(src@),
            i <= n == b@.len(),
            lexed(src@) == lex_from(b@, i as int, out@),
            forall|k: int| 0 <= k < out@.len() ==> token_ok(b@, #[trigger] out@[k]),
            forall|k: int| 0 <= k < out@.len() ==> (#[trigger] out@[k]).kind != Kind::Eof,
            forall|k: int|
                0 <= k < out@.len() ==> (#[trigger] out@[k]).span.start < out@[k].span.end
                    && out@[k].span.end <= i,
            forall|k: int, m: int|
                0 <= k < m < out@.len() ==> (#[trigger] out@[k]).span.end <= (
                #[trigger] out@[m]).span.start,
        decreases n - i,
    {
        if is_blank(b[i]) {
            i += 1;
        } else {
            match scan_token(b, i) {
                Some((kind, end)) => {
                    out.push(Token { kind, span: Span { start: i, end } });
                    i = end;
                },
                None => {
                    let (c, w) = match char_at(b, i) {
                        Some((c, w)) => (c, w),
                        None => ('\u{fffd}', 1),
                    };
                    let mut msg = "unexpected char ".to_owned();
                    let shown = debug_of(c);
                    msg.append(shown.as_str());
                    return Err(
                        Error { msg, span: Span { start: i, end: i + w }, cause: Cause::Lex },
                    );
                },
            }
        }
    }
    out.push(Token { kind: Kind::Eof, span: Span { start: n, end: n } });
    Ok(out)
}

/// The number that digits spell in a radix; what is no digit counts as zero.
pub open spec fn digits_value(s: Seq<char>, radix: int) -> int
    decreases s.len(),
{
    if s.len() == 0 {
        0
    } else {
        digits_value(s.drop_last(), radix) * radix + match text::hex_digit(s.last()) {
            Some(d) => d,
            None => 0,
        }
    }
}

/// Is the character a digit in this radix?
pub open spec fn char_digit(c: char, radix: int) -> bool {
    match text::hex_digit(c) {
        Some(d) => d < radix,
        None => false,
    }
}

/// Nothing but digits, and at least one?
pub open spec fn all_digits(s: Seq<char>, radix: int) -> bool {
    s.len() > 0 && forall|i: int| 0 <= i < s.len() ==> char_digit(#[trigger] s[i], radix)
}

/// The number that a text spells in a radix, a sign before it or not, where an `i64` holds it.
pub open spec fn spelled(s: Seq<char>, radix: int) -> Option<int> {
    let signed = s.len() > 0 && (s[0] == '-' || s[0] == '+');
    let digits = if signed {
        s.subrange(1, s.len() as int)
    } else {
        s
    };
    let value = if signed && s[0] == '-' {
        -digits_value(digits, radix)
    } else {
        digits_value(digits, radix)
    };
    if all_digits(digits, radix) && i64::MIN <= value <= i64::MAX {
        Some(value)
    } else {
        None
    }
}

/// `s[..n]` without its underscores.
pub open spec fn no_underscores(s: Seq<char>, n: int) -> Seq<char>
    decreases n,
{
    if n <= 0 || n > s.len() {
        Seq::empty()
    } else if s[n - 1] == '_' {
        no_underscores(s, n - 1)
    } else {
        no_underscores(s, n - 1).push(s[n - 1])
    }
}

/// The radix that a literal is written in, and how many characters announce it.
pub open spec fn literal_radix(s: Seq<char>) -> (int, int) {
    if s.len() >= 2 && s[0] == '0' && (s[1] == 'b' || s[1] == 'B') {
        (2, 2)
    } else if s.len() >= 2 && s[0] == '0' && (s[1] == 'o' || s[1] == 'O') {
        (8, 2)
    } else if s.len() >= 2 && s[0] == '0' && (s[1] == 'x' || s[1] == 'X') {
        (16, 2)
    } else {
        (10, 0)
    }
}

/// The integer that a literal denotes, where an `i64` holds it.
pub open spec fn literal_value(s: Seq<char>) -> Option<int> {
    let (radix, skip) = literal_radix(s);
    let digits = s.subrange(skip, s.len() as int);
    spelled(no_underscores(digits, digits.len() as int), radix)
}

/// The text that a span covers.
pub open spec fn covered(src: Seq<char>, span: Span) -> Seq<char> {
    parse::text_between(src, span.start as int, span.end as int)
}

/// The integer at a span, or its refusal.
pub open spec fn int_at(src: Seq<char>, span: Span) -> Result<int, ErrorModel> {
    match literal_value(covered(src, span)) {
        Some(v) => Ok(v),
        None => Err(
            ErrorModel {
                msg: "integer literal out of range: "@ + covered(src, span),
                span,
                cause: Cause::Lex,
            },
        ),
    }
}

/// More digits spell no smaller a number.
proof fn digits_value_grows(s: Seq<char>, k: int, radix: int)
    requires
        0 <= k <= s.len(),
        1 <= radix,
    ensures
        0 <= digits_value(s.subrange(0, k), radix) <= digits_value(s, radix),
    decreases s.len(),
{
    if s.len() == 0 {
        assert(s.subrange(0, k) =~= s);
    } else if k == s.len() {
        assert(s.subrange(0, k) =~= s);
        digits_value_grows(s.drop_last(), 0, radix);
        let v = digits_value(s.drop_last(), radix);
        assert(0 <= v * radix) by (nonlinear_arith)
            requires
                0 <= v,
                1 <= radix,
        ;
    } else {
        digits_value_grows(s.drop_last(), k, radix);
        assert(s.drop_last().subrange(0, k) =~= s.subrange(0, k));
        let v = digits_value(s.drop_last(), radix);
        assert(v <= v * radix) by (nonlinear_arith)
            requires
                0 <= v,
                1 <= radix,
        ;
    }
}

/// The number that `v[from..]` spells in a radix, where it is at most 2^63.
pub fn magnitude(v: &[char], from: usize, radix: u32) -> (r: Option<u64>)
    requires
        from <= v@.len(),
        2 <= radix <= 16,
    ensures
        ({
            let s = v@.subrange(from as int, v@.len() as int);
            match r {
                Some(m) => all_digits(s, radix as int) && m == digits_value(s, radix as int),
                None => !all_digits(s, radix as int) || digits_value(s, radix as int)
                    > 0x8000_0000_0000_0000,
            }
        }),
        r is Some ==> r->0 <= 0x8000_0000_0000_0000,
{
    let n: usize = v.len();
    let ghost s = v@.subrange(from as int, n as int);
    if from >= n {
        return None;
    }
    let mut value: u128 = 0;
    let mut i: usize = from;
    assert(s.subrange(0, 0) =~= Seq::empty());
    while i < n
        invariant
            n == v@.len(),
            from <= i <= n,
            from < n,
            2 <= radix <= 16,
            s == v@.subrange(from as int, n as int),
            value <= 0x8000_0000_0000_0000,
            value == digits_value(s.subrange(0, i - from), radix as int),
            forall|k: int| 0 <= k < i - from ==> char_digit(#[trigger] s[k], radix as int),
        decreases n - i,
    {
        let d: u32 = match hex_digit_value(v[i]) {
            Some(d) => d,
            None => 16,
        };
        if d >= radix {
            assert(!char_digit(s[i - from], radix as int));
            return None;
        }
        assert(s.subrange(0, i - from + 1).drop_last() =~= s.subrange(0, i - from));
        assert(value * (radix as u128) <= 0x8000_0000_0000_0000 * 16) by (nonlinear_arith)
            requires
                value <= 0x8000_0000_0000_0000,
                radix <= 16,
        ;
        assert(0 <= value * (radix as u128)) by (nonlinear_arith);
        value = value * (radix as u128) + d as u128;
        i += 1;
        if value > 0x8000_0000_0000_0000 {
            proof {
                digits_value_grows(s, i - from, radix as int);
            }
            return None;
        }
    }
    assert(s.subrange(0, n - from) =~= s);
    Some(value as u64)
}

/// The number that a text spells in a radix, where an `i64` holds it.
fn from_digits(v: &[char], radix: u32) -> (r: Option<i64>)
    requires
        2 <= radix <= 16,
    ensures
        r is Some == spelled(v@, radix as int) is Some,
        r is Some ==> spelled(v@, radix as int) == Some(r->0 as int),
{
    let n: usize = v.len();
    let signed = n > 0 && (v[0] == '-' || v[0] == '+');
    let from: usize = if signed {
        1
    } else {
        0
    };
    assert(v@.subrange(0, n as int) =~= v@);
    proof {
        digits_value_grows(v@.subrange(from as int, n as int), 0, radix as int);
    }
    match magnitude(v, from, radix) {
        None => None,
        Some(m) => {
            if signed && v[0] == '-' {
                Some((0 - m as i128) as i64)
            } else if m <= i64::MAX as u64 {
                Some(m as i64)
            } else {
                None
            }
        },
    }
}

fn drop_underscores(v: &[char], from: usize) -> (r: Vec<char>)
    requires
        from <= v@.len(),
    ensures
        r@ == no_underscores(v@.subrange(from as int, v@.len() as int), v@.len() - from),
{
    let n: usize = v.len();
    let ghost s = v@.subrange(from as int, n as int);
    let mut out: Vec<char> = Vec::new();
    let mut i: usize = from;
    while i < n
        invariant
            from <= i <= n == v@.len(),
            s == v@.subrange(from as int, n as int),
            out@ == no_underscores(s, i - from),
        decreases n - i,
    {
        if v[i] != '_' {
            out.push(v[i]);
        }
        i += 1;
    }
    out
}

/// The integer that a [`Kind::Int`] token denotes. A literal too large for `i64` is refused.
pub fn int_value(src: &str, span: Span) -> (r: Result<i64, Error>)
    ensures
        match r {
            Ok(v) => int_at(src@, span) == Ok::<int, ErrorModel>(v as int),
            Err(e) => int_at(src@, span) == Err::<int, ErrorModel>(e.view()),
        },
{
    let text = span.slice(src);
    let v = to_chars(text);
    let (radix, skip): (u32, usize) = if v.len() >= 2 && v[0] == '0' && (v[1] == 'b' || v[1]
        == 'B') {
        (2, 2)
    } else if v.len() >= 2 && v[0] == '0' && (v[1] == 'o' || v[1] == 'O') {
        (8, 2)
    } else if v.len() >= 2 && v[0] == '0' && (v[1] == 'x' || v[1] == 'X') {
        (16, 2)
    } else {
        (10, 0)
    };
    let digits = drop_underscores(&v, skip);
    match from_digits(&digits, radix) {
        Some(value) => Ok(value),
        None => {
            let mut msg = "integer literal out of range: ".to_owned();
            msg.append(text);
            Err(Error { msg, span, cause: Cause::Lex })
        },
    }
}

/// A [`Kind::Float`] token as it is written, without its underscores.
pub fn float_text(src: &str, span: Span) -> (r: String)
    ensures
        r@ == no_underscores(covered(src@, span), covered(src@, span).len() as int),
{
    let v = to_chars(span.slice(src));
    assert(v@.subrange(0, v@.len() as int) =~= v@);
    let digits = drop_underscores(&v, 0);
    let r = text::from_chars(&digits, 0, digits.len());
    assert(digits@.subrange(0, digits@.len() as int) =~= digits@);
    r
}

/// How many octal digits stand at `i`, of which the first is one: at most three.
pub open spec fn octal_run(s: Seq<char>, i: int) -> int {
    if i + 1 < s.len() && '0' <= s[i + 1] <= '7' {
        if i + 2 < s.len() && '0' <= s[i + 2] <= '7' {
            3
        } else {
            2
        }
    } else {
        1
    }
}

/// What went wrong with an escape of a code.
pub open spec fn escape_error(kind: Seq<char>, label: Seq<char>) -> Seq<char> {
    kind + label + " escape"@
}

/// The code that `width` hexadecimal digits at `i` spell, as a character.
pub open spec fn code_escape(s: Seq<char>, i: int, width: int, label: Seq<char>) -> Result<
    char,
    Seq<char>,
> {
    if i < 0 || i + width > s.len() || !all_digits(s.subrange(i, i + width), 16) {
        Err(escape_error("truncated "@, label))
    } else {
        let code = digits_value(s.subrange(i, i + width), 16);
        if code <= u32::MAX && is_scalar(code as u32) {
            Ok(code as u32 as char)
        } else {
            Err(escape_error("invalid "@, label))
        }
    }
}

/// The characters that the body of a string denotes from `i` on, behind those in `out`, or what is
/// wrong with an escape. The escapes are Python's: an unknown one keeps its backslash, and a
/// backslash before a line break joins the lines. A carriage return, a line feed behind it or
/// not, becomes a line feed.
pub open spec fn decode_body(s: Seq<char>, i: int, out: Seq<char>) -> Result<Seq<char>, Seq<char>>
    decreases s.len() - i,
{
    if i < 0 || i >= s.len() {
        Ok(out)
    } else if s[i] == '\r' {
        decode_body(s, after_return(s, i + 1), out.push('\n'))
    } else if s[i] != '\\' {
        decode_body(s, i + 1, out.push(s[i]))
    } else if i + 1 >= s.len() {
        Ok(out.push('\\'))
    } else {
        let esc = s[i + 1];
        if esc == '\n' {
            decode_body(s, i + 2, out)
        } else if esc == '\r' {
            decode_body(s, after_return(s, i + 2), out)
        } else if text::simple_escape(esc) is Some {
            decode_body(s, i + 2, out.push(text::simple_escape(esc)->0))
        } else if '0' <= esc <= '7' {
            let n = octal_run(s, i + 1);
            let code = digits_value(s.subrange(i + 1, i + 1 + n), 8);
            decode_body(s, i + 1 + n, out.push(code as u32 as char))
        } else if esc == 'x' {
            match code_escape(s, i + 2, 2, "\\xXX"@) {
                Ok(c) => decode_body(s, i + 4, out.push(c)),
                Err(msg) => Err(msg),
            }
        } else if esc == 'u' {
            match code_escape(s, i + 2, 4, "\\uXXXX"@) {
                Ok(c) => decode_body(s, i + 6, out.push(c)),
                Err(msg) => Err(msg),
            }
        } else if esc == 'U' {
            match code_escape(s, i + 2, 8, "\\UXXXXXXXX"@) {
                Ok(c) => decode_body(s, i + 10, out.push(c)),
                Err(msg) => Err(msg),
            }
        } else if esc == 'N' {
            Err("\\N{...} escapes are not supported"@)
        } else {
            decode_body(s, i + 2, out.push('\\').push(esc))
        }
    }
}

/// The index behind a carriage return that ends before `i`, and a line feed behind it.
pub open spec fn after_return(s: Seq<char>, i: int) -> int {
    if 0 <= i < s.len() && s[i] == '\n' {
        i + 1
    } else {
        i
    }
}

/// The string at a span, or its refusal.
pub open spec fn string_at(src: Seq<char>, span: Span) -> Result<Seq<char>, ErrorModel> {
    let body = parse::text_between(src, span.start + 1, span.end - 1);
    match decode_body(body, 0, Seq::empty()) {
        Ok(s) => Ok(s),
        Err(msg) => Err(ErrorModel { msg, span, cause: Cause::Lex }),
    }
}

fn escape_message(kind: &str, label: &str) -> (r: String)
    ensures
        r@ == escape_error(kind@, label@),
{
    let mut msg = kind.to_owned();
    msg.append(label);
    msg.append(" escape");
    msg
}

/// The code that `width` hexadecimal digits at `i` spell, as a character.
fn hex_escape(v: &[char], i: usize, width: usize, label: &str) -> (r: Result<char, String>)
    requires
        i <= v@.len(),
        1 <= width <= 8,
    ensures
        match r {
            Ok(c) => code_escape(v@, i as int, width as int, label@) == Ok::<char, Seq<char>>(c),
            Err(msg) => code_escape(v@, i as int, width as int, label@) == Err::<char, Seq<char>>(
                msg@,
            ),
        },
{
    let n: usize = v.len();
    if n - i < width {
        return Err(escape_message("truncated ", label));
    }
    let digits = text::copy_chars(v, i, i + width);
    match magnitude(&digits, 0, 16) {
        Some(m) => {
            assert(digits@.subrange(0, digits@.len() as int) =~= digits@);
            if m > 0xffff_ffff {
                return Err(escape_message("invalid ", label));
            }
            match char::from_u32(m as u32) {
                Some(c) => {
                    proof {
                        char_u32_cast(c, m as u32);
                    }
                    Ok(c)
                },
                None => Err(escape_message("invalid ", label)),
            }
        },
        None => {
            assert(digits@.subrange(0, digits@.len() as int) =~= digits@);
            proof {
                eight_digits_fit(digits@);
            }
            Err(escape_message("truncated ", label))
        },
    }
}

/// 16 to the power of `n`.
spec fn sixteens(n: nat) -> int
    decreases n,
{
    if n == 0 {
        1
    } else {
        16 * sixteens((n - 1) as nat)
    }
}

proof fn digits_fit(s: Seq<char>, n: nat)
    requires
        s.len() <= n,
    ensures
        digits_value(s, 16) < sixteens(n),
    decreases n,
{
    if n > 0 {
        if s.len() > 0 {
            digits_fit(s.drop_last(), (n - 1) as nat);
        } else {
            digits_fit(s, (n - 1) as nat);
        }
    }
}

/// Eight hexadecimal digits spell at most 2^32 - 1.
proof fn eight_digits_fit(s: Seq<char>)
    requires
        s.len() <= 8,
    ensures
        digits_value(s, 16) <= 0xffff_ffff,
{
    digits_fit(s, 8);
    reveal_with_fuel(sixteens, 9);
}

/// The character that the octal digits at `i` denote, and how many there are.
fn octal_escape(v: &[char], i: usize) -> (r: (char, usize))
    requires
        i < v@.len(),
        '0' <= v@[i as int] <= '7',
    ensures
        r.1 == octal_run(v@, i as int),
        i + r.1 <= v@.len(),
        r.0 == digits_value(v@.subrange(i as int, i + r.1), 8) as u32 as char,
{
    let n: usize = v.len();
    let count: usize = if n - i > 1 && '0' <= v[i + 1] && v[i + 1] <= '7' {
        if n - i > 2 && '0' <= v[i + 2] && v[i + 2] <= '7' {
            3
        } else {
            2
        }
    } else {
        1
    };
    let digits = text::copy_chars(v, i, i + count);
    assert(digits@.subrange(0, count as int) =~= digits@);
    assert(forall|k: int| 0 <= k < count ==> char_digit(#[trigger] digits@[k], 8));
    proof {
        octal_fits(digits@);
    }
    let code: u32 = match magnitude(&digits, 0, 8) {
        Some(m) => m as u32,
        None => 0,
    };
    match char::from_u32(code) {
        Some(c) => {
            proof {
                char_u32_cast(c, code);
            }
            (c, count)
        },
        None => ('\u{fffd}', count),
    }
}

proof fn octal_fits(s: Seq<char>)
    requires
        1 <= s.len() <= 3,
        forall|k: int| 0 <= k < s.len() ==> char_digit(#[trigger] s[k], 8),
    ensures
        0 <= digits_value(s, 8) < 512,
{
    reveal_with_fuel(digits_value, 4);
    assert(char_digit(s[0], 8));
    if s.len() > 1 {
        assert(char_digit(s[1], 8));
    }
    if s.len() > 2 {
        assert(char_digit(s[2], 8));
    }
}

/// The string that a [`Kind::Str`] token denotes, quotes stripped and escapes applied.
///
/// `\\N{NAME}` is refused: it would take the Unicode name database.
pub fn string_value(src: &str, span: Span) -> (r: Result<String, Error>)
    requires
        ascii_ends(encode_utf8(src@), span),
    ensures
        match r {
            Ok(s) => string_at(src@, span) == Ok::<Seq<char>, ErrorModel>(s@),
            Err(e) => string_at(src@, span) == Err::<Seq<char>, ErrorModel>(e.view()),
        },
{
    let body = (Span { start: span.start + 1, end: span.end - 1 }).slice(src);
    let v = to_chars(body);
    match decode_chars(&v) {
        Ok(s) => Ok(s),
        Err(msg) => Err(Error { msg, span, cause: Cause::Lex }),
    }
}

fn skip_line_feed(v: &[char], i: usize) -> (r: usize)
    requires
        i <= v@.len(),
    ensures
        r == after_return(v@, i as int),
        i <= r <= v@.len(),
{
    if i < v.len() && v[i] == '\n' {
        i + 1
    } else {
        i
    }
}

/// What the body of a string denotes, or what is wrong with it.
fn decode_chars(v: &[char]) -> (r: Result<String, String>)
    ensures
        match r {
            Ok(s) => decode_body(v@, 0, Seq::empty()) == Ok::<Seq<char>, Seq<char>>(s@),
            Err(msg) => decode_body(v@, 0, Seq::empty()) == Err::<Seq<char>, Seq<char>>(msg@),
        },
{
    let n: usize = v.len();
    let mut out = String::new();
    let mut i: usize = 0;
    while i < n
        invariant
            i <= n == v@.len(),
            decode_body(v@, 0, Seq::empty()) == decode_body(v@, i as int, out@),
        decreases n - i,
    {
        let c = v[i];
        if c == '\r' {
            out.push('\n');
            i = skip_line_feed(v, i + 1);
        } else if c != '\\' {
            out.push(c);
            i += 1;
        } else if i + 1 >= n {
            out.push('\\');
            return Ok(out);
        } else {
            let esc = v[i + 1];
            if esc == '\n' {
                i += 2;
            } else if esc == '\r' {
                i = skip_line_feed(v, i + 2);
            } else if let Some(plain) = plain_escape(esc) {
                out.push(plain);
                i += 2;
            } else if '0' <= esc && esc <= '7' {
                let (ch, count) = octal_escape(v, i + 1);
                out.push(ch);
                i = i + 1 + count;
            } else if esc == 'x' {
                match hex_escape(v, i + 2, 2, "\\xXX") {
                    Ok(ch) => {
                        out.push(ch);
                        i += 4;
                    },
                    Err(msg) => return Err(msg),
                }
            } else if esc == 'u' {
                match hex_escape(v, i + 2, 4, "\\uXXXX") {
                    Ok(ch) => {
                        out.push(ch);
                        i += 6;
                    },
                    Err(msg) => return Err(msg),
                }
            } else if esc == 'U' {
                match hex_escape(v, i + 2, 8, "\\UXXXXXXXX") {
                    Ok(ch) => {
                        out.push(ch);
                        i += 10;
                    },
                    Err(msg) => return Err(msg),
                }
            } else if esc == 'N' {
                return Err("\\N{...} escapes are not supported".to_owned());
            } else {
                out.push('\\');
                out.push(esc);
                i += 2;
            }
        }
    }
    Ok(out)
}

/// A string without a backslash and without a carriage return stands for its own text.
pub proof fn plain_text_stands_for_itself(body: Seq<char>, i: int)
    requires
        0 <= i <= body.len(),
        forall|k: int| 0 <= k < body.len() ==> body[k] != '\\' && #[trigger] body[k] != '\r',
    ensures
        decode_body(body, i, body.take(i)) == Ok::<Seq<char>, Seq<char>>(body),
    decreases body.len() - i,
{
    if i < body.len() {
        assert(body.take(i + 1) =~= body.take(i).push(body[i]));
        plain_text_stands_for_itself(body, i + 1);
    } else {
        assert(body.take(i) =~= body);
    }
}

} // verus!
