//! Strings as sequences of characters, and the few operations on them that every other module
//! builds on.

use vstd::prelude::*;
use vstd::utf8::*;

verus! {

/// `String::push`: the character goes to the end.
pub assume_specification[ std::string::String::push ](s: &mut std::string::String, c: char)
    ensures
        final(s)@ == old(s)@.push(c),
;

/// Does `s` begin with `p`?
pub open spec fn begins_with(s: Seq<char>, p: Seq<char>) -> bool {
    p.len() <= s.len() && s.subrange(0, p.len() as int) == p
}

/// Does `s` end with `p`?
pub open spec fn ends_with(s: Seq<char>, p: Seq<char>) -> bool {
    p.len() <= s.len() && s.subrange(s.len() - p.len(), s.len() as int) == p
}

/// Does `p` stand in `s` at index `i`?
pub open spec fn stands_at(s: Seq<char>, p: Seq<char>, i: int) -> bool {
    0 <= i && i + p.len() <= s.len() && s.subrange(i, i + p.len()) == p
}

/// The first index at or after `i` where `p` stands in `s`.
pub open spec fn find_from(s: Seq<char>, p: Seq<char>, i: int) -> Option<int>
    decreases s.len() + 1 - i,
{
    if i < 0 || i + p.len() > s.len() {
        None
    } else if stands_at(s, p, i) {
        Some(i)
    } else {
        find_from(s, p, i + 1)
    }
}

/// Does `p` stand anywhere in `s`?
pub open spec fn occurs(s: Seq<char>, p: Seq<char>) -> bool {
    find_from(s, p, 0) is Some
}

/// `find_from` gives the least index: `p` stands there and nowhere before.
pub proof fn find_from_is_first(s: Seq<char>, p: Seq<char>, i: int)
    requires
        0 <= i,
    ensures
        match find_from(s, p, i) {
            Some(k) => i <= k && stands_at(s, p, k) && forall|j: int|
                i <= j < k ==> !#[trigger] stands_at(s, p, j),
            None => forall|j: int| i <= j ==> !#[trigger] stands_at(s, p, j),
        },
    decreases s.len() + 1 - i,
{
    if i + p.len() <= s.len() && !stands_at(s, p, i) {
        find_from_is_first(s, p, i + 1);
    }
}

/// The Unicode property White_Space.
pub open spec fn white(c: char) -> bool {
    ||| '\u{9}' <= c <= '\u{d}'
    ||| c == ' '
    ||| c == '\u{85}'
    ||| c == '\u{a0}'
    ||| c == '\u{1680}'
    ||| '\u{2000}' <= c <= '\u{200a}'
    ||| c == '\u{2028}'
    ||| c == '\u{2029}'
    ||| c == '\u{202f}'
    ||| c == '\u{205f}'
    ||| c == '\u{3000}'
}

/// `s` without the whitespace at its start.
pub open spec fn trim_start(s: Seq<char>) -> Seq<char>
    decreases s.len(),
{
    if s.len() > 0 && white(s[0]) {
        trim_start(s.subrange(1, s.len() as int))
    } else {
        s
    }
}

/// `s` without the whitespace at its end.
pub open spec fn trim_end(s: Seq<char>) -> Seq<char>
    decreases s.len(),
{
    if s.len() > 0 && white(s[s.len() - 1]) {
        trim_end(s.subrange(0, s.len() - 1))
    } else {
        s
    }
}

/// What is taken from the start of a text is whitespace, and the rest is left as it is.
pub proof fn trimmed_start_is_white(t: Seq<char>)
    ensures
        trim_start(t).len() <= t.len(),
        trim_start(t) == t.subrange(t.len() - trim_start(t).len(), t.len() as int),
        forall|k: int| 0 <= k < t.len() - trim_start(t).len() ==> white(#[trigger] t[k]),
    decreases t.len(),
{
    if t.len() > 0 && white(t[0]) {
        let r = t.subrange(1, t.len() as int);
        trimmed_start_is_white(r);
        let k = trim_start(r).len();
        assert(r.subrange(r.len() - k, r.len() as int) =~= t.subrange(
            t.len() - k,
            t.len() as int,
        ));
        assert forall|j: int| 0 <= j < t.len() - k implies white(#[trigger] t[j]) by {
            if j > 0 {
                assert(white(r[j - 1]));
            }
        }
    } else {
        assert(t.subrange(0, t.len() as int) =~= t);
    }
}

/// What is taken from the end of a text is whitespace, and the rest is left as it is.
pub proof fn trimmed_end_is_white(t: Seq<char>)
    ensures
        trim_end(t).len() <= t.len(),
        trim_end(t) == t.subrange(0, trim_end(t).len() as int),
        forall|k: int| trim_end(t).len() <= k < t.len() ==> white(#[trigger] t[k]),
    decreases t.len(),
{
    if t.len() > 0 && white(t[t.len() - 1]) {
        let r = t.subrange(0, t.len() - 1);
        trimmed_end_is_white(r);
        let k = trim_end(r).len();
        assert(r.subrange(0, k as int) =~= t.subrange(0, k as int));
        assert forall|j: int| k <= j < t.len() implies white(#[trigger] t[j]) by {
            if j < r.len() {
                assert(white(r[j]));
            }
        }
    } else {
        assert(t.subrange(0, t.len() as int) =~= t);
    }
}

/// `s` without the whitespace at either end.
pub open spec fn trim(s: Seq<char>) -> Seq<char> {
    trim_end(trim_start(s))
}

/// Is `c` white space?
pub fn is_white(c: char) -> (r: bool)
    ensures
        r == white(c),
{
    ('\u{9}' <= c && c <= '\u{d}') || c == ' ' || c == '\u{85}' || c == '\u{a0}' || c == '\u{1680}'
        || ('\u{2000}' <= c && c <= '\u{200a}') || c == '\u{2028}' || c == '\u{2029}' || c
        == '\u{202f}' || c == '\u{205f}' || c == '\u{3000}'
}

/// Do two texts hold the same characters?
pub fn str_eq(a: &str, b: &str) -> (r: bool)
    ensures
        r == (a@ == b@),
{
    let x = a.as_bytes();
    let y = b.as_bytes();
    proof {
        encode_utf8_decode_utf8(a@);
        encode_utf8_decode_utf8(b@);
    }
    if x.len() != y.len() {
        return false;
    }
    let mut i: usize = 0;
    while i < x.len()
        invariant
            x@.len() == y@.len(),
            x@ == encode_utf8(a@),
            y@ == encode_utf8(b@),
            i <= x@.len(),
            forall|j: int| 0 <= j < i ==> x@[j] == y@[j],
        decreases x@.len() - i,
    {
        if x[i] != y[i] {
            return false;
        }
        i += 1;
    }
    assert(x@ =~= y@);
    true
}

/// The characters of `s`, in order.
pub fn to_chars(s: &str) -> (r: Vec<char>)
    ensures
        r@ == s@,
{
    let mut out: Vec<char> = Vec::new();
    for c in it: s.chars()
        invariant
            out@ == it.seq().take(it.index() as int),
            it.seq() == s@,
    {
        out.push(c);
    }
    out
}

/// The text whose characters are `v[from..to]`.
pub fn from_chars(v: &[char], from: usize, to: usize) -> (r: String)
    requires
        from <= to <= v@.len(),
    ensures
        r@ == v@.subrange(from as int, to as int),
{
    let mut s = String::new();
    let mut i: usize = from;
    while i < to
        invariant
            from <= i <= to <= v@.len(),
            s@ == v@.subrange(from as int, i as int),
        decreases to - i,
    {
        s.push(v[i]);
        i += 1;
        assert(v@.subrange(from as int, i as int) =~= v@.subrange(from as int, i - 1).push(
            v@[i - 1],
        ));
    }
    s
}

/// Does `p` stand in `v` at index `at`?
pub fn chars_at(v: &[char], p: &[char], at: usize) -> (r: bool)
    ensures
        r == stands_at(v@, p@, at as int),
{
    if p.len() > v.len() || at > v.len() - p.len() {
        return false;
    }
    let n: usize = v.len();
    let mut i: usize = 0;
    while i < p.len()
        invariant
            at + p@.len() <= n == v@.len(),
            i <= p@.len(),
            forall|j: int| 0 <= j < i ==> v@[at + j] == p@[j],
        decreases p@.len() - i,
    {
        if v[at + i] != p[i] {
            assert(v@.subrange(at as int, at + p@.len())[i as int] != p@[i as int]);
            return false;
        }
        i += 1;
    }
    assert(v@.subrange(at as int, at + p@.len()) =~= p@);
    true
}

/// The first index of `p` in `v` at or after `from`.
pub fn chars_find(v: &[char], p: &[char], from: usize) -> (r: Option<usize>)
    ensures
        r is Some == find_from(v@, p@, from as int) is Some,
        r is Some ==> find_from(v@, p@, from as int) == Some(r->0 as int) && from <= r->0 && r->0
            + p@.len() <= v@.len() && stands_at(v@, p@, r->0 as int),
{
    let mut i: usize = from;
    while p.len() <= v.len() && i <= v.len() - p.len()
        invariant
            from <= i,
            find_from(v@, p@, from as int) == find_from(v@, p@, i as int),
        decreases v@.len() - i,
    {
        if chars_at(v, p, i) {
            return Some(i);
        }
        if i == v.len() - p.len() {
            assert(find_from(v@, p@, i + 1) is None);
            return None;
        }
        i += 1;
    }
    None
}

/// Does `s` begin with `p`?
pub fn starts_with(s: &str, p: &str) -> (r: bool)
    ensures
        r == begins_with(s@, p@),
{
    let v = to_chars(s);
    let q = to_chars(p);
    chars_at(&v, &q, 0)
}

/// Does `p` stand anywhere in `s`?
pub fn contains(s: &str, p: &str) -> (r: bool)
    ensures
        r == occurs(s@, p@),
{
    let v = to_chars(s);
    let q = to_chars(p);
    chars_find(&v, &q, 0).is_some()
}

/// What follows the prefix `p`, where `s` has it.
pub fn strip_prefix<'a>(s: &'a str, p: &str) -> (r: Option<&'a str>)
    ensures
        r is Some == begins_with(s@, p@),
        r is Some ==> r->0@ == s@.subrange(p@.len() as int, s@.len() as int),
{
    let v = to_chars(s);
    let q = to_chars(p);
    if chars_at(&v, &q, 0) {
        Some(s.substring_char(q.len(), v.len()))
    } else {
        None
    }
}

/// Where `v[from..to]` ends without the whitespace at its end.
pub fn trimmed_len(v: &[char], from: usize, to: usize) -> (r: usize)
    requires
        from <= to <= v@.len(),
    ensures
        from <= r <= to,
        v@.subrange(from as int, r as int) == trim_end(v@.subrange(from as int, to as int)),
{
    let mut n: usize = to;
    while n > from && is_white(v[n - 1])
        invariant
            from <= n <= to <= v@.len(),
            trim_end(v@.subrange(from as int, n as int)) == trim_end(
                v@.subrange(from as int, to as int),
            ),
        decreases n,
    {
        assert(v@.subrange(from as int, n as int).subrange(0, n - from - 1) =~= v@.subrange(
            from as int,
            n - 1,
        ));
        n -= 1;
    }
    n
}

/// The first index in `from..to` that holds no whitespace, or `to`.
pub fn skip_white(v: &[char], from: usize, to: usize) -> (r: usize)
    requires
        from <= to <= v@.len(),
    ensures
        from <= r <= to,
        v@.subrange(r as int, to as int) == trim_start(v@.subrange(from as int, to as int)),
{
    let mut n: usize = from;
    while n < to && is_white(v[n])
        invariant
            from <= n <= to <= v@.len(),
            trim_start(v@.subrange(n as int, to as int)) == trim_start(
                v@.subrange(from as int, to as int),
            ),
        decreases to - n,
    {
        assert(v@.subrange(n as int, to as int).subrange(1, to - n) =~= v@.subrange(
            n + 1,
            to as int,
        ));
        n += 1;
    }
    n
}

/// `char::from_u32`: the character with that code, where there is one.
pub assume_specification[ char::from_u32 ](i: u32) -> (r: Option<char>)
    ensures
        r is Some == vstd::utf8::is_scalar(i),
        r is Some ==> r->0 as u32 == i,
;

/// The value of a hexadecimal digit.
pub open spec fn hex_digit(c: char) -> Option<int> {
    if '0' <= c <= '9' {
        Some(c as int - '0' as int)
    } else if 'a' <= c <= 'f' {
        Some(c as int - 'a' as int + 10)
    } else if 'A' <= c <= 'F' {
        Some(c as int - 'A' as int + 10)
    } else {
        None
    }
}

/// What a single-character escape stands for.
pub open spec fn simple_escape(c: char) -> Option<char> {
    if c == '\\' || c == '\'' || c == '"' {
        Some(c)
    } else if c == 'a' {
        Some('\u{7}')
    } else if c == 'b' {
        Some('\u{8}')
    } else if c == 'f' {
        Some('\u{c}')
    } else if c == 'n' {
        Some('\n')
    } else if c == 'r' {
        Some('\r')
    } else if c == 't' {
        Some('\t')
    } else if c == 'v' {
        Some('\u{b}')
    } else {
        None
    }
}

/// The value of a hexadecimal digit.
pub fn hex_digit_value(c: char) -> (r: Option<u32>)
    ensures
        r is Some == hex_digit(c) is Some,
        r is Some ==> r->0 == hex_digit(c)->0 && r->0 < 16,
{
    if '0' <= c && c <= '9' {
        Some(c as u32 - '0' as u32)
    } else if 'a' <= c && c <= 'f' {
        Some(c as u32 - 'a' as u32 + 10)
    } else if 'A' <= c && c <= 'F' {
        Some(c as u32 - 'A' as u32 + 10)
    } else {
        None
    }
}

/// What a single-character escape stands for.
pub fn plain_escape(c: char) -> (r: Option<char>)
    ensures
        r == simple_escape(c),
{
    match c {
        '\\' => Some('\\'),
        '\'' => Some('\''),
        '"' => Some('"'),
        'a' => Some('\u{7}'),
        'b' => Some('\u{8}'),
        'f' => Some('\u{c}'),
        'n' => Some('\n'),
        'r' => Some('\r'),
        't' => Some('\t'),
        'v' => Some('\u{b}'),
        _ => None,
    }
}

/// The character that begins at byte `i` of a UTF-8 text, and how many bytes it takes.
pub open spec fn char_from(b: Seq<u8>, i: int) -> Option<(char, int)> {
    let rest = b.subrange(i, b.len() as int);
    if 0 <= i < b.len() && valid_first_scalar(rest) {
        Some((decode_first_scalar(rest) as char, length_of_first_scalar(rest)))
    } else {
        None
    }
}

/// The character that begins at byte `i` of a UTF-8 text, and how many bytes it takes.
pub fn char_at(b: &[u8], i: usize) -> (r: Option<(char, usize)>)
    ensures
        r is Some == char_from(b@, i as int) is Some,
        r is Some ==> char_from(b@, i as int) == Some(((r->0).0, (r->0).1 as int)) && 1 <= (
        r->0).1 && i + (r->0).1 <= b@.len(),
{
    let n: usize = b.len();
    if i >= n {
        return None;
    }
    let ghost rest = b@.subrange(i as int, n as int);
    let b0 = b[i];
    let left: usize = n - i;
    let (code, width): (u32, usize) = if b0 <= 0x7f {
        ((b0 & 0x7F) as u32, 1)
    } else if 0xc0 <= b0 && b0 <= 0xdf && left >= 2 && is_tail(b[i + 1]) {
        ((((b0 & 0x1F) as u32) << 6) | (b[i + 1] & 0x3f) as u32, 2)
    } else if 0xe0 <= b0 && b0 <= 0xef && left >= 3 && is_tail(b[i + 1]) && is_tail(b[i + 2]) {
        (
            (((b0 & 0x0F) as u32) << 12) | (((b[i + 1] & 0x3f) as u32) << 6) | (b[i + 2] & 0x3f)
                as u32,
            3,
        )
    } else if 0xf0 <= b0 && b0 <= 0xf7 && left >= 4 && is_tail(b[i + 1]) && is_tail(b[i + 2])
        && is_tail(b[i + 3]) {
        (
            (((b0 & 0x07) as u32) << 18) | (((b[i + 1] & 0x3f) as u32) << 12) | (((b[i + 2] & 0x3f)
                as u32) << 6) | (b[i + 3] & 0x3f) as u32,
            4,
        )
    } else {
        return None;
    };
    assert(code == decode_first_codepoint(rest));
    assert(width == length_of_first_codepoint(rest));
    if (width == 2 && code < 0x80) || (width == 3 && code < 0x800) || (width == 4 && code
        < 0x10000) {
        return None;
    }
    proof {
        ascii_code(b0);
        if width == 2 {
            code_bounds(b0, rest[1], 0);
        } else if width == 3 {
            code_bounds(b0, rest[1], rest[2]);
        }
    }
    match char::from_u32(code) {
        Some(c) => {
            proof {
                char_u32_cast(c, code);
            }
            Some((c, width))
        },
        None => None,
    }
}

fn is_tail(b: u8) -> (r: bool)
    ensures
        r == is_continuation_byte(b),
{
    0x80 <= b && b <= 0xbf
}

proof fn code_bounds(b0: u8, b1: u8, b2: u8)
    by (bit_vector)
    ensures
        ((((b0 & 0x1F) as u32) << 6) | (b1 & 0x3f) as u32) < 0x800,
        ((((b0 & 0x0F) as u32) << 12) | (((b1 & 0x3f) as u32) << 6) | (b2 & 0x3f) as u32) < 0x10000,
{
}

proof fn ascii_code(b: u8)
    by (bit_vector)
    ensures
        (b & 0x7F) <= 0x7F,
        b <= 0x7F ==> (b & 0x7F) == b,
{
}

/// The characters `v[from..to]`.
pub fn copy_chars(v: &[char], from: usize, to: usize) -> (r: Vec<char>)
    requires
        from <= to <= v@.len(),
    ensures
        r@ == v@.subrange(from as int, to as int),
{
    let mut out: Vec<char> = Vec::new();
    let mut i: usize = from;
    while i < to
        invariant
            from <= i <= to <= v@.len(),
            out@ == v@.subrange(from as int, i as int),
        decreases to - i,
    {
        out.push(v[i]);
        i += 1;
        assert(v@.subrange(from as int, i as int) =~= v@.subrange(from as int, i - 1).push(
            v@[i - 1],
        ));
    }
    out
}

/// Do the bytes `p` stand in `b` at `i`?
pub open spec fn bytes_at(b: Seq<u8>, p: Seq<u8>, i: int) -> bool {
    0 <= i && i + p.len() <= b.len() && b.subrange(i, i + p.len()) == p
}

/// The first place at or after `i` where the bytes `p` stand in `b`.
pub open spec fn find_bytes(b: Seq<u8>, p: Seq<u8>, i: int) -> Option<int>
    decreases b.len() + 1 - i,
{
    if i < 0 || i + p.len() > b.len() {
        None
    } else if bytes_at(b, p, i) {
        Some(i)
    } else {
        find_bytes(b, p, i + 1)
    }
}

/// The first place at or after `i` of a byte, or `to`.
pub open spec fn byte_or(b: Seq<u8>, c: u8, i: int, to: int) -> int
    decreases to - i,
{
    if i < 0 || i >= to || i >= b.len() || b[i] == c {
        i
    } else {
        byte_or(b, c, i + 1, to)
    }
}

/// Do the bytes `p` stand in `b` at `i`?
pub fn has_bytes_at(b: &[u8], p: &[u8], i: usize) -> (r: bool)
    ensures
        r == bytes_at(b@, p@, i as int),
{
    let n: usize = b.len();
    let m: usize = p.len();
    if m > n || i > n - m {
        return false;
    }
    let mut k: usize = 0;
    while k < m
        invariant
            n == b@.len(),
            m == p@.len(),
            i + m <= n,
            k <= m,
            forall|j: int| 0 <= j < k ==> b@[i + j] == p@[j],
        decreases m - k,
    {
        if b[i + k] != p[k] {
            assert(b@.subrange(i as int, i + m)[k as int] != p@[k as int]);
            return false;
        }
        k += 1;
    }
    assert(b@.subrange(i as int, i + m) =~= p@);
    true
}

/// The first place at or after `from` where the bytes `p` stand in `b`.
pub fn find_bytes_from(b: &[u8], p: &[u8], from: usize) -> (r: Option<usize>)
    ensures
        r is Some == find_bytes(b@, p@, from as int) is Some,
        r is Some ==> find_bytes(b@, p@, from as int) == Some(r->0 as int) && from <= r->0 && r->0
            + p@.len() <= b@.len() && bytes_at(b@, p@, r->0 as int),
{
    let n: usize = b.len();
    let m: usize = p.len();
    let mut i: usize = from;
    while m <= n && i <= n - m
        invariant
            n == b@.len(),
            m == p@.len(),
            from <= i,
            find_bytes(b@, p@, from as int) == find_bytes(b@, p@, i as int),
        decreases n - i,
    {
        if has_bytes_at(b, p, i) {
            return Some(i);
        }
        if i == n - m {
            assert(find_bytes(b@, p@, i + 1) is None);
            return None;
        }
        i += 1;
    }
    None
}

/// The first place at or after `from` of a byte, or `to`.
pub fn find_byte_or(b: &[u8], c: u8, from: usize, to: usize) -> (r: usize)
    requires
        from <= to <= b@.len(),
    ensures
        r == byte_or(b@, c, from as int, to as int),
        from <= r <= to,
        r < to ==> b@[r as int] == c,
{
    let mut i: usize = from;
    while i < to && b[i] != c
        invariant
            from <= i <= to <= b@.len(),
            byte_or(b@, c, from as int, to as int) == byte_or(b@, c, i as int, to as int),
        decreases to - i,
    {
        i += 1;
    }
    i
}

/// `char::is_alphanumeric`: a letter or a number, by the Unicode properties.
pub uninterp spec fn alphanumeric(c: char) -> bool;

/// `char::is_alphanumeric`. Among the ASCII characters it holds of the letters and the digits.
#[verifier::external_body]
pub(crate) fn is_alphanumeric(c: char) -> (r: bool)
    ensures
        r == alphanumeric(c),
        c < '\u{80}' ==> r == ('a' <= c <= 'z' || 'A' <= c <= 'Z' || '0' <= c <= '9'),
{
    c.is_alphanumeric()
}

/// How many bytes the UTF-8 form of `v[from..to]` takes.
pub fn encoded_len(v: &[char], from: usize, to: usize) -> (r: usize)
    requires
        from <= to <= v@.len(),
        encode_utf8(v@.subrange(from as int, to as int)).len() <= usize::MAX,
    ensures
        r == encode_utf8(v@.subrange(from as int, to as int)).len(),
{
    let ghost t = v@.subrange(from as int, to as int);
    let mut bytes: usize = 0;
    let mut i: usize = from;
    assert(t.subrange(0, 0) =~= Seq::empty());
    while i < to
        invariant
            from <= i <= to <= v@.len(),
            t == v@.subrange(from as int, to as int),
            encode_utf8(t).len() <= usize::MAX,
            bytes == encode_utf8(t.subrange(0, i - from)).len(),
        decreases to - i,
    {
        proof {
            crate::parse::encode_prefix_step(t, i - from);
            crate::parse::encode_prefix_le(t, i - from + 1);
        }
        bytes += crate::parse::utf8_width(v[i]);
        i += 1;
    }
    assert(t.subrange(0, to - from) =~= t);
    bytes
}

/// Does the text end with `ext`?
pub fn is_suffix(file: &str, ext: &str) -> (r: bool)
    ensures
        r == ends_with(file@, ext@),
{
    let v = to_chars(file);
    let e = to_chars(ext);
    let n: usize = v.len();
    let m: usize = e.len();
    if m > n {
        return false;
    }
    str_eq(from_chars(v.as_slice(), n - m, n).as_str(), ext)
}

} // verus!
