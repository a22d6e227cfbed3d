//! Ansible's splitter of free-form values. Every module whose value is a plain string goes
//! through [`parse_kv`] before the module sees it: `include_vars: x.yml name=db` and
//! `copy: src=a dest=b` are this machinery, not module features.
//!
//! With `check_raw`, which stands for the shell and command family, a `k=v` token stays part of
//! the raw command unless its key is one of the shell-control options.

use crate::keywords::{self, in_set};
use crate::text::{self, from_chars, hex_digit_value, plain_escape, skip_white, str_eq};
use crate::text::{to_chars, trimmed_len};
use regex::Regex;
use vstd::prelude::*;

verus! {

/// What [`parse_kv`] found.
#[derive(Debug, PartialEq)]
pub struct ParsedKv {
    /// `k=v` tokens in order, a later duplicate key overwriting the earlier one in place.
    pub options: Vec<(String, String)>,
    /// The other tokens, rejoined with their original spacing, if there are any.
    pub raw_params: Option<String>,
}

/// What a [`ParsedKv`] says.
pub struct KvModel {
    pub options: Seq<(Seq<char>, Seq<char>)>,
    pub raw_params: Option<Seq<char>>,
}

/// What a list of options says.
pub open spec fn option_models(v: Seq<(String, String)>) -> Seq<(Seq<char>, Seq<char>)> {
    Seq::new(v.len(), |i: int| (v[i].0@, v[i].1@))
}

/// What a list of texts says.
pub open spec fn texts(v: Seq<String>) -> Seq<Seq<char>> {
    Seq::new(v.len(), |i: int| v[i]@)
}

impl Default for ParsedKv {
    fn default() -> (r: Self)
        ensures
            r.view() == (KvModel { options: Seq::empty(), raw_params: None }),
    {
        let r = ParsedKv { options: Vec::new(), raw_params: None };
        assert(r.view().options =~= Seq::empty());
        r
    }
}

impl ParsedKv {
    pub open spec fn view(&self) -> KvModel {
        KvModel {
            options: option_models(self.options@),
            raw_params: match self.raw_params {
                Some(s) => Some(s@),
                None => None,
            },
        }
    }

    /// The value of an option.
    pub fn get(&self, key: &str) -> (r: Option<&str>)
        ensures
            match option_index(self.view().options, key@, 0) {
                Some(i) => r is Some && r->0@ == self.view().options[i].1,
                None => r is None,
            },
    {
        match find_option(&self.options, key) {
            Some(i) => Some(self.options[i].1.as_str()),
            None => None,
        }
    }
}

/// The first option named `key`, from index `i` on.
pub open spec fn option_index(
    options: Seq<(Seq<char>, Seq<char>)>,
    key: Seq<char>,
    i: int,
) -> Option<int>
    decreases options.len() - i,
{
    if i < 0 || i >= options.len() {
        None
    } else if options[i].0 == key {
        Some(i)
    } else {
        option_index(options, key, i + 1)
    }
}

fn find_option(options: &Vec<(String, String)>, key: &str) -> (r: Option<usize>)
    ensures
        r is Some == option_index(option_models(options@), key@, 0) is Some,
        r is Some ==> option_index(option_models(options@), key@, 0) == Some(r->0 as int) && r->0
            < options@.len(),
{
    let ghost models = option_models(options@);
    let n: usize = options.len();
    let mut i: usize = 0;
    while i < n
        invariant
            models == option_models(options@),
            i <= n == options@.len(),
            option_index(models, key@, 0) == option_index(models, key@, i as int),
        decreases n - i,
    {
        assert(models[i as int] == (options@[i as int].0@, options@[i as int].1@));
        if str_eq(options[i].0.as_str(), key) {
            return Some(i);
        }
        i += 1;
    }
    None
}

/// The shell-control options that stay `k=v` even under `check_raw`.
pub const RAW_OK_KEYS: [&'static str; 8] = [
    "creates",
    "removes",
    "chdir",
    "executable",
    "warn",
    "stdin",
    "stdin_add_newline",
    "strip_empty_ends",
];

/// Where the splitter stands between two tokens.
pub struct Split {
    /// The parameters so far.
    pub params: Seq<Seq<char>>,
    /// The quote that is open.
    pub quote: Option<char>,
    /// How deep it stands in `{{ }}`, in `{% %}` and in `{# #}`.
    pub print: int,
    pub block: int,
    pub comment: int,
    /// A lone backslash was met on this line.
    pub continued: bool,
}

impl Split {
    /// Inside one of the three kinds of Jinja blocks?
    pub open spec fn in_block(self) -> bool {
        self.print > 0 || self.block > 0 || self.comment > 0
    }
}

/// Nothing read yet.
pub open spec fn split_start() -> Split {
    Split {
        params: Seq::empty(),
        quote: None,
        print: 0,
        block: 0,
        comment: 0,
        continued: false,
    }
}

/// More text at the end of the last parameter; of a new one, where there is none.
pub open spec fn extend_last(params: Seq<Seq<char>>, more: Seq<char>) -> Seq<Seq<char>> {
    if params.len() == 0 {
        seq![more]
    } else {
        params.update(params.len() - 1, params.last() + more)
    }
}

/// The quote that is open after `s[i..]`. An escaped quote neither opens nor closes.
pub open spec fn quote_after(s: Seq<char>, i: int, quote: Option<char>) -> Option<char>
    decreases s.len() - i,
{
    if i < 0 || i >= s.len() {
        quote
    } else if (s[i] == '"' || s[i] == '\'') && !(i > 0 && s[i - 1] == '\\') {
        quote_after(
            s,
            i + 1,
            match quote {
                Some(q) => if q == s[i] {
                    None
                } else {
                    quote
                },
                None => Some(s[i]),
            },
        )
    } else {
        quote_after(s, i + 1, quote)
    }
}

/// How often the two characters stand in `s[i..]`, without overlap.
pub open spec fn pairs_from(s: Seq<char>, a: char, b: char, i: int) -> nat
    decreases s.len() - i,
{
    if i < 0 || i + 1 >= s.len() {
        0
    } else if s[i] == a && s[i + 1] == b {
        1 + pairs_from(s, a, b, i + 2)
    } else {
        pairs_from(s, a, b, i + 1)
    }
}

/// A depth after a token that opens with `a b` and closes with `b c`; never below zero.
pub open spec fn depth_after(depth: int, token: Seq<char>, a: char, b: char, c: char, d: char) -> int {
    let after = depth + pairs_from(token, a, b, 0) - pairs_from(token, c, d, 0);
    if after < 0 {
        0
    } else {
        after
    }
}

/// Where the splitter stands after the `idx`-th token of a line.
pub open spec fn step(st: Split, token: Seq<char>, idx: int) -> Split {
    if token.len() == 0 && idx != 0 {
        // Consecutive blanks are kept, so that raw parameters rejoin verbatim.
        Split { params: extend_last(st.params, seq![' ']), ..st }
    } else if token == seq!['\\'] && st.quote is None {
        Split { continued: true, ..st }
    } else {
        let quote = quote_after(token, 0, st.quote);
        let print = depth_after(st.print, token, '{', '{', '}', '}');
        let block = depth_after(st.block, token, '{', '%', '%', '}');
        let comment = depth_after(st.comment, token, '{', '#', '#', '}');
        let opens = quote is Some && st.quote is None && !st.in_block();
        let within = st.in_block() || quote is Some || st.quote is Some;
        let moved = print != st.print || block != st.block || comment != st.comment;
        let params = if opens {
            st.params.push(token)
        } else if within {
            extend_last(
                st.params,
                if idx > 0 {
                    seq![' '] + token
                } else {
                    token
                },
            )
        } else if moved || token.len() > 0 {
            st.params.push(token)
        } else {
            st.params
        };
        Split { params, quote, print, block, comment, continued: st.continued }
    }
}

/// The end of a line that is not the last.
pub open spec fn line_feed(st: Split) -> Split {
    Split {
        params: if st.continued {
            st.params
        } else {
            extend_last(st.params, seq!['\n'])
        },
        continued: false,
        ..st
    }
}

/// The end of the token that begins at `i`: a blank, a line feed, or the end of the text.
pub open spec fn token_end(s: Seq<char>, i: int) -> int
    decreases s.len() - i,
{
    if i < 0 || i >= s.len() || s[i] == ' ' || s[i] == '\n' {
        i
    } else {
        token_end(s, i + 1)
    }
}

/// Where the splitter stands at the end of the text, when the `idx`-th token of a line begins at
/// `i`.
pub open spec fn split_from(st: Split, s: Seq<char>, i: int, idx: int) -> Split
    decreases s.len() + 1 - i,
{
    if i < 0 || i > s.len() {
        st
    } else {
        let e = token_end(s, i);
        let next = step(st, s.subrange(i, e), idx);
        if e < i || e >= s.len() {
            next
        } else if s[e] == ' ' {
            split_from(next, s, e + 1, idx + 1)
        } else {
            split_from(line_feed(next), s, e + 1, 0)
        }
    }
}

/// The parameters of a text, or why it cannot be split.
pub open spec fn split_of(s: Seq<char>) -> Result<Seq<Seq<char>>, Seq<char>> {
    let st = split_from(split_start(), s, 0, 0);
    if st.in_block() || st.quote is Some {
        Err(
            "failed at splitting arguments, either an unbalanced jinja2 block or quotes: "@ + s,
        )
    } else {
        Ok(st.params)
    }
}

proof fn token_end_bounds(s: Seq<char>, i: int)
    requires
        0 <= i <= s.len(),
    ensures
        i <= token_end(s, i) <= s.len(),
        token_end(s, i) < s.len() ==> s[token_end(s, i)] == ' ' || s[token_end(s, i)] == '\n',
    decreases s.len() - i,
{
    if i < s.len() && s[i] != ' ' && s[i] != '\n' {
        token_end_bounds(s, i + 1);
    }
}

/// Quote state after `v[from..to]`: `Some(c)` while inside an unterminated `c`-quoted string.
fn quote_state(v: &[char], from: usize, to: usize, quote_char: Option<char>) -> (r: Option<char>)
    requires
        from <= to <= v@.len(),
    ensures
        r == quote_after(v@.subrange(from as int, to as int), 0, quote_char),
{
    let ghost s = v@.subrange(from as int, to as int);
    let mut quote: Option<char> = quote_char;
    let mut i: usize = from;
    while i < to
        invariant
            from <= i <= to <= v@.len(),
            s == v@.subrange(from as int, to as int),
            quote_after(s, 0, quote_char) == quote_after(s, i - from, quote),
        decreases to - i,
    {
        let c = v[i];
        let escaped = i > from && v[i - 1] == '\\';
        if (c == '"' || c == '\'') && !escaped {
            match quote {
                Some(q) => {
                    if q == c {
                        quote = None;
                    }
                },
                None => {
                    quote = Some(c);
                },
            }
        }
        i += 1;
    }
    quote
}

/// How often `a b` stands in `v[from..to]`, without overlap.
fn count_pairs(v: &[char], from: usize, to: usize, a: char, b: char) -> (r: usize)
    requires
        from <= to <= v@.len(),
    ensures
        r == pairs_from(v@.subrange(from as int, to as int), a, b, 0),
        r <= to - from,
{
    let ghost s = v@.subrange(from as int, to as int);
    let mut n: usize = 0;
    let mut i: usize = from;
    while i < to && to - i >= 2
        invariant
            from <= i <= to <= v@.len(),
            n <= i - from,
            s == v@.subrange(from as int, to as int),
            pairs_from(s, a, b, 0) == n + pairs_from(s, a, b, i - from),
        decreases to - i,
    {
        if v[i] == a && v[i + 1] == b {
            n += 1;
            i += 2;
        } else {
            i += 1;
        }
    }
    n
}

/// A depth after a token, never below zero.
fn next_depth(
    depth: usize,
    v: &[char],
    from: usize,
    to: usize,
    a: char,
    b: char,
    c: char,
    d: char,
) -> (r: usize)
    requires
        depth <= from <= to <= v@.len(),
    ensures
        r == depth_after(depth as int, v@.subrange(from as int, to as int), a, b, c, d),
        r <= to,
{
    let up = count_pairs(v, from, to, a, b);
    let down = count_pairs(v, from, to, c, d);
    if depth + up <= down {
        0
    } else {
        depth + up - down
    }
}

fn push_param(params: &mut Vec<String>, v: &[char], from: usize, to: usize)
    requires
        from <= to <= v@.len(),
    ensures
        texts(final(params)@) == texts(old(params)@).push(v@.subrange(from as int, to as int)),
{
    let ghost before = texts(params@);
    params.push(from_chars(v, from, to));
    assert(texts(params@) =~= before.push(v@.subrange(from as int, to as int)));
}

/// More text at the end of the last parameter: a blank where `spaced`, then `v[from..to]`.
fn extend_param(params: &mut Vec<String>, spaced: bool, v: &[char], from: usize, to: usize)
    requires
        from <= to <= v@.len(),
    ensures
        texts(final(params)@) == extend_last(
            texts(old(params)@),
            if spaced {
                seq![' '] + v@.subrange(from as int, to as int)
            } else {
                v@.subrange(from as int, to as int)
            },
        ),
{
    let ghost before = texts(params@);
    let ghost token = v@.subrange(from as int, to as int);
    let ghost more = if spaced {
        seq![' '] + token
    } else {
        token
    };
    let mut last = match params.pop() {
        Some(s) => s,
        None => String::new(),
    };
    let ghost old_last = last@;
    if spaced {
        last.push(' ');
    }
    let token_text = from_chars(v, from, to);
    last.append(token_text.as_str());
    assert(last@ =~= old_last + more);
    params.push(last);
    assert(texts(params@) =~= extend_last(before, more));
}

/// Whitespace split that keeps quoted strings and Jinja blocks (`{{ }}`, `{% %}`, `{# #}`)
/// intact, with their inner spacing. Unbalanced quotes and blocks are an error.
pub fn split_args(args: &str) -> (r: Result<Vec<String>, String>)
    ensures
        match r {
            Ok(params) => split_of(args@) == Ok::<Seq<Seq<char>>, Seq<char>>(texts(params@)),
            Err(msg) => split_of(args@) == Err::<Seq<Seq<char>>, Seq<char>>(msg@),
        },
{
    let v = to_chars(args);
    let n: usize = v.len();
    let ghost s = args@;
    let ghost whole = split_from(split_start(), s, 0, 0);
    let mut params: Vec<String> = Vec::new();
    let mut quote_char: Option<char> = None;
    let mut print_depth: usize = 0;
    let mut block_depth: usize = 0;
    let mut comment_depth: usize = 0;
    let mut line_continuation = false;
    let mut i: usize = 0;
    let mut idx: usize = 0;
    let mut more = true;
    assert(texts(params@) =~= Seq::empty());
    while more
        invariant
            v@ == s,
            n == v@.len(),
            i <= n,
            idx <= i,
            print_depth <= i,
            block_depth <= i,
            comment_depth <= i,
            whole == ({
                let st = Split {
                    params: texts(params@),
                    quote: quote_char,
                    print: print_depth as int,
                    block: block_depth as int,
                    comment: comment_depth as int,
                    continued: line_continuation,
                };
                if more {
                    split_from(st, s, i as int, idx as int)
                } else {
                    st
                }
            }),
        decreases n - i, (if more { 1int } else { 0int }),
    {
        let mut e: usize = i;
        while e < n && v[e] != ' ' && v[e] != '\n'
            invariant
                v@ == s,
                n == v@.len(),
                i <= e <= n,
                token_end(s, i as int) == token_end(s, e as int),
            decreases n - e,
        {
            e += 1;
        }
        let ghost token = s.subrange(i as int, e as int);
        let ghost before = Split {
            params: texts(params@),
            quote: quote_char,
            print: print_depth as int,
            block: block_depth as int,
            comment: comment_depth as int,
            continued: line_continuation,
        };
        if e == i && idx != 0 {
            assert(seq![' '] + token =~= seq![' ']);
            extend_param(&mut params, true, &v, i, i);
        } else if e - i == 1 && v[i] == '\\' && quote_char.is_none() {
            assert(token =~= seq!['\\']);
            line_continuation = true;
        } else {
            assert(token == seq!['\\'] ==> token[0] == '\\' && token.len() == 1);
            let was_inside_quotes = quote_char.is_some();
            let in_block = print_depth > 0 || block_depth > 0 || comment_depth > 0;
            quote_char = quote_state(&v, i, e, quote_char);
            let inside_quotes = quote_char.is_some();
            let print = next_depth(print_depth, &v, i, e, '{', '{', '}', '}');
            let block = next_depth(block_depth, &v, i, e, '{', '%', '%', '}');
            let comment = next_depth(comment_depth, &v, i, e, '{', '#', '#', '}');
            let moved = print != print_depth || block != block_depth || comment != comment_depth;
            if inside_quotes && !was_inside_quotes && !in_block {
                push_param(&mut params, &v, i, e);
            } else if in_block || inside_quotes || was_inside_quotes {
                extend_param(&mut params, idx > 0, &v, i, e);
            } else if moved || e > i {
                push_param(&mut params, &v, i, e);
            }
            print_depth = print;
            block_depth = block;
            comment_depth = comment;
        }
        assert(Split {
            params: texts(params@),
            quote: quote_char,
            print: print_depth as int,
            block: block_depth as int,
            comment: comment_depth as int,
            continued: line_continuation,
        } == step(before, token, idx as int));
        if e == n {
            i = n;
            more = false;
        } else if v[e] == ' ' {
            i = e + 1;
            idx += 1;
        } else {
            if !line_continuation {
                let nl: [char; 1] = ['\n'];
                extend_param(&mut params, false, &nl, 0, 1);
                assert(nl@.subrange(0, 1) =~= seq!['\n']);
            }
            line_continuation = false;
            i = e + 1;
            idx = 0;
        }
    }
    if print_depth > 0 || block_depth > 0 || comment_depth > 0 || quote_char.is_some() {
        let mut msg =
            "failed at splitting arguments, either an unbalanced jinja2 block or quotes: ".to_owned();
        msg.append(args);
        return Err(msg);
    }
    Ok(params)
}

/// The number that hexadecimal digits spell.
pub open spec fn hex_value(s: Seq<char>) -> int
    decreases s.len(),
{
    if s.len() == 0 {
        0
    } else {
        hex_value(s.drop_last()) * 16 + match text::hex_digit(s.last()) {
            Some(d) => d,
            None => 0,
        }
    }
}

/// Are there `n` hexadecimal digits at index `i`?
pub open spec fn hex_run(s: Seq<char>, i: int, n: int) -> bool {
    0 <= i && i + n <= s.len() && forall|k: int| i <= k < i + n ==> text::hex_digit(#[trigger] s[k]) is Some
}

/// The first closing brace at or after `i`.
pub open spec fn brace_from(s: Seq<char>, i: int) -> Option<int>
    decreases s.len() - i,
{
    if i < 0 || i >= s.len() {
        None
    } else if s[i] == '}' {
        Some(i)
    } else {
        brace_from(s, i + 1)
    }
}

/// The length of the escape sequence at index `i`, where there is one: a backslash and
/// `U` with eight hexadecimal digits, `u` with four, `x` with two, `N` with a name in braces, or
/// one of the single characters.
pub open spec fn escape_len(s: Seq<char>, i: int) -> Option<int> {
    if i < 0 || i + 1 >= s.len() || s[i] != '\\' {
        None
    } else {
        let c = s[i + 1];
        if c == 'U' {
            if hex_run(s, i + 2, 8) {
                Some(10)
            } else {
                None
            }
        } else if c == 'u' {
            if hex_run(s, i + 2, 4) {
                Some(6)
            } else {
                None
            }
        } else if c == 'x' {
            if hex_run(s, i + 2, 2) {
                Some(4)
            } else {
                None
            }
        } else if c == 'N' {
            if i + 3 < s.len() && s[i + 2] == '{' && s[i + 3] != '}' {
                match brace_from(s, i + 3) {
                    Some(k) => Some(k + 1 - i),
                    None => None,
                }
            } else {
                None
            }
        } else if text::simple_escape(c) is Some {
            Some(2)
        } else {
            None
        }
    }
}

/// What an escape sequence stands for. A code that is no character stays as it is, and so does a
/// name.
pub open spec fn unescaped(m: Seq<char>) -> Seq<char> {
    if m.len() < 2 {
        m
    } else if m[1] == 'U' || m[1] == 'u' || m[1] == 'x' {
        let code = hex_value(m.subrange(2, m.len() as int));
        if code <= u32::MAX && vstd::utf8::is_scalar(code as u32) {
            seq![code as u32 as char]
        } else {
            m
        }
    } else {
        match text::simple_escape(m[1]) {
            Some(c) => seq![c],
            None => m,
        }
    }
}

/// `s[i..]` with every escape sequence replaced by what it stands for.
pub open spec fn decoded_from(s: Seq<char>, i: int) -> Seq<char>
    decreases s.len() - i,
{
    if i < 0 || i >= s.len() {
        Seq::empty()
    } else {
        match escape_len(s, i) {
            Some(n) => if 0 < n <= s.len() - i {
                unescaped(s.subrange(i, i + n)) + decoded_from(s, i + n)
            } else {
                Seq::empty()
            },
            None => seq![s[i]] + decoded_from(s, i + 1),
        }
    }
}

/// `regex::Regex::replace_all` with the pattern of the escape sequences: every match, from left
/// to right and without overlap, is replaced by what [`unescape`] gives for it, and the rest stays.
/// The alternatives of the pattern differ in the character behind the backslash, so at most one of
/// them matches at a place.
#[verifier::external_body]
fn decode_escapes(s: &str) -> (r: String)
    ensures
        r@ == decoded_from(s@, 0),
{
    let pattern = r#"\\U[0-9a-fA-F]{8}|\\u[0-9a-fA-F]{4}|\\x[0-9a-fA-F]{2}|\\N\{[^}]+\}|\\[\\'"abfnrtv]"#;
    let escapes = Regex::new(pattern).unwrap();
    escapes.replace_all(s, |caps: &regex::Captures| unescape(&caps[0])).into_owned()
}

/// The number that the hexadecimal digits `v[2..]` spell, where it fits.
fn escape_code(v: &[char]) -> (r: Option<u32>)
    requires
        v@.len() >= 2,
    ensures
        match r {
            Some(code) => code == hex_value(v@.subrange(2, v@.len() as int)),
            None => hex_value(v@.subrange(2, v@.len() as int)) > u32::MAX,
        },
{
    let n: usize = v.len();
    let ghost digits = v@.subrange(2, n as int);
    let mut code: u64 = 0;
    let mut i: usize = 2;
    assert(digits.subrange(0, 0) =~= Seq::empty());
    while i < n
        invariant
            2 <= i <= n == v@.len(),
            digits == v@.subrange(2, n as int),
            code <= u32::MAX,
            code == hex_value(digits.subrange(0, i - 2)),
        decreases n - i,
    {
        let d: u64 = match hex_digit_value(v[i]) {
            Some(d) => d as u64,
            None => 0,
        };
        assert(digits.subrange(0, i - 1).drop_last() =~= digits.subrange(0, i - 2));
        code = code * 16 + d;
        i += 1;
        if code > u32::MAX as u64 {
            proof {
                hex_value_grows(digits, i - 2);
            }
            return None;
        }
    }
    assert(digits.subrange(0, n - 2) =~= digits);
    Some(code as u32)
}

/// More digits spell no smaller a number.
proof fn hex_value_grows(s: Seq<char>, k: int)
    requires
        0 <= k <= s.len(),
    ensures
        0 <= hex_value(s.subrange(0, k)) <= hex_value(s),
    decreases s.len(),
{
    if s.len() == 0 {
        assert(s.subrange(0, k) =~= s);
    } else if k == s.len() {
        assert(s.subrange(0, k) =~= s);
        hex_value_grows(s.drop_last(), 0);
    } else {
        hex_value_grows(s.drop_last(), k);
        assert(s.drop_last().subrange(0, k) =~= s.subrange(0, k));
    }
    assert(s.subrange(0, 0) =~= Seq::empty());
}

/// What an escape sequence stands for. `\N{...}` is passed through: it would take the table of
/// Unicode names.
pub fn unescape(m: &str) -> (r: String)
    ensures
        r@ == unescaped(m@),
{
    let v = to_chars(m);
    let mut out = String::new();
    if v.len() < 2 {
        return m.to_owned();
    }
    let c = v[1];
    if c == 'U' || c == 'u' || c == 'x' {
        match escape_code(&v) {
            Some(code) => match char::from_u32(code) {
                Some(ch) => {
                    out.push(ch);
                    proof {
                        vstd::utf8::char_u32_cast(ch, code);
                    }
                    assert(out@ =~= unescaped(m@));
                    return out;
                },
                None => return m.to_owned(),
            },
            None => return m.to_owned(),
        }
    }
    let plain = match plain_escape(c) {
        Some(plain) => plain,
        None => return m.to_owned(),
    };
    out.push(plain);
    assert(out@ =~= unescaped(m@));
    out
}

/// `s` without one layer of matching outer quotes, unless the closing one is escaped.
pub open spec fn unquoted(s: Seq<char>) -> Seq<char> {
    let n = s.len() as int;
    if n > 1 && s[0] == s[n - 1] && (s[0] == '"' || s[0] == '\'') && s[n - 2] != '\\' {
        s.subrange(1, n - 1)
    } else {
        s
    }
}

/// Strip one layer of matching outer quotes, unless the closing quote is escaped.
pub fn unquote(s: &str) -> (r: &str)
    ensures
        r@ == unquoted(s@),
{
    let c = to_chars(s);
    let n: usize = c.len();
    if n > 1 && c[0] == c[n - 1] && (c[0] == '"' || c[0] == '\'') && c[n - 2] != '\\' {
        s.substring_char(1, n - 1)
    } else {
        s
    }
}

/// The texts from index `i` on, behind `acc`: one blank before each, unless nothing or a line
/// feed stands there.
pub open spec fn joined_from(parts: Seq<Seq<char>>, i: int, acc: Seq<char>) -> Seq<char>
    decreases parts.len() - i,
{
    if i < 0 || i >= parts.len() {
        acc
    } else {
        joined_from(parts, i + 1, joined_with(acc, parts[i]))
    }
}

pub open spec fn joined_with(acc: Seq<char>, part: Seq<char>) -> Seq<char> {
    if acc.len() > 0 && acc.last() != '\n' {
        acc.push(' ') + part
    } else {
        acc + part
    }
}

/// Rejoin split parameters with the whitespace that [`split_args`] preserved.
pub fn join_args(parts: &[String]) -> (r: String)
    ensures
        r@ == joined_from(texts(parts@), 0, Seq::empty()),
{
    let ghost all = texts(parts@);
    let n: usize = parts.len();
    let mut result = String::new();
    let mut gap = false;
    let mut i: usize = 0;
    while i < n
        invariant
            all == texts(parts@),
            i <= n == parts@.len(),
            gap == (result@.len() > 0 && result@.last() != '\n'),
            joined_from(all, 0, Seq::empty()) == joined_from(all, i as int, result@),
        decreases n - i,
    {
        assert(all[i as int] == parts@[i as int]@);
        if gap {
            result.push(' ');
        }
        let part = to_chars(parts[i].as_str());
        let ghost before = result@;
        result.append(parts[i].as_str());
        let len: usize = part.len();
        if len > 0 {
            gap = part[len - 1] != '\n';
            assert(result@.last() == part@.last());
        } else {
            assert(result@ =~= before);
        }
        i += 1;
    }
    result
}

/// The first `=` at or behind index `i` that no backslash precedes.
pub open spec fn equals_from(s: Seq<char>, i: int) -> Option<int>
    decreases s.len() - i,
{
    if i < 1 || i >= s.len() {
        None
    } else if s[i] == '=' && s[i - 1] != '\\' {
        Some(i)
    } else {
        equals_from(s, i + 1)
    }
}

/// `s[i..]` with every `\=` replaced by `=`.
pub open spec fn plain_equals(s: Seq<char>, i: int) -> Seq<char>
    decreases s.len() - i,
{
    if i < 0 || i >= s.len() {
        Seq::empty()
    } else if s[i] == '\\' && i + 1 < s.len() && s[i + 1] == '=' {
        seq!['='] + plain_equals(s, i + 2)
    } else {
        seq![s[i]] + plain_equals(s, i + 1)
    }
}

/// The options with `key` set to `value`.
pub open spec fn with_option(
    options: Seq<(Seq<char>, Seq<char>)>,
    key: Seq<char>,
    value: Seq<char>,
) -> Seq<(Seq<char>, Seq<char>)> {
    match option_index(options, key, 0) {
        Some(i) => options.update(i, (key, value)),
        None => options.push((key, value)),
    }
}

/// The options and the raw tokens of the tokens from index `i` on, behind those found so far.
pub open spec fn sorted_out(
    tokens: Seq<Seq<char>>,
    i: int,
    check_raw: bool,
    options: Seq<(Seq<char>, Seq<char>)>,
    raw: Seq<Seq<char>>,
) -> (Seq<(Seq<char>, Seq<char>)>, Seq<Seq<char>>)
    decreases tokens.len() - i,
{
    if i < 0 || i >= tokens.len() {
        (options, raw)
    } else {
        let orig = tokens[i];
        let x = decoded_from(orig, 0);
        match equals_from(x, 1) {
            Some(p) => {
                let k = x.subrange(0, p);
                let v = x.subrange(p + 1, x.len() as int);
                if check_raw && !keywords::listed(RAW_OK_KEYS@, k) {
                    sorted_out(tokens, i + 1, check_raw, options, raw.push(orig))
                } else {
                    sorted_out(
                        tokens,
                        i + 1,
                        check_raw,
                        with_option(options, text::trim(k), unquoted(text::trim(v))),
                        raw,
                    )
                }
            },
            None => if x.contains('=') {
                sorted_out(tokens, i + 1, check_raw, options, raw.push(plain_equals(x, 0)))
            } else {
                sorted_out(tokens, i + 1, check_raw, options, raw.push(orig))
            },
        }
    }
}

/// What the tokens of a free-form value say.
pub open spec fn kv_of_tokens(tokens: Seq<Seq<char>>, check_raw: bool) -> KvModel {
    let (options, raw) = sorted_out(tokens, 0, check_raw, Seq::empty(), Seq::empty());
    KvModel {
        options,
        raw_params: if raw.len() > 0 {
            Some(joined_from(raw, 0, Seq::empty()))
        } else {
            None
        },
    }
}

fn find_equals(v: &[char]) -> (r: Option<usize>)
    ensures
        r is Some == equals_from(v@, 1) is Some,
        r is Some ==> equals_from(v@, 1) == Some(r->0 as int) && 1 <= r->0 < v@.len(),
{
    let n: usize = v.len();
    let mut i: usize = 1;
    while i < n
        invariant
            1 <= i,
            n == v@.len(),
            equals_from(v@, 1) == equals_from(v@, i as int),
        decreases n - i,
    {
        if v[i] == '=' && v[i - 1] != '\\' {
            return Some(i);
        }
        i += 1;
    }
    None
}

fn has_equals(v: &[char]) -> (r: bool)
    ensures
        r == v@.contains('='),
{
    let mut i: usize = 0;
    while i < v.len()
        invariant
            i <= v@.len(),
            forall|j: int| 0 <= j < i ==> v@[j] != '=',
        decreases v@.len() - i,
    {
        if v[i] == '=' {
            assert(v@[i as int] == '=');
            return true;
        }
        i += 1;
    }
    false
}

fn unescape_equals(v: &[char]) -> (r: String)
    ensures
        r@ == plain_equals(v@, 0),
{
    let n: usize = v.len();
    let mut out = String::new();
    let mut i: usize = 0;
    assert(Seq::<char>::empty() + plain_equals(v@, 0) =~= plain_equals(v@, 0));
    while i < n
        invariant
            i <= n == v@.len(),
            plain_equals(v@, 0) == out@ + plain_equals(v@, i as int),
        decreases n - i,
    {
        let ghost before = out@;
        let ghost at = i as int;
        if v[i] == '\\' && n - i > 1 && v[i + 1] == '=' {
            out.push('=');
            i += 2;
        } else {
            out.push(v[i]);
            i += 1;
        }
        assert(before + plain_equals(v@, at) =~= out@ + plain_equals(v@, i as int));
    }
    assert(out@ + plain_equals(v@, n as int) =~= out@);
    out
}

fn set_option(options: &mut Vec<(String, String)>, key: String, value: String)
    ensures
        option_models(final(options)@) == with_option(option_models(old(options)@), key@, value@),
{
    let ghost before = option_models(options@);
    match find_option(options, key.as_str()) {
        Some(i) => {
            options.set(i, (key, value));
            assert(option_models(options@) =~= before.update(i as int, (key@, value@)));
        },
        None => {
            options.push((key, value));
            assert(option_models(options@) =~= before.push((key@, value@)));
        },
    }
}

fn push_text(out: &mut Vec<String>, s: String)
    ensures
        texts(final(out)@) == texts(old(out)@).push(s@),
{
    let ghost before = texts(out@);
    out.push(s);
    assert(texts(out@) =~= before.push(s@));
}

/// Sort the tokens of a free-form value into options and the rest.
pub fn sort_tokens(tokens: &[String], check_raw: bool) -> (r: ParsedKv)
    ensures
        r.view() == kv_of_tokens(texts(tokens@), check_raw),
{
    let ghost all = texts(tokens@);
    let n: usize = tokens.len();
    let mut options: Vec<(String, String)> = Vec::new();
    let mut raw: Vec<String> = Vec::new();
    let mut i: usize = 0;
    assert(option_models(options@) =~= Seq::empty());
    assert(texts(raw@) =~= Seq::empty());
    while i < n
        invariant
            all == texts(tokens@),
            i <= n == tokens@.len(),
            sorted_out(all, 0, check_raw, Seq::empty(), Seq::empty()) == sorted_out(
                all,
                i as int,
                check_raw,
                option_models(options@),
                texts(raw@),
            ),
        decreases n - i,
    {
        assert(all[i as int] == tokens@[i as int]@);
        let x = decode_escapes(tokens[i].as_str());
        let v = to_chars(x.as_str());
        let len: usize = v.len();
        match find_equals(&v) {
            Some(p) => {
                let k = from_chars(&v, 0, p);
                if check_raw && !in_set(&RAW_OK_KEYS, k.as_str()) {
                    push_text(&mut raw, tokens[i].clone());
                } else {
                    let a = skip_white(&v, 0, p);
                    let b = trimmed_len(&v, a, p);
                    let key = from_chars(&v, a, b);
                    let c = skip_white(&v, p + 1, len);
                    let d = trimmed_len(&v, c, len);
                    let value = from_chars(&v, c, d);
                    set_option(&mut options, key, unquote(value.as_str()).to_owned());
                }
            },
            None => {
                if has_equals(&v) {
                    push_text(&mut raw, unescape_equals(&v));
                } else {
                    push_text(&mut raw, tokens[i].clone());
                }
            },
        }
        i += 1;
    }
    let raw_params = if raw.len() > 0 {
        Some(join_args(&raw))
    } else {
        None
    };
    ParsedKv { options, raw_params }
}

/// The options and the raw rest of a free-form value.
pub fn parse_kv(args: &str, check_raw: bool) -> (r: Result<ParsedKv, String>)
    ensures
        match split_of(args@) {
            Ok(tokens) => r is Ok && r->Ok_0.view() == kv_of_tokens(tokens, check_raw),
            Err(msg) => r is Err && r->Err_0@ == msg,
        },
{
    match split_args(args) {
        Ok(tokens) => Ok(sort_tokens(&tokens, check_raw)),
        Err(msg) => Err(msg),
    }
}

/// What the parameters are when they are joined.
pub open spec fn joined(params: Seq<Seq<char>>) -> Seq<char> {
    joined_from(params, 0, Seq::empty())
}

proof fn join_push(params: Seq<Seq<char>>, part: Seq<char>, i: int, acc: Seq<char>)
    requires
        0 <= i <= params.len(),
    ensures
        joined_from(params.push(part), i, acc) == joined_with(joined_from(params, i, acc), part),
    decreases params.len() - i,
{
    if i < params.len() {
        assert(params.push(part)[i] == params[i]);
        join_push(params, part, i + 1, joined_with(acc, params[i]));
    } else {
        assert(params.push(part)[i] == part);
        assert(joined_from(params.push(part), i + 1, joined_with(acc, part)) == joined_with(
            acc,
            part,
        ));
    }
}

proof fn join_extend(params: Seq<Seq<char>>, more: Seq<char>)
    ensures
        joined(extend_last(params, more)) =~= joined(params) + more,
{
    if params.len() == 0 {
        assert(extend_last(params, more) =~= params.push(more));
        join_push(params, more, 0, Seq::empty());
    } else {
        let before = params.drop_last();
        let last = params.last();
        assert(params =~= before.push(last));
        assert(extend_last(params, more) =~= before.push(last + more));
        join_push(before, last, 0, Seq::empty());
        join_push(before, last + more, 0, Seq::empty());
    }
}

/// Does the token at `i`, the `idx`-th of its line, keep the spacing before it? Outside quotes and
/// blocks a lone backslash is dropped, and so is a single blank that indents a line.
pub open spec fn keeps_spacing(st: Split, s: Seq<char>, i: int, idx: int) -> bool {
    let token = s.subrange(i, token_end(s, i));
    let indented = idx == 1 && (i == 1 || s[i - 2] == '\n');
    &&& !(token == seq!['\\'] && st.quote is None)
    &&& !(indented && token.len() > 0 && st.quote is None && !st.in_block())
}

/// Do all tokens from `i` on keep the spacing before them?
pub open spec fn keeps_all_spacing(st: Split, s: Seq<char>, i: int, idx: int) -> bool
    decreases s.len() + 1 - i,
{
    if i < 0 || i > s.len() {
        true
    } else {
        let e = token_end(s, i);
        let next = step(st, s.subrange(i, e), idx);
        &&& keeps_spacing(st, s, i, idx)
        &&& if e < i || e >= s.len() {
            true
        } else if s[e] == ' ' {
            keeps_all_spacing(next, s, e + 1, idx + 1)
        } else {
            keeps_all_spacing(line_feed(next), s, e + 1, 0)
        }
    }
}

proof fn rejoined_from(st: Split, s: Seq<char>, i: int, idx: int)
    requires
        0 <= i <= s.len(),
        0 <= idx,
        !st.continued,
        idx == 0 ==> joined(st.params) == s.subrange(0, i) && (i == 0 || s[i - 1] == '\n'),
        idx > 0 ==> i > 0 && joined(st.params) == s.subrange(0, i - 1) && s[i - 1] == ' ',
        idx > 1 ==> i > 1 && s[i - 2] != '\n',
        keeps_all_spacing(st, s, i, idx),
    ensures
        joined(split_from(st, s, i, idx).params) == s,
    decreases s.len() + 1 - i,
{
    token_end_bounds(s, i);
    let e = token_end(s, i);
    let token = s.subrange(i, e);
    let next = step(st, token, idx);
    join_push(st.params, token, 0, Seq::empty());
    join_extend(st.params, token);
    join_extend(st.params, seq![' ']);
    join_extend(st.params, seq![' '] + token);
    if idx > 0 {
        assert(s.subrange(0, i - 1).push(' ') =~= s.subrange(0, i));
        assert(s.subrange(0, i - 1) + seq![' '] =~= s.subrange(0, i));
        assert(s.subrange(0, i - 1) + (seq![' '] + token) =~= s.subrange(0, e));
        if i >= 2 {
            assert(s.subrange(0, i - 1).last() == s[i - 2]);
        }
    } else if i > 0 {
        assert(s.subrange(0, i).last() == '\n');
    }
    assert(s.subrange(0, i) + token =~= s.subrange(0, e));
    assert(joined(next.params) =~= s.subrange(0, e));
    if e >= s.len() {
        assert(s.subrange(0, e) =~= s);
    } else if s[e] == ' ' {
        if idx + 1 > 1 {
            last_of_token(s, i);
        }
        rejoined_from(next, s, e + 1, idx + 1);
    } else {
        join_extend(next.params, seq!['\n']);
        assert(s.subrange(0, e) + seq!['\n'] =~= s.subrange(0, e + 1));
        rejoined_from(line_feed(next), s, e + 1, 0);
    }
}

/// A token holds no line feed.
proof fn last_of_token(s: Seq<char>, i: int)
    requires
        0 <= i <= s.len(),
    ensures
        token_end(s, i) > i ==> s[token_end(s, i) - 1] != '\n',
    decreases s.len() - i,
{
    if i < s.len() && s[i] != ' ' && s[i] != '\n' {
        last_of_token(s, i + 1);
    }
}

/// Joining undoes splitting: where no token outside quotes and blocks is a lone backslash or
/// follows the single blank that indents its line, the parameters join back to the text.
pub proof fn join_undoes_split(s: Seq<char>)
    requires
        keeps_all_spacing(split_start(), s, 0, 0),
    ensures
        split_of(s) is Ok ==> joined(split_of(s)->Ok_0) == s,
{
    assert(s.subrange(0, 0) =~= Seq::empty());
    rejoined_from(split_start(), s, 0, 0);
}

/// A text without blanks, line feeds, quotes, braces and backslashes is one parameter, unchanged.
pub proof fn a_plain_word_is_one_parameter(s: Seq<char>)
    requires
        s.len() > 0,
        forall|k: int|
            0 <= k < s.len() ==> s[k] != ' ' && s[k] != '\n' && s[k] != '"' && s[k] != '\''
                && s[k] != '{' && s[k] != '}' && s[k] != '\\',
    ensures
        split_of(s) == Ok::<Seq<Seq<char>>, Seq<char>>(seq![s]),
{
    plain_token_end(s, 0);
    assert(s.subrange(0, s.len() as int) =~= s);
    plain_quotes(s, 0);
    plain_pairs(s, '{', '{', 0);
    plain_pairs(s, '}', '}', 0);
    plain_pairs(s, '{', '%', 0);
    plain_pairs(s, '%', '}', 0);
    plain_pairs(s, '{', '#', 0);
    plain_pairs(s, '#', '}', 0);
    if s == seq!['\\'] {
        assert(s[0] == '\\');
    }
    assert(Seq::<Seq<char>>::empty().push(s) =~= seq![s]);
}

proof fn plain_token_end(s: Seq<char>, i: int)
    requires
        0 <= i <= s.len(),
        forall|k: int| 0 <= k < s.len() ==> s[k] != ' ' && s[k] != '\n',
    ensures
        token_end(s, i) == s.len(),
    decreases s.len() - i,
{
    if i < s.len() {
        plain_token_end(s, i + 1);
    }
}

proof fn plain_quotes(s: Seq<char>, i: int)
    requires
        0 <= i <= s.len(),
        forall|k: int| 0 <= k < s.len() ==> s[k] != '"' && s[k] != '\'',
    ensures
        quote_after(s, i, None) is None,
    decreases s.len() - i,
{
    if i < s.len() {
        plain_quotes(s, i + 1);
    }
}

proof fn plain_pairs(s: Seq<char>, a: char, b: char, i: int)
    requires
        0 <= i <= s.len(),
        a == '{' || b == '}',
        forall|k: int| 0 <= k < s.len() ==> s[k] != '{' && s[k] != '}',
    ensures
        pairs_from(s, a, b, i) == 0,
    decreases s.len() - i,
{
    if i + 1 < s.len() {
        plain_pairs(s, a, b, i + 1);
    }
}

} // verus!
