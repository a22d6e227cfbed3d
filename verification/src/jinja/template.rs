//! The document grammar: splitting a template into the blocks that it is made of.
//!
//! Everything here is lexical rather than syntactic, which is why it cannot be approximated by
//! searching for `{%`:
//!
//! - `{% raw %}` is a lexer *state*. An `{% include %}` inside one is literal text.
//! - `{# … #}` is its own state, and a `{%` inside a comment is text.
//! - a `%}` inside brackets does not close the tag: `{% if x[1 %} ] %}` is one tag.
//! - neither does a `%}` inside a string: `{% if x == '%}' %}` is one tag.

use crate::jinja::lexer::{self, Cause, Error, ErrorModel};
use crate::keywords::{self, in_set};
use crate::parse::{self, Span};
use crate::text::{self, copy_chars, encoded_len, find_byte_or, find_bytes_from, from_chars};
use crate::text::{has_bytes_at, is_alphanumeric, skip_white, starts_with, str_eq, to_chars};
use crate::text::trimmed_len;
use vstd::prelude::*;
use vstd::utf8::encode_utf8;

verus! {

/// What a template is read with. The `template:` module takes these as parameters, and a template
/// may open with a `#jinja2:` line that sets any of them.
#[derive(Debug, PartialEq, Eq)]
pub struct Delimiters {
    pub block_start: String,
    pub block_end: String,
    pub variable_start: String,
    pub variable_end: String,
    pub comment_start: String,
    pub comment_end: String,
    pub line_statement_prefix: Option<String>,
    pub line_comment_prefix: Option<String>,
}

/// What [`Delimiters`] say.
pub struct Delims {
    pub block_start: Seq<char>,
    pub block_end: Seq<char>,
    pub variable_start: Seq<char>,
    pub variable_end: Seq<char>,
    pub comment_start: Seq<char>,
    pub comment_end: Seq<char>,
    pub line_statement_prefix: Option<Seq<char>>,
    pub line_comment_prefix: Option<Seq<char>>,
}

/// What an optional text says.
pub open spec fn optional_text(s: Option<String>) -> Option<Seq<char>> {
    match s {
        Some(s) => Some(s@),
        None => None,
    }
}

impl Delimiters {
    pub open spec fn view(&self) -> Delims {
        Delims {
            block_start: self.block_start@,
            block_end: self.block_end@,
            variable_start: self.variable_start@,
            variable_end: self.variable_end@,
            comment_start: self.comment_start@,
            comment_end: self.comment_end@,
            line_statement_prefix: optional_text(self.line_statement_prefix),
            line_comment_prefix: optional_text(self.line_comment_prefix),
        }
    }
}

impl Clone for Delimiters {
    fn clone(&self) -> (r: Self)
        ensures
            r.view() == self.view(),
    {
        Delimiters {
            block_start: self.block_start.clone(),
            block_end: self.block_end.clone(),
            variable_start: self.variable_start.clone(),
            variable_end: self.variable_end.clone(),
            comment_start: self.comment_start.clone(),
            comment_end: self.comment_end.clone(),
            line_statement_prefix: match &self.line_statement_prefix {
                Some(s) => Some(s.clone()),
                None => None,
            },
            line_comment_prefix: match &self.line_comment_prefix {
                Some(s) => Some(s.clone()),
                None => None,
            },
        }
    }
}

/// The delimiters of a template that sets none.
pub open spec fn default_delims() -> Delims {
    Delims {
        block_start: "{%"@,
        block_end: "%}"@,
        variable_start: "{{"@,
        variable_end: "}}"@,
        comment_start: "{#"@,
        comment_end: "#}"@,
        line_statement_prefix: None,
        line_comment_prefix: None,
    }
}

impl Default for Delimiters {
    fn default() -> (r: Self)
        ensures
            r.view() == default_delims(),
    {
        Delimiters {
            block_start: "{%".to_owned(),
            block_end: "%}".to_owned(),
            variable_start: "{{".to_owned(),
            variable_end: "}}".to_owned(),
            comment_start: "{#".to_owned(),
            comment_end: "#}".to_owned(),
            line_statement_prefix: None,
            line_comment_prefix: None,
        }
    }
}

#[derive(Debug, Clone, Copy, PartialEq, Eq, Structural)]
pub enum Kind {
    /// Literal text, including the body of a `{% raw %}`.
    Data,
    /// `{# … #}`.
    Comment,
    /// `{% … %}`: `inner` is the part a statement parser reads.
    Statement,
    /// `{{ … }}`: `inner` is one expression.
    Expression,
}

/// One block of a template. `span` covers the delimiters, `inner` only the content between them;
/// the two differ for everything but [`Kind::Data`].
#[derive(Debug, Clone, Copy, PartialEq, Eq, Structural)]
pub struct Block {
    pub kind: Kind,
    pub span: Span,
    pub inner: Span,
}

/// What opens a block.
#[derive(Debug, Clone, Copy, PartialEq, Eq, Structural)]
pub enum Opener {
    Comment,
    Statement,
    Expression,
    /// `line_statement_prefix`: the rest of the line is the body of a statement.
    LineStatement,
    /// `line_comment_prefix`: the rest of the line is the body of a comment.
    LineComment,
}

/// Where a scan stands.
pub struct Scan {
    pub i: int,
    pub out: Seq<Block>,
    /// The next data loses the whitespace at its start: a `raw` or `endraw` tag closed with `-`.
    pub trim: bool,
}

pub open spec fn span(start: int, end: int) -> Span {
    Span { start: start as usize, end: end as usize }
}

pub open spec fn data_block(start: int, end: int) -> Block {
    Block { kind: Kind::Data, span: span(start, end), inner: span(start, end) }
}

/// The bytes of whitespace at the start of the text between two offsets.
pub open spec fn lead_white(src: Seq<char>, start: int, end: int) -> int {
    let t = parse::text_between(src, start, end);
    encode_utf8(t).len() - encode_utf8(text::trim_start(t)).len()
}

/// The bytes of the text between two offsets without the whitespace at its end.
pub open spec fn trimmed(src: Seq<char>, start: int, end: int) -> int {
    encode_utf8(text::trim_end(parse::text_between(src, start, end))).len() as int
}

/// Data from `start` to `end`, where there is any.
pub open spec fn with_data(src: Seq<char>, st: Scan, start: int, end: int) -> Scan {
    let from = if st.trim {
        start + lead_white(src, start, end)
    } else {
        start
    };
    Scan {
        out: if from < end {
            st.out.push(data_block(from, end))
        } else {
            st.out
        },
        trim: false,
        ..st
    }
}

/// The data that was read last, without the whitespace at its end; gone where nothing is left.
pub open spec fn trim_last(src: Seq<char>, out: Seq<Block>) -> Seq<Block> {
    if out.len() == 0 || out.last().kind != Kind::Data {
        out
    } else {
        let s = out.last().span;
        let len = trimmed(src, s.start as int, s.end as int);
        if len == 0 {
            out.drop_last()
        } else {
            out.drop_last().push(data_block(s.start as int, s.start + len))
        }
    }
}

/// A horizontal blank: space, tab or vertical tab.
pub open spec fn gap(c: u8) -> bool {
    c == 32 || c == 9 || c == 11
}

/// The first of the blanks that end at `j`, not before `low`.
pub open spec fn gap_start(b: Seq<u8>, low: int, j: int) -> int
    decreases j - low,
{
    if j <= low || j <= 0 || j > b.len() || !gap(b[j - 1]) {
        j
    } else {
        gap_start(b, low, j - 1)
    }
}

/// The end of the blanks that begin at `k`.
pub open spec fn gap_end(b: Seq<u8>, k: int) -> int
    decreases b.len() - k,
{
    if k < 0 || k >= b.len() || !gap(b[k]) {
        k
    } else {
        gap_end(b, k + 1)
    }
}

/// Does text, neither a blank nor a line feed, end at `k`?
pub open spec fn text_before(b: Seq<u8>, k: int) -> bool {
    0 < k <= b.len() && b[k - 1] != 10 && !gap(b[k - 1])
}

/// Where a line tag with this prefix begins, at or after `from`, when the scan stands at `low`. The
/// prefix of a statement must open its line, with only blanks before it; that of a comment may
/// also follow text. The blanks before it belong to the tag.
pub open spec fn line_tag_from(
    b: Seq<u8>,
    prefix: Seq<u8>,
    comment: bool,
    low: int,
    from: int,
) -> Option<int>
    decreases b.len() - from,
{
    match text::find_bytes(b, prefix, from) {
        None => None,
        Some(at) => {
            let j = gap_start(b, low, at);
            let opens_line = j == 0 || (0 < j <= b.len() && b[j - 1] == 10);
            if opens_line || (comment && (text_before(b, j) || text_before(b, at))) {
                Some(j)
            } else if from <= at < b.len() {
                line_tag_from(b, prefix, comment, low, at + 1)
            } else {
                None
            }
        },
    }
}

/// Where a line tag with this prefix begins, at or after `i`. An empty prefix opens nothing.
pub open spec fn line_tag(b: Seq<u8>, prefix: Option<Seq<char>>, comment: bool, i: int) -> Option<
    int,
> {
    match prefix {
        Some(p) => if encode_utf8(p).len() == 0 {
            None
        } else {
            line_tag_from(b, encode_utf8(p), comment, i, i)
        },
        None => None,
    }
}

/// A place where a block opens, how long its opening is, and what it is.
pub type Found = Option<(int, int, Opener)>;

/// The better of two places: the earlier one, and of two at one place the longer. An empty string
/// opens nothing.
pub open spec fn better(best: Found, at: Option<int>, len: int, opener: Opener) -> Found {
    match at {
        None => best,
        Some(at) => match best {
            None => Some((at, len, opener)),
            Some((b_at, b_len, _)) => if at < b_at || (at == b_at && len > b_len) {
                Some((at, len, opener))
            } else {
                best
            },
        },
    }
}

/// Where a string stands at or after `i`; an empty one stands nowhere.
pub open spec fn literal_from(b: Seq<u8>, lit: Seq<char>, i: int) -> Option<int> {
    if encode_utf8(lit).len() == 0 {
        None
    } else {
        text::find_bytes(b, encode_utf8(lit), i)
    }
}

/// How many bytes an optional text takes.
pub open spec fn optional_len(s: Option<Seq<char>>) -> int {
    match s {
        Some(s) => encode_utf8(s).len() as int,
        None => 0,
    }
}

/// The earliest block that opens at or after `i`. Of two at one place the longer opening wins, so
/// a `{{` is not read as a `{`.
#[verifier::opaque]
pub open spec fn next_opener(src: Seq<char>, d: Delims, i: int) -> Found {
    let b = encode_utf8(src);
    let n1 = encode_utf8(d.comment_start).len() as int;
    let n2 = encode_utf8(d.block_start).len() as int;
    let n3 = encode_utf8(d.variable_start).len() as int;
    let a = better(None, literal_from(b, d.comment_start, i), n1, Opener::Comment);
    let c = better(a, literal_from(b, d.block_start, i), n2, Opener::Statement);
    let e = better(c, literal_from(b, d.variable_start, i), n3, Opener::Expression);
    let f = better(
        e,
        line_tag(b, d.line_statement_prefix, false, i),
        optional_len(d.line_statement_prefix),
        Opener::LineStatement,
    );
    better(
        f,
        line_tag(b, d.line_comment_prefix, true, i),
        optional_len(d.line_comment_prefix),
        Opener::LineComment,
    )
}

pub open spec fn is_marker(c: u8) -> bool {
    c == 45 || c == 43
}

pub open spec fn skip_markers(b: Seq<u8>, start: int, end: int) -> int
    decreases end - start,
{
    if 0 <= start < end && start < b.len() && is_marker(b[start]) {
        skip_markers(b, start + 1, end)
    } else {
        start
    }
}

pub open spec fn drop_markers(b: Seq<u8>, start: int, end: int) -> int
    decreases end - start,
{
    if start < end && 0 < end <= b.len() && is_marker(b[end - 1]) {
        drop_markers(b, start, end - 1)
    } else {
        end
    }
}

/// The content of a tag without its whitespace-control markers.
pub open spec fn without_markers(b: Seq<u8>, start: int, end: int) -> Span {
    let from = skip_markers(b, start, end);
    span(from, drop_markers(b, from, end))
}

/// The end of a string literal with this quote, of which `j` is an inner byte.
pub open spec fn string_end(b: Seq<u8>, quote: u8, j: int) -> Option<int>
    decreases b.len() + 2 - j,
{
    if j < 0 || j >= b.len() {
        None
    } else if b[j] == 92 {
        string_end(b, quote, j + 2)
    } else if b[j] == quote {
        Some(j + 1)
    } else {
        string_end(b, quote, j + 1)
    }
}

/// The bracket depth behind a byte; never below zero.
pub open spec fn depth_at(c: u8, depth: int) -> int {
    if c == 40 || c == 91 || c == 123 {
        depth + 1
    } else if (c == 41 || c == 93 || c == 125) && depth > 0 {
        depth - 1
    } else {
        depth
    }
}

/// The place of `end` that closes a tag, looking from `i` on: outside strings, and outside
/// brackets. There is none where a string never closes.
pub open spec fn tag_end(b: Seq<u8>, end: Seq<u8>, i: int, depth: int) -> Option<int>
    decreases b.len() - i,
{
    if i < 0 || i >= b.len() {
        None
    } else if b[i] == 39 || b[i] == 34 {
        match string_end(b, b[i], i + 1) {
            Some(j) => if i < j <= b.len() {
                tag_end(b, end, j, depth)
            } else {
                None
            },
            None => None,
        }
    } else {
        let after = depth_at(b[i], depth);
        if after == 0 && text::bytes_at(b, end, i) {
            Some(i)
        } else {
            tag_end(b, end, i + 1, after)
        }
    }
}

/// The refusal of what opens at `at` and never closes.
pub open spec fn unclosed(src: Seq<char>, msg: Seq<char>, at: int) -> ErrorModel {
    let n = encode_utf8(src).len() as int;
    ErrorModel {
        msg,
        span: span(at, if at + 1 <= n { at + 1 } else { n }),
        cause: Cause::Lex,
    }
}

/// The length of the word that a text begins with: letters, numbers and underscores.
pub open spec fn word_len(s: Seq<char>) -> int
    decreases s.len(),
{
    if s.len() > 0 && (text::alphanumeric(s[0]) || s[0] == '_') {
        1 + word_len(s.subrange(1, s.len() as int))
    } else {
        0
    }
}

/// A text without the markers at its start.
pub open spec fn unmarked(s: Seq<char>) -> Seq<char>
    decreases s.len(),
{
    if s.len() > 0 && (s[0] == '-' || s[0] == '+') {
        unmarked(s.subrange(1, s.len() as int))
    } else {
        s
    }
}

/// The first word of a tag; it may be empty.
pub open spec fn tag_word(inner: Seq<char>) -> Seq<char> {
    let t = text::trim_start(unmarked(inner));
    t.subrange(0, word_len(t))
}

/// Is the byte at `i` a minus?
pub open spec fn minus_at(b: Seq<u8>, i: int) -> bool {
    0 <= i < b.len() && b[i] == 45
}

/// Behind the whitespace at `i`.
pub open spec fn past_white(src: Seq<char>, i: int) -> int {
    i + lead_white(src, i, encode_utf8(src).len() as int)
}

/// The place of the delimiter that closes an `endraw` tag whose opening ends at `open`: a marker,
/// `endraw` and a minus, with whitespace around the word.
pub open spec fn endraw_close(src: Seq<char>, d: Delims, open: int) -> Option<int> {
    let b = encode_utf8(src);
    let a = if 0 <= open < b.len() && is_marker(b[open]) {
        open + 1
    } else {
        open
    };
    let word = past_white(src, a);
    if !text::bytes_at(b, encode_utf8("endraw"@), word) {
        None
    } else {
        let c = past_white(src, word + encode_utf8("endraw"@).len());
        let e = if minus_at(b, c) {
            c + 1
        } else {
            c
        };
        if text::bytes_at(b, encode_utf8(d.block_end), e) {
            Some(e)
        } else {
            None
        }
    }
}

/// The `endraw` tag at or after `at`: where it opens, where its opening ends, and where its closing
/// delimiter stands. A block opening that begins no such tag is text.
pub open spec fn endraw_from(src: Seq<char>, d: Delims, at: int) -> Option<(int, int, int)>
    decreases encode_utf8(src).len() + 1 - at,
{
    let b = encode_utf8(src);
    let start = encode_utf8(d.block_start);
    match text::find_bytes(b, start, at) {
        None => None,
        Some(tag) => {
            let open = tag + start.len();
            match endraw_close(src, d, open) {
                Some(close) => Some((tag, open, close)),
                None => if at < open <= b.len() {
                    endraw_from(src, d, open)
                } else {
                    None
                },
            }
        },
    }
}

/// One step of a scan that stands at an opening of this kind.
#[verifier::opaque]
pub open spec fn scan_block(src: Seq<char>, d: Delims, st: Scan, opener: Opener) -> Result<
    Scan,
    ErrorModel,
> {
    match opener {
        Opener::Comment => scan_comment(src, d, st),
        Opener::Statement => scan_statement(src, d, st),
        Opener::Expression => scan_expression(src, d, st),
        Opener::LineStatement => Ok(
            scan_line_statement(src, st, optional_len(d.line_statement_prefix)),
        ),
        Opener::LineComment => Ok(scan_line_comment(src, st, optional_len(d.line_comment_prefix))),
    }
}

pub open spec fn with_block(st: Scan, kind: Kind, end: int, inner: Span) -> Scan {
    Scan {
        i: end,
        out: st.out.push(Block { kind, span: span(st.i, end), inner }),
        trim: st.trim,
    }
}

pub open spec fn scan_comment(src: Seq<char>, d: Delims, st: Scan) -> Result<Scan, ErrorModel> {
    let b = encode_utf8(src);
    let open = st.i + encode_utf8(d.comment_start).len();
    match text::find_bytes(b, encode_utf8(d.comment_end), open) {
        None => Err(unclosed(src, "Missing end of comment tag"@, st.i)),
        Some(close) => Ok(
            with_block(
                st,
                Kind::Comment,
                close + encode_utf8(d.comment_end).len(),
                without_markers(b, open, close),
            ),
        ),
    }
}

pub open spec fn scan_expression(src: Seq<char>, d: Delims, st: Scan) -> Result<Scan, ErrorModel> {
    let b = encode_utf8(src);
    let open = st.i + encode_utf8(d.variable_start).len();
    match tag_end(b, encode_utf8(d.variable_end), open, 0) {
        None => Err(
            unclosed(
                src,
                "unexpected end of template, expected 'end of print statement'"@,
                st.i,
            ),
        ),
        Some(close) => Ok(
            with_block(
                st,
                Kind::Expression,
                close + encode_utf8(d.variable_end).len(),
                without_markers(b, open, close),
            ),
        ),
    }
}

/// A statement, or a `raw` tag with everything up to its `endraw`, which is data.
pub open spec fn scan_statement(src: Seq<char>, d: Delims, st: Scan) -> Result<Scan, ErrorModel> {
    let b = encode_utf8(src);
    let open = st.i + encode_utf8(d.block_start).len();
    match tag_end(b, encode_utf8(d.block_end), open, 0) {
        None => Err(
            unclosed(
                src,
                "unexpected end of template, expected 'end of statement block'"@,
                st.i,
            ),
        ),
        Some(close) => {
            let end = close + encode_utf8(d.block_end).len();
            let inner = without_markers(b, open, close);
            let body = parse::text_between(src, inner.start as int, inner.end as int);
            if tag_word(body) == "raw"@ {
                let out = if minus_at(b, open) {
                    trim_last(src, st.out)
                } else {
                    st.out
                };
                scan_raw(src, d, Scan { i: st.i, out, trim: minus_at(b, close - 1) }, end)
            } else {
                Ok(with_block(st, Kind::Statement, end, inner))
            }
        },
    }
}

/// The rest of a `raw` tag whose body begins at `body`.
pub open spec fn scan_raw(src: Seq<char>, d: Delims, st: Scan, body: int) -> Result<
    Scan,
    ErrorModel,
> {
    let b = encode_utf8(src);
    match endraw_from(src, d, body) {
        None => Err(unclosed(src, "Missing end of raw directive"@, st.i)),
        Some((tag, open, close)) => {
            let held = with_data(src, st, body, tag);
            Ok(
                Scan {
                    i: close + encode_utf8(d.block_end).len(),
                    out: if minus_at(b, open) {
                        trim_last(src, held.out)
                    } else {
                        held.out
                    },
                    trim: minus_at(b, close - 1),
                },
            )
        },
    }
}

/// Where the body of a line tag begins: past the blanks that it opens with, then past the prefix.
pub open spec fn line_body(b: Seq<u8>, i: int, prefix: int) -> int {
    let k = gap_end(b, i) + prefix;
    if k < b.len() {
        k
    } else {
        b.len() as int
    }
}

/// The last line feed in the run of whitespace from `k` on.
pub open spec fn last_feed(b: Seq<u8>, k: int, last: Option<int>) -> Option<int>
    decreases b.len() - k,
{
    if k < 0 || k >= b.len() || !lexer::blank(b[k]) {
        last
    } else if b[k] == 10 {
        last_feed(b, k + 1, Some(k))
    } else {
        last_feed(b, k + 1, last)
    }
}

/// The rest of the line is the statement. The blank lines behind it belong to the tag.
pub open spec fn scan_line_statement(src: Seq<char>, st: Scan, prefix: int) -> Scan {
    let b = encode_utf8(src);
    let open = line_body(b, st.i, prefix);
    let eol = text::byte_or(b, 10, open, b.len() as int);
    let end = match last_feed(b, eol, None) {
        Some(k) => k + 1,
        None => eol,
    };
    with_block(st, Kind::Statement, end, span(open, open + trimmed(src, open, eol)))
}

/// The rest of the line, without its line feed, is the comment.
pub open spec fn scan_line_comment(src: Seq<char>, st: Scan, prefix: int) -> Scan {
    let b = encode_utf8(src);
    let open = line_body(b, st.i, prefix);
    let eol = text::byte_or(b, 10, open, b.len() as int);
    with_block(st, Kind::Comment, eol, span(open, eol))
}

/// The blocks of a template from where the scan stands.
pub open spec fn scan_from(src: Seq<char>, d: Delims, st: Scan) -> Result<Seq<Block>, ErrorModel>
    decreases encode_utf8(src).len() - st.i,
{
    let n = encode_utf8(src).len() as int;
    if st.i >= n {
        Ok(st.out)
    } else {
        match next_opener(src, d, st.i) {
            None => Ok(with_data(src, st, st.i, n).out),
            Some((at, _, opener)) => {
                let here = Scan { i: at, ..with_data(src, st, st.i, at) };
                match scan_block(src, d, here, opener) {
                    Ok(next) => if st.i < next.i <= n {
                        scan_from(src, d, next)
                    } else {
                        Ok(next.out)
                    },
                    Err(e) => Err(e),
                }
            },
        }
    }
}

/// How many bytes open a block of this kind.
pub open spec fn open_len(d: Delims, kind: Kind) -> int {
    match kind {
        Kind::Comment => encode_utf8(d.comment_start).len() as int,
        Kind::Statement => encode_utf8(d.block_start).len() as int,
        Kind::Expression => encode_utf8(d.variable_start).len() as int,
        Kind::Data => 0,
    }
}

/// How many bytes close a block of this kind.
pub open spec fn close_len(d: Delims, kind: Kind) -> int {
    match kind {
        Kind::Comment => encode_utf8(d.comment_end).len() as int,
        Kind::Statement => encode_utf8(d.block_end).len() as int,
        Kind::Expression => encode_utf8(d.variable_end).len() as int,
        Kind::Data => 0,
    }
}

/// `{%-`: the whitespace before the tag goes.
pub open spec fn opens_minus(b: Seq<u8>, d: Delims, block: Block) -> bool {
    block.kind != Kind::Data && minus_at(b, block.span.start + open_len(d, block.kind))
}

/// `-%}`: the whitespace behind the tag goes.
pub open spec fn closes_minus(b: Seq<u8>, d: Delims, block: Block) -> bool {
    let at = block.span.end - close_len(d, block.kind);
    block.kind != Kind::Data && at > block.span.start && minus_at(b, at - 1)
}

/// The data before a block, without the whitespace at its end where the block opens with a minus.
pub open spec fn trim_before(src: Seq<char>, d: Delims, out: Seq<Block>, k: int) -> Seq<Block> {
    if k > 0 && out[k - 1].kind == Kind::Data && opens_minus(encode_utf8(src), d, out[k]) {
        let s = out[k - 1].span;
        out.update(
            k - 1,
            data_block(s.start as int, s.start + trimmed(src, s.start as int, s.end as int)),
        )
    } else {
        out
    }
}

/// The data behind a block, without the whitespace at its start where the block closes with a
/// minus.
pub open spec fn trim_behind(src: Seq<char>, d: Delims, out: Seq<Block>, k: int) -> Seq<Block> {
    if k + 1 < out.len() && out[k + 1].kind == Kind::Data && closes_minus(
        encode_utf8(src),
        d,
        out[k],
    ) {
        let s = out[k + 1].span;
        out.update(
            k + 1,
            data_block(s.start + lead_white(src, s.start as int, s.end as int), s.end as int),
        )
    } else {
        out
    }
}

/// Whitespace control of the blocks from `k` on.
pub open spec fn control_from(src: Seq<char>, d: Delims, out: Seq<Block>, k: int) -> Seq<Block>
    decreases out.len() - k,
{
    if k < 0 || k >= out.len() {
        out
    } else {
        control_from(src, d, trim_behind(src, d, trim_before(src, d, out, k), k), k + 1)
    }
}

/// The first `n` blocks without the data of which nothing is left.
pub open spec fn filled(out: Seq<Block>, n: int) -> Seq<Block>
    decreases n,
{
    if n <= 0 || n > out.len() {
        Seq::empty()
    } else if out[n - 1].kind != Kind::Data || out[n - 1].span.start < out[n - 1].span.end {
        filled(out, n - 1).push(out[n - 1])
    } else {
        filled(out, n - 1)
    }
}

/// The blocks of a template that is read from byte `start` on.
pub open spec fn blocks_of(src: Seq<char>, d: Delims, start: int) -> Result<
    Seq<Block>,
    ErrorModel,
> {
    match scan_from(src, d, Scan { i: start, out: Seq::empty(), trim: false }) {
        Ok(out) => {
            let done = control_from(src, d, out, 0);
            Ok(filled(done, done.len() as int))
        },
        Err(e) => Err(e),
    }
}

// ------------------------------------------------------------------ the scan

/// Does the block lie before `limit`, its content inside it?
pub open spec fn fits(block: Block, limit: int) -> bool {
    block.span.start <= block.inner.start <= block.inner.end <= block.span.end <= limit
}

/// Blocks in order, none reaching into the next, all before `limit`.
pub open spec fn ordered(out: Seq<Block>, limit: int) -> bool {
    &&& forall|k: int| 0 <= k < out.len() ==> fits(#[trigger] out[k], limit)
    &&& forall|j: int, k: int|
        0 <= j < k < out.len() ==> (#[trigger] out[j]).span.end <= (#[trigger] out[k]).span.start
}

/// Trimming takes no more than there is.
pub proof fn trim_bounds(src: Seq<char>, start: int, end: int)
    requires
        0 <= start,
    ensures
        0 <= trimmed(src, start, end),
        0 <= lead_white(src, start, end),
        start <= end ==> trimmed(src, start, end) <= end - start && lead_white(src, start, end)
            <= end - start,
        start > end ==> trimmed(src, start, end) == 0 && lead_white(src, start, end) == 0,
        start <= encode_utf8(src).len() ==> start + trimmed(src, start, end)
            <= encode_utf8(src).len() && start + lead_white(src, start, end)
            <= encode_utf8(src).len(),
{
    let t = parse::text_between(src, start, end);
    parse::text_between_len(src, start, end);
    text::trimmed_end_is_white(t);
    text::trimmed_start_is_white(t);
    parse::encode_prefix_le(t, text::trim_end(t).len() as int);
    let k = t.len() - text::trim_start(t).len();
    parse::encode_concat(t.subrange(0, k), t.subrange(k, t.len() as int));
    assert(t =~= t.subrange(0, k) + t.subrange(k, t.len() as int));
    if start > end {
        assert(t =~= Seq::empty());
    }
}

/// The bytes of the text between two offsets without the whitespace at its end.
fn trimmed_bytes(src: &str, start: usize, end: usize) -> (r: usize)
    ensures
        r == trimmed(src@, start as int, end as int),
{
    let t = (Span { start, end }).slice(src);
    let total: usize = t.as_bytes().len();
    let v = to_chars(t);
    let n: usize = v.len();
    assert(v@.subrange(0, n as int) =~= v@);
    let k = trimmed_len(&v, 0, n);
    proof {
        parse::encode_prefix_le(v@, k as int);
    }
    encoded_len(&v, 0, k)
}

/// The bytes of whitespace at the start of the text between two offsets.
fn lead_bytes(src: &str, start: usize, end: usize) -> (r: usize)
    ensures
        r == lead_white(src@, start as int, end as int),
{
    let t = (Span { start, end }).slice(src);
    let total: usize = t.as_bytes().len();
    let v = to_chars(t);
    let n: usize = v.len();
    assert(v@.subrange(0, n as int) =~= v@);
    let k = skip_white(&v, 0, n);
    proof {
        let rest = v@.subrange(k as int, n as int);
        parse::encode_concat(v@.subrange(0, k as int), rest);
        assert(v@ =~= v@.subrange(0, k as int) + rest);
    }
    encoded_len(&v, 0, k)
}

fn is_minus(b: &[u8], i: usize) -> (r: bool)
    ensures
        r == minus_at(b@, i as int),
{
    i < b.len() && b[i] == 45
}

fn is_gap(c: u8) -> (r: bool)
    ensures
        r == gap(c),
{
    c == 32 || c == 9 || c == 11
}

/// Past the string literal whose opening quote stands at `i`.
fn skip_string(b: &[u8], i: usize) -> (r: Option<usize>)
    requires
        i < b@.len(),
    ensures
        r is Some == string_end(b@, b@[i as int], i + 1) is Some,
        r is Some ==> string_end(b@, b@[i as int], i + 1) == Some(r->0 as int) && i < r->0
            <= b@.len(),
{
    let n: usize = b.len();
    let quote = b[i];
    let mut j: usize = i + 1;
    while j < n
        invariant
            n == b@.len(),
            i < j,
            i < n,
            quote == b@[i as int],
            string_end(b@, quote, i + 1) == string_end(b@, quote, j as int),
        decreases n - j,
    {
        if b[j] == 92 {
            if n - j <= 2 {
                assert(string_end(b@, quote, j + 2) is None);
                return None;
            }
            j += 2;
        } else if b[j] == quote {
            return Some(j + 1);
        } else {
            j += 1;
        }
    }
    None
}

/// The place of `end` that closes a tag opened at `from`.
fn find_end(b: &[u8], from: usize, end: &[u8]) -> (r: Option<usize>)
    ensures
        r is Some == tag_end(b@, end@, from as int, 0) is Some,
        r is Some ==> tag_end(b@, end@, from as int, 0) == Some(r->0 as int) && from <= r->0
            && r->0 + end@.len() <= b@.len(),
{
    let n: usize = b.len();
    let mut depth: usize = 0;
    let mut i: usize = from;
    while i < n
        invariant
            n == b@.len(),
            from <= i,
            depth <= i - from,
            tag_end(b@, end@, from as int, 0) == tag_end(b@, end@, i as int, depth as int),
        decreases n - i,
    {
        let c = b[i];
        if c == 39 || c == 34 {
            match skip_string(b, i) {
                Some(j) => {
                    i = j;
                },
                None => return None,
            }
        } else {
            if c == 40 || c == 91 || c == 123 {
                depth += 1;
            } else if (c == 41 || c == 93 || c == 125) && depth > 0 {
                depth -= 1;
            }
            if depth == 0 && has_bytes_at(b, end, i) {
                return Some(i);
            }
            i += 1;
        }
    }
    None
}

/// The content of a tag without its whitespace-control markers.
fn strip_markers(b: &[u8], start: usize, end: usize) -> (r: Span)
    requires
        start <= end <= b@.len(),
    ensures
        r == without_markers(b@, start as int, end as int),
        start <= r.start <= r.end <= end,
{
    let mut from: usize = start;
    while from < end && (b[from] == 45 || b[from] == 43)
        invariant
            start <= from <= end <= b@.len(),
            skip_markers(b@, start as int, end as int) == skip_markers(
                b@,
                from as int,
                end as int,
            ),
        decreases end - from,
    {
        from += 1;
    }
    let mut to: usize = end;
    while to > from && (b[to - 1] == 45 || b[to - 1] == 43)
        invariant
            from <= to <= end <= b@.len(),
            drop_markers(b@, from as int, end as int) == drop_markers(
                b@,
                from as int,
                to as int,
            ),
        decreases to,
    {
        to -= 1;
    }
    Span { start: from, end: to }
}

/// The first word of a tag.
pub fn tag_name(inner: &str) -> (r: Option<&str>)
    ensures
        r is Some == (tag_word(inner@).len() > 0),
        r is Some ==> r->0@ == tag_word(inner@),
{
    let v = to_chars(inner);
    let n: usize = v.len();
    let mut a: usize = 0;
    assert(v@.subrange(0, n as int) =~= v@);
    while a < n && (v[a] == '-' || v[a] == '+')
        invariant
            a <= n == v@.len(),
            v@ == inner@,
            unmarked(v@) == unmarked(v@.subrange(a as int, n as int)),
        decreases n - a,
    {
        assert(v@.subrange(a as int, n as int).subrange(1, n - a) =~= v@.subrange(
            a + 1,
            n as int,
        ));
        a += 1;
    }
    let from = skip_white(&v, a, n);
    let ghost t = v@.subrange(from as int, n as int);
    let mut to: usize = from;
    assert(t.subrange(0, n - from) =~= t);
    while to < n && (is_alphanumeric(v[to]) || v[to] == '_')
        invariant
            from <= to <= n == v@.len(),
            t == v@.subrange(from as int, n as int),
            word_len(t) == to - from + word_len(t.subrange(to - from, n - from)),
        decreases n - to,
    {
        let ghost rest = t.subrange(to - from, n - from);
        assert(rest.subrange(1, rest.len() as int) =~= t.subrange(to - from + 1, n - from));
        to += 1;
    }
    assert(t.subrange(0, to - from) =~= v@.subrange(from as int, to as int));
    if to > from {
        Some(inner.substring_char(from, to))
    } else {
        None
    }
}

struct Scanner<'a> {
    src: &'a str,
    d: &'a Delimiters,
    i: usize,
    out: Vec<Block>,
    trim_next_data: bool,
}

impl<'a> Scanner<'a> {
    spec fn st(&self) -> Scan {
        Scan { i: self.i as int, out: self.out@, trim: self.trim_next_data }
    }

    spec fn n(&self) -> int {
        encode_utf8(self.src@).len() as int
    }

    spec fn wf(&self) -> bool {
        &&& self.i <= self.n() <= usize::MAX
        &&& ordered(self.out@, self.i as int)
    }

    /// The same text and delimiters?
    spec fn same(&self, other: &Self) -> bool {
        self.src == other.src && self.d == other.d
    }

    fn push_data(&mut self, start: usize, end: usize)
        requires
            old(self).wf(),
            old(self).i <= start,
            end <= old(self).n(),
            start <= old(self).n(),
        ensures
            final(self).same(old(self)),
            final(self).st() == with_data(old(self).src@, old(self).st(), start as int, end as int),
            ordered(final(self).out@, if start <= end { end as int } else { start as int }),
    {
        let mut from: usize = start;
        proof {
            trim_bounds(self.src@, start as int, end as int);
        }
        if self.trim_next_data {
            from = start + lead_bytes(self.src, start, end);
        }
        self.trim_next_data = false;
        if from < end {
            let span = Span { start: from, end };
            self.out.push(Block { kind: Kind::Data, span, inner: span });
        }
    }

    /// The data just emitted loses the whitespace at its end, and goes where that leaves nothing.
    fn trim_previous_data(&mut self)
        requires
            old(self).wf(),
        ensures
            final(self).same(old(self)),
            final(self).i == old(self).i,
            final(self).trim_next_data == old(self).trim_next_data,
            final(self).out@ == trim_last(old(self).src@, old(self).out@),
            final(self).wf(),
    {
        let len: usize = self.out.len();
        if len == 0 || !matches!(self.out[len - 1].kind, Kind::Data) {
            return ;
        }
        let s = self.out[len - 1].span;
        assert(fits(self.out@[len - 1], self.i as int));
        let left = trimmed_bytes(self.src, s.start, s.end);
        proof {
            trim_bounds(self.src@, s.start as int, s.end as int);
        }
        let ghost before = self.out@;
        let gone = self.out.pop();
        assert(self.out@ =~= before.drop_last());
        if left > 0 {
            let span = Span { start: s.start, end: s.start + left };
            self.out.push(Block { kind: Kind::Data, span, inner: span });
        }
        assert forall|k: int| 0 <= k < self.out@.len() implies fits(
            #[trigger] self.out@[k],
            self.i as int,
        ) by {
            assert(fits(before[k], self.i as int));
        }
        assert forall|j: int, k: int| 0 <= j < k < self.out@.len() implies (
        #[trigger] self.out@[j]).span.end <= (#[trigger] self.out@[k]).span.start by {
            assert(before[j].span.end <= before[k].span.start);
        }
    }

    /// A block that reaches from where the scan stands to `end`.
    fn push_block(&mut self, kind: Kind, end: usize, inner: Span)
        requires
            old(self).wf(),
            old(self).i <= inner.start <= inner.end <= end <= old(self).n(),
        ensures
            final(self).same(old(self)),
            final(self).st() == with_block(old(self).st(), kind, end as int, inner),
            final(self).wf(),
    {
        let start = self.i;
        let ghost before = self.out@;
        self.out.push(Block { kind, span: Span { start, end }, inner });
        self.i = end;
        assert forall|k: int| 0 <= k < self.out@.len() implies fits(
            #[trigger] self.out@[k],
            self.i as int,
        ) by {
            if k < before.len() {
                assert(fits(before[k], start as int));
            }
        }
        assert forall|j: int, k: int| 0 <= j < k < self.out@.len() implies (
        #[trigger] self.out@[j]).span.end <= (#[trigger] self.out@[k]).span.start by {
            assert(fits(before[j], start as int));
            if k < before.len() {
                assert(before[j].span.end <= before[k].span.start);
            }
        }
    }

    fn fail(&self, msg: &str, at: usize) -> (r: Error)
        requires
            at <= self.n() <= usize::MAX,
        ensures
            r.view() == unclosed(self.src@, msg@, at as int),
    {
        let n: usize = self.src.as_bytes().len();
        let end: usize = if at < n {
            at + 1
        } else {
            n
        };
        Error { msg: msg.to_owned(), span: Span { start: at, end }, cause: Cause::Lex }
    }

    fn scan_comment(&mut self) -> (r: Result<(), Error>)
        requires
            old(self).wf(),
            text::bytes_at(
                encode_utf8(old(self).src@),
                encode_utf8(old(self).d.comment_start@),
                old(self).i as int,
            ),
        ensures
            final(self).same(old(self)),
            match r {
                Ok(()) => scan_comment(old(self).src@, old(self).d.view(), old(self).st()) == Ok::<
                    Scan,
                    ErrorModel,
                >(final(self).st()) && final(self).wf() && final(self).i >= old(self).i
                    + encode_utf8(old(self).d.comment_start@).len(),
                Err(e) => scan_comment(old(self).src@, old(self).d.view(), old(self).st()) == Err::<
                    Scan,
                    ErrorModel,
                >(e.view()),
            },
    {
        let b = self.src.as_bytes();
        let n: usize = b.len();
        let start = self.i;
        let open: usize = start + self.d.comment_start.as_str().as_bytes().len();
        let close_with = self.d.comment_end.as_str().as_bytes();
        match find_bytes_from(b, close_with, open) {
            None => Err(self.fail("Missing end of comment tag", start)),
            Some(close) => {
                let inner = strip_markers(b, open, close);
                self.push_block(Kind::Comment, close + close_with.len(), inner);
                Ok(())
            },
        }
    }

    fn scan_expression(&mut self) -> (r: Result<(), Error>)
        requires
            old(self).wf(),
            text::bytes_at(
                encode_utf8(old(self).src@),
                encode_utf8(old(self).d.variable_start@),
                old(self).i as int,
            ),
        ensures
            final(self).same(old(self)),
            match r {
                Ok(()) => scan_expression(old(self).src@, old(self).d.view(), old(self).st())
                    == Ok::<Scan, ErrorModel>(final(self).st()) && final(self).wf()
                    && final(self).i >= old(self).i + encode_utf8(
                    old(self).d.variable_start@,
                ).len(),
                Err(e) => scan_expression(old(self).src@, old(self).d.view(), old(self).st())
                    == Err::<Scan, ErrorModel>(e.view()),
            },
    {
        let b = self.src.as_bytes();
        let n: usize = b.len();
        let start = self.i;
        let open: usize = start + self.d.variable_start.as_str().as_bytes().len();
        let close_with = self.d.variable_end.as_str().as_bytes();
        match find_end(b, open, close_with) {
            None => Err(
                self.fail("unexpected end of template, expected 'end of print statement'", start),
            ),
            Some(close) => {
                let inner = strip_markers(b, open, close);
                self.push_block(Kind::Expression, close + close_with.len(), inner);
                Ok(())
            },
        }
    }

    fn scan_statement(&mut self) -> (r: Result<(), Error>)
        requires
            old(self).wf(),
            text::bytes_at(
                encode_utf8(old(self).src@),
                encode_utf8(old(self).d.block_start@),
                old(self).i as int,
            ),
            encode_utf8(old(self).d.block_start@).len() > 0,
        ensures
            final(self).same(old(self)),
            match r {
                Ok(()) => scan_statement(old(self).src@, old(self).d.view(), old(self).st())
                    == Ok::<Scan, ErrorModel>(final(self).st()) && final(self).wf()
                    && final(self).i >= old(self).i + encode_utf8(old(self).d.block_start@).len(),
                Err(e) => scan_statement(old(self).src@, old(self).d.view(), old(self).st())
                    == Err::<Scan, ErrorModel>(e.view()),
            },
    {
        let b = self.src.as_bytes();
        let n: usize = b.len();
        let start = self.i;
        let open: usize = start + self.d.block_start.as_str().as_bytes().len();
        let close_with = self.d.block_end.as_str().as_bytes();
        let close = match find_end(b, open, close_with) {
            None => return Err(
                self.fail("unexpected end of template, expected 'end of statement block'", start),
            ),
            Some(close) => close,
        };
        let end: usize = close + close_with.len();
        let inner = strip_markers(b, open, close);
        // `raw` is a state of the lexer: its body never becomes tokens at all.
        let is_raw = match tag_name(inner.slice(self.src)) {
            Some(name) => str_eq(name, "raw"),
            None => {
                proof {
                    reveal_strlit("raw");
                }
                false
            },
        };
        if is_raw {
            let closes_minus = is_minus(b, close - 1);
            if is_minus(b, open) {
                self.trim_previous_data();
            }
            self.trim_next_data = closes_minus;
            return self.scan_raw(end);
        }
        self.push_block(Kind::Statement, end, inner);
        Ok(())
    }

    /// Everything up to `{% endraw %}` is literal text. An `{% include %}` in here is no
    /// reference, and an unterminated one is a template that will not render.
    fn scan_raw(&mut self, body: usize) -> (r: Result<(), Error>)
        requires
            old(self).wf(),
            old(self).i <= body <= old(self).n(),
            encode_utf8(old(self).d.block_start@).len() > 0,
        ensures
            final(self).same(old(self)),
            match r {
                Ok(()) => scan_raw(
                    old(self).src@,
                    old(self).d.view(),
                    old(self).st(),
                    body as int,
                ) == Ok::<Scan, ErrorModel>(final(self).st()) && final(self).wf() && final(self).i
                    >= body,
                Err(e) => scan_raw(
                    old(self).src@,
                    old(self).d.view(),
                    old(self).st(),
                    body as int,
                ) == Err::<Scan, ErrorModel>(e.view()),
            },
    {
        let b = self.src.as_bytes();
        let n: usize = b.len();
        let raw_start = self.i;
        match self.find_endraw(body) {
            None => Err(self.fail("Missing end of raw directive", raw_start)),
            Some((tag, open, close)) => {
                self.push_data(body, tag);
                self.i = tag;
                if is_minus(b, open) {
                    self.trim_previous_data();
                }
                self.trim_next_data = is_minus(b, close - 1);
                let ghost low = self.i as int;
                self.i = close + self.d.block_end.as_str().as_bytes().len();
                assert forall|k: int| 0 <= k < self.out@.len() implies fits(
                    #[trigger] self.out@[k],
                    self.i as int,
                ) by {
                    assert(fits(self.out@[k], low));
                }
                Ok(())
            },
        }
    }

    /// Behind the whitespace at `i`.
    fn skip_white_from(&self, i: usize) -> (r: usize)
        requires
            i <= self.n() <= usize::MAX,
        ensures
            r == past_white(self.src@, i as int),
            i <= r <= self.n(),
    {
        let n: usize = self.src.as_bytes().len();
        proof {
            trim_bounds(self.src@, i as int, n as int);
        }
        i + lead_bytes(self.src, i, n)
    }

    /// The place of the delimiter that closes an `endraw` tag whose opening ends at `open`.
    fn raw_end(&self, open: usize) -> (r: Option<usize>)
        requires
            open <= self.n() <= usize::MAX,
        ensures
            r is Some == endraw_close(self.src@, self.d.view(), open as int) is Some,
            r is Some ==> endraw_close(self.src@, self.d.view(), open as int) == Some(r->0 as int)
                && open < r->0 && r->0 + encode_utf8(self.d.block_end@).len() <= self.n(),
    {
        let b = self.src.as_bytes();
        let n: usize = b.len();
        let word_bytes = "endraw".as_bytes();
        let mut i: usize = open;
        if i < n && (b[i] == 45 || b[i] == 43) {
            i += 1;
        }
        let word = self.skip_white_from(i);
        if !has_bytes_at(b, word_bytes, word) {
            return None;
        }
        proof {
            reveal_strlit("endraw");
            vstd::utf8::is_ascii_chars_encode_utf8("endraw"@);
        }
        let mut c = self.skip_white_from(word + word_bytes.len());
        if is_minus(b, c) {
            c += 1;
        }
        if has_bytes_at(b, self.d.block_end.as_str().as_bytes(), c) {
            Some(c)
        } else {
            None
        }
    }

    /// The `endraw` tag at or after `from`.
    fn find_endraw(&self, from: usize) -> (r: Option<(usize, usize, usize)>)
        requires
            from <= self.n() <= usize::MAX,
            encode_utf8(self.d.block_start@).len() > 0,
        ensures
            r is Some == endraw_from(self.src@, self.d.view(), from as int) is Some,
            r is Some ==> endraw_from(self.src@, self.d.view(), from as int) == Some(
                ((r->0).0 as int, (r->0).1 as int, (r->0).2 as int),
            ) && from <= (r->0).0 <= (r->0).1 && (r->0).1 < (r->0).2 && (r->0).2 + encode_utf8(
                self.d.block_end@,
            ).len() <= self.n(),
    {
        let b = self.src.as_bytes();
        let n: usize = b.len();
        let start = self.d.block_start.as_str().as_bytes();
        let mut at: usize = from;
        loop
            invariant
                b@ == encode_utf8(self.src@),
                n == b@.len(),
                start@ == encode_utf8(self.d.block_start@),
                start@.len() > 0,
                from <= at <= n,
                n <= usize::MAX,
                endraw_from(self.src@, self.d.view(), from as int) == endraw_from(
                    self.src@,
                    self.d.view(),
                    at as int,
                ),
            decreases n - at,
        {
            match find_bytes_from(b, start, at) {
                None => return None,
                Some(tag) => {
                    let open: usize = tag + start.len();
                    match self.raw_end(open) {
                        Some(close) => return Some((tag, open, close)),
                        None => {
                            at = open;
                        },
                    }
                },
            }
        }
    }
}

/// The end of the blanks that begin at `k`.
fn skip_gap(b: &[u8], k: usize) -> (r: usize)
    requires
        k <= b@.len(),
    ensures
        r == gap_end(b@, k as int),
        k <= r <= b@.len(),
{
    let n: usize = b.len();
    let mut i: usize = k;
    while i < n && is_gap(b[i])
        invariant
            k <= i <= n == b@.len(),
            gap_end(b@, k as int) == gap_end(b@, i as int),
        decreases n - i,
    {
        i += 1;
    }
    i
}

/// Does text, neither a blank nor a line feed, end at `k`?
fn is_text_before(b: &[u8], k: usize) -> (r: bool)
    ensures
        r == text_before(b@, k as int),
{
    k > 0 && k <= b.len() && b[k - 1] != 10 && !is_gap(b[k - 1])
}

/// The last line feed in the run of whitespace from `from` on.
fn find_last_feed(b: &[u8], from: usize) -> (r: Option<usize>)
    requires
        from <= b@.len(),
    ensures
        r is Some == last_feed(b@, from as int, None) is Some,
        r is Some ==> last_feed(b@, from as int, None) == Some(r->0 as int) && from <= r->0
            < b@.len(),
{
    let n: usize = b.len();
    let mut k: usize = from;
    let mut last: Option<usize> = None;
    while k < n && lexer::is_blank(b[k])
        invariant
            from <= k <= n == b@.len(),
            last is Some ==> from <= last->0 < n,
            last_feed(b@, from as int, None) == last_feed(
                b@,
                k as int,
                match last {
                    Some(x) => Some(x as int),
                    None => None,
                },
            ),
        decreases n - k,
    {
        if b[k] == 10 {
            last = Some(k);
        }
        k += 1;
    }
    last
}

/// The better of two places, as [`better`] has it.
fn consider(
    best: Option<(usize, usize, Opener)>,
    at: Option<usize>,
    len: usize,
    opener: Opener,
) -> (r: Option<(usize, usize, Opener)>)
    ensures
        found(r) == better(found(best), place(at), len as int, opener),
        r == best || (at is Some && r == Some((at->0, len, opener))),
{
    match at {
        None => best,
        Some(a) => match best {
            None => Some((a, len, opener)),
            Some((b_at, b_len, _)) => if a < b_at || (a == b_at && len > b_len) {
                Some((a, len, opener))
            } else {
                best
            },
        },
    }
}

/// What a found opening is in the model.
pub open spec fn found(r: Option<(usize, usize, Opener)>) -> Found {
    match r {
        Some((at, len, opener)) => Some((at as int, len as int, opener)),
        None => None,
    }
}

/// What a found place is in the model.
pub open spec fn place(r: Option<usize>) -> Option<int> {
    match r {
        Some(at) => Some(at as int),
        None => None,
    }
}

/// How many bytes open a block of this kind of opening.
pub open spec fn opener_text(d: Delims, opener: Opener) -> Seq<char> {
    match opener {
        Opener::Comment => d.comment_start,
        Opener::Statement => d.block_start,
        Opener::Expression => d.variable_start,
        Opener::LineStatement => match d.line_statement_prefix {
            Some(s) => s,
            None => Seq::empty(),
        },
        Opener::LineComment => match d.line_comment_prefix {
            Some(s) => s,
            None => Seq::empty(),
        },
    }
}

/// What holds of a place where a block opens: it is not behind the scan, its opening is not empty,
/// and where the opening is a delimiter, it stands there.
pub open spec fn opens(b: Seq<u8>, d: Delims, i: int, f: (usize, usize, Opener)) -> bool {
    &&& i <= f.0 < b.len()
    &&& encode_utf8(opener_text(d, f.2)).len() > 0
    &&& f.2 is Comment || f.2 is Statement || f.2 is Expression ==> text::bytes_at(
        b,
        encode_utf8(opener_text(d, f.2)),
        f.0 as int,
    )
}

impl<'a> Scanner<'a> {
    /// The first place of a delimiter that is not empty.
    fn find_literal(&self, lit: &str) -> (r: Option<usize>)
        ensures
            place(r) == literal_from(encode_utf8(self.src@), lit@, self.i as int),
            r is Some ==> self.i <= r->0 && encode_utf8(lit@).len() > 0 && text::bytes_at(
                encode_utf8(self.src@),
                encode_utf8(lit@),
                r->0 as int,
            ),
    {
        if lit.as_bytes().len() == 0 {
            None
        } else {
            find_bytes_from(self.src.as_bytes(), lit.as_bytes(), self.i)
        }
    }

    /// The next place where a line prefix opens a tag: a statement's must open its line, with only
    /// blanks before it; a comment's may also follow text.
    fn find_line_prefix(&self, prefix: &Option<String>, comment: bool) -> (r: Option<usize>)
        requires
            self.i <= self.n() <= usize::MAX,
        ensures
            place(r) == line_tag(
                encode_utf8(self.src@),
                optional_text(*prefix),
                comment,
                self.i as int,
            ),
            r is Some ==> prefix is Some && encode_utf8((prefix->0)@).len() > 0 && self.i <= r->0
                < self.n(),
    {
        let p = match prefix {
            Some(p) => p.as_str().as_bytes(),
            None => return None,
        };
        if p.len() == 0 {
            return None;
        }
        let b = self.src.as_bytes();
        let n: usize = b.len();
        let low = self.i;
        let mut from: usize = low;
        loop
            invariant
                b@ == encode_utf8(self.src@),
                n == b@.len(),
                p@.len() > 0,
                low == self.i,
                low <= from <= n,
                line_tag_from(b@, p@, comment, low as int, low as int) == line_tag_from(
                    b@,
                    p@,
                    comment,
                    low as int,
                    from as int,
                ),
                optional_text(*prefix) is Some,
                p@ == encode_utf8(optional_text(*prefix)->0),
            decreases n - from,
        {
            let at = match find_bytes_from(b, p, from) {
                None => return None,
                Some(at) => at,
            };
            let mut j: usize = at;
            while j > low && is_gap(b[j - 1])
                invariant
                    low <= j <= at < n == b@.len(),
                    gap_start(b@, low as int, at as int) == gap_start(b@, low as int, j as int),
                decreases j,
            {
                j -= 1;
            }
            let opens_line = j == 0 || b[j - 1] == 10;
            if opens_line || (comment && (is_text_before(b, j) || is_text_before(b, at))) {
                return Some(j);
            }
            from = at + 1;
        }
    }

    /// The earliest opening at or after where the scan stands.
    fn next_delimiter(&self) -> (r: Option<(usize, usize, Opener)>)
        requires
            self.i <= self.n() <= usize::MAX,
        ensures
            found(r) == next_opener(self.src@, self.d.view(), self.i as int),
            r is Some ==> opens(encode_utf8(self.src@), self.d.view(), self.i as int, r->0),
    {
        proof {
            reveal(next_opener);
        }
        let d = self.d;
        let n1: usize = d.comment_start.as_str().as_bytes().len();
        let n2: usize = d.block_start.as_str().as_bytes().len();
        let n3: usize = d.variable_start.as_str().as_bytes().len();
        let a = consider(None, self.find_literal(d.comment_start.as_str()), n1, Opener::Comment);
        let c = consider(a, self.find_literal(d.block_start.as_str()), n2, Opener::Statement);
        let e = consider(c, self.find_literal(d.variable_start.as_str()), n3, Opener::Expression);
        let f = consider(
            e,
            self.find_line_prefix(&d.line_statement_prefix, false),
            prefix_len(&d.line_statement_prefix),
            Opener::LineStatement,
        );
        consider(
            f,
            self.find_line_prefix(&d.line_comment_prefix, true),
            prefix_len(&d.line_comment_prefix),
            Opener::LineComment,
        )
    }

    /// Where a line tag's body begins: past the blanks that the tag opens with, then past the
    /// prefix.
    fn prefix_end(&self, start: usize, prefix: usize) -> (r: usize)
        requires
            start <= self.n() <= usize::MAX,
        ensures
            r == line_body(encode_utf8(self.src@), start as int, prefix as int),
            start <= r <= self.n(),
            start < self.n() && prefix > 0 ==> start < r,
    {
        let b = self.src.as_bytes();
        let n: usize = b.len();
        let k = skip_gap(b, start);
        if prefix < n - k {
            k + prefix
        } else {
            n
        }
    }

    fn scan_line_statement(&mut self, prefix: usize)
        requires
            old(self).wf(),
            old(self).i < old(self).n(),
            prefix > 0,
        ensures
            final(self).same(old(self)),
            final(self).st() == scan_line_statement(old(self).src@, old(self).st(), prefix as int),
            final(self).wf(),
            final(self).i > old(self).i,
    {
        let b = self.src.as_bytes();
        let n: usize = b.len();
        let open = self.prefix_end(self.i, prefix);
        let eol = find_byte_or(b, 10, open, n);
        proof {
            trim_bounds(self.src@, open as int, eol as int);
        }
        let body: usize = open + trimmed_bytes(self.src, open, eol);
        let after: usize = match find_last_feed(b, eol) {
            Some(k) => k + 1,
            None => eol,
        };
        self.push_block(Kind::Statement, after, Span { start: open, end: body });
    }

    fn scan_line_comment(&mut self, prefix: usize)
        requires
            old(self).wf(),
            old(self).i < old(self).n(),
            prefix > 0,
        ensures
            final(self).same(old(self)),
            final(self).st() == scan_line_comment(old(self).src@, old(self).st(), prefix as int),
            final(self).wf(),
            final(self).i > old(self).i,
    {
        let b = self.src.as_bytes();
        let n: usize = b.len();
        let open = self.prefix_end(self.i, prefix);
        let eol = find_byte_or(b, 10, open, n);
        self.push_block(Kind::Comment, eol, Span { start: open, end: eol });
    }

    fn scan_opener(&mut self, opener: Opener) -> (r: Result<(), Error>)
        requires
            old(self).wf(),
            exists|len: usize|
                opens(
                    encode_utf8(old(self).src@),
                    old(self).d.view(),
                    old(self).i as int,
                    (old(self).i, len, opener),
                ),
        ensures
            final(self).same(old(self)),
            match r {
                Ok(()) => scan_block(old(self).src@, old(self).d.view(), old(self).st(), opener)
                    == Ok::<Scan, ErrorModel>(final(self).st()) && final(self).wf()
                    && final(self).i > old(self).i,
                Err(e) => scan_block(old(self).src@, old(self).d.view(), old(self).st(), opener)
                    == Err::<Scan, ErrorModel>(e.view()),
            },
    {
        proof {
            reveal(scan_block);
        }
        match opener {
            Opener::Comment => self.scan_comment(),
            Opener::Statement => self.scan_statement(),
            Opener::Expression => self.scan_expression(),
            Opener::LineStatement => {
                let prefix = prefix_len(&self.d.line_statement_prefix);
                self.scan_line_statement(prefix);
                Ok(())
            },
            Opener::LineComment => {
                let prefix = prefix_len(&self.d.line_comment_prefix);
                self.scan_line_comment(prefix);
                Ok(())
            },
        }
    }

    fn run(&mut self) -> (r: Result<(), Error>)
        requires
            old(self).wf(),
        ensures
            final(self).same(old(self)),
            match r {
                Ok(()) => scan_from(old(self).src@, old(self).d.view(), old(self).st()) == Ok::<
                    Seq<Block>,
                    ErrorModel,
                >(final(self).out@) && ordered(final(self).out@, final(self).n()),
                Err(e) => scan_from(old(self).src@, old(self).d.view(), old(self).st()) == Err::<
                    Seq<Block>,
                    ErrorModel,
                >(e.view()),
            },
    {
        let n: usize = self.src.as_bytes().len();
        let ghost first = *self;
        while self.i < n
            invariant
                self.wf(),
                first == *old(self),
                self.same(&first),
                n == self.n(),
                scan_from(first.src@, first.d.view(), first.st()) == scan_from(
                    self.src@,
                    self.d.view(),
                    self.st(),
                ),
            decreases n - self.i,
        {
            let ghost before = self.st();
            match self.next_delimiter() {
                None => {
                    self.push_data(self.i, n);
                    return Ok(());
                },
                Some((at, len, opener)) => {
                    self.push_data(self.i, at);
                    self.i = at;
                    assert(opens(
                        encode_utf8(self.src@),
                        self.d.view(),
                        self.i as int,
                        (self.i, len, opener),
                    ));
                    self.scan_opener(opener)?;
                },
            }
        }
        Ok(())
    }
}

/// How many bytes an optional prefix takes.
fn prefix_len(prefix: &Option<String>) -> (r: usize)
    ensures
        r == optional_len(optional_text(*prefix)),
{
    match prefix {
        Some(p) => p.as_str().as_bytes().len(),
        None => 0,
    }
}

impl<'a> Scanner<'a> {
    fn opens_with_minus(&self, block: &Block) -> (r: bool)
        requires
            block.span.start <= self.n() <= usize::MAX,
        ensures
            r == opens_minus(encode_utf8(self.src@), self.d.view(), *block),
    {
        let open: usize = match block.kind {
            Kind::Comment => self.d.comment_start.as_str().as_bytes().len(),
            Kind::Statement => self.d.block_start.as_str().as_bytes().len(),
            Kind::Expression => self.d.variable_start.as_str().as_bytes().len(),
            Kind::Data => return false,
        };
        let b = self.src.as_bytes();
        let n: usize = b.len();
        open < n - block.span.start && is_minus(b, block.span.start + open)
    }

    fn closes_with_minus(&self, block: &Block) -> (r: bool)
        ensures
            r == closes_minus(encode_utf8(self.src@), self.d.view(), *block),
    {
        let close: usize = match block.kind {
            Kind::Comment => self.d.comment_end.as_str().as_bytes().len(),
            Kind::Statement => self.d.block_end.as_str().as_bytes().len(),
            Kind::Expression => self.d.variable_end.as_str().as_bytes().len(),
            Kind::Data => return false,
        };
        if close > block.span.end {
            return false;
        }
        let at: usize = block.span.end - close;
        at > block.span.start && is_minus(self.src.as_bytes(), at - 1)
    }

    /// Puts data in the place of a block; it lies inside that block.
    fn replace(&mut self, k: usize, start: usize, end: usize)
        requires
            ordered(old(self).out@, old(self).n()),
            k < old(self).out@.len(),
            old(self).out@[k as int].span.start <= start <= end <= old(
                self,
            ).out@[k as int].span.end,
        ensures
            final(self).same(old(self)),
            final(self).out@ == old(self).out@.update(k as int, data_block(start as int, end as int)),
            ordered(final(self).out@, final(self).n()),
    {
        let ghost before = self.out@;
        let span = Span { start, end };
        self.out.set(k, Block { kind: Kind::Data, span, inner: span });
        assert forall|j: int| 0 <= j < self.out@.len() implies fits(
            #[trigger] self.out@[j],
            self.n(),
        ) by {
            assert(fits(before[j], self.n()));
        }
        assert forall|i: int, j: int| 0 <= i < j < self.out@.len() implies (
        #[trigger] self.out@[i]).span.end <= (#[trigger] self.out@[j]).span.start by {
            assert(before[i].span.end <= before[j].span.start);
        }
    }

    /// `{%-` eats the whitespace before a tag and `-%}` the whitespace behind it, so the two markers
    /// move where data starts and ends. Data that disappears is dropped rather than left empty.
    fn apply_whitespace_control(&mut self)
        requires
            ordered(old(self).out@, old(self).n()),
            old(self).n() <= usize::MAX,
        ensures
            final(self).same(old(self)),
            ({
                let done = control_from(old(self).src@, old(self).d.view(), old(self).out@, 0);
                final(self).out@ == filled(done, done.len() as int)
            }),
            ordered(final(self).out@, final(self).n()),
    {
        let ghost first = *self;
        let n: usize = self.src.as_bytes().len();
        let mut k: usize = 0;
        while k < self.out.len()
            invariant
                first == *old(self),
                self.same(&first),
                n == self.n(),
                ordered(self.out@, n as int),
                control_from(first.src@, first.d.view(), first.out@, 0) == control_from(
                    self.src@,
                    self.d.view(),
                    self.out@,
                    k as int,
                ),
            decreases self.out@.len() - k,
        {
            let ghost before = self.out@;
            let b = self.out[k];
            let len: usize = self.out.len();
            assert(fits(b, n as int));
            if self.opens_with_minus(&b) && k > 0 && matches!(self.out[k - 1].kind, Kind::Data) {
                let s = self.out[k - 1].span;
                assert(fits(self.out@[k - 1], n as int));
                proof {
                    trim_bounds(self.src@, s.start as int, s.end as int);
                }
                let end: usize = s.start + trimmed_bytes(self.src, s.start, s.end);
                self.replace(k - 1, s.start, end);
            }
            assert(self.out@ == trim_before(self.src@, self.d.view(), before, k as int));
            let ghost half = self.out@;
            if k + 1 < len && self.closes_with_minus(&b) && matches!(
                self.out[k + 1].kind,
                Kind::Data
            ) {
                let s = self.out[k + 1].span;
                assert(fits(self.out@[k + 1], n as int));
                proof {
                    trim_bounds(self.src@, s.start as int, s.end as int);
                }
                let start: usize = s.start + lead_bytes(self.src, s.start, s.end);
                self.replace(k + 1, start, s.end);
            }
            assert(self.out@ == trim_behind(self.src@, self.d.view(), half, k as int));
            k += 1;
        }
        let kept = drop_empty(&self.out, n);
        self.out = kept;
    }
}

/// The blocks without the data of which nothing is left.
fn drop_empty(out: &Vec<Block>, limit: usize) -> (r: Vec<Block>)
    requires
        ordered(out@, limit as int),
    ensures
        r@ == filled(out@, out@.len() as int),
        ordered(r@, limit as int),
{
    let mut kept: Vec<Block> = Vec::new();
    let mut k: usize = 0;
    while k < out.len()
        invariant
            k <= out@.len(),
            ordered(out@, limit as int),
            kept@ == filled(out@, k as int),
            ordered(kept@, limit as int),
            k < out@.len() ==> forall|j: int|
                0 <= j < kept@.len() ==> (#[trigger] kept@[j]).span.end <= out@[k as int].span.start,
        decreases out@.len() - k,
    {
        let b = out[k];
        let ghost before = kept@;
        assert(fits(out@[k as int], limit as int));
        if !matches!(b.kind, Kind::Data) || b.span.start < b.span.end {
            kept.push(b);
        }
        k += 1;
        if k < out.len() {
            assert forall|j: int| 0 <= j < kept@.len() implies (#[trigger] kept@[j]).span.end
                <= out@[k as int].span.start by {
                assert(out@[k - 1].span.end <= out@[k as int].span.start);
                if j < before.len() {
                    assert(before[j].span.end <= out@[k - 1].span.start);
                }
            }
        }
    }
    kept
}

/// Splits a template into blocks.
///
/// Refuses rather than guesses: an unclosed tag, comment or `{% raw %}` is an error, because each
/// is a template that will not render. The blocks come in the order of the text, none reaching
/// into the next.
pub fn blocks(src: &str, d: &Delimiters) -> (r: Result<Vec<Block>, Error>)
    ensures
        match r {
            Ok(v) => blocks_of(src@, d.view(), 0) == Ok::<Seq<Block>, ErrorModel>(v@) && ordered(
                v@,
                encode_utf8(src@).len() as int,
            ),
            Err(e) => blocks_of(src@, d.view(), 0) == Err::<Seq<Block>, ErrorModel>(e.view()),
        },
{
    blocks_from(src, d, 0)
}

/// [`blocks`] from a byte offset on, for a template whose `#jinja2:` line has been read.
pub fn blocks_from(src: &str, d: &Delimiters, start: usize) -> (r: Result<Vec<Block>, Error>)
    requires
        start <= encode_utf8(src@).len(),
    ensures
        match r {
            Ok(v) => blocks_of(src@, d.view(), start as int) == Ok::<Seq<Block>, ErrorModel>(v@)
                && ordered(v@, encode_utf8(src@).len() as int),
            Err(e) => blocks_of(src@, d.view(), start as int) == Err::<Seq<Block>, ErrorModel>(
                e.view(),
            ),
        },
{
    let n: usize = src.as_bytes().len();
    let mut s = Scanner { src, d, i: start, out: Vec::new(), trim_next_data: false };
    assert(s.st() == (Scan { i: start as int, out: Seq::empty(), trim: false }));
    s.run()?;
    s.apply_whitespace_control();
    Ok(s.out)
}

// ---------------------------------------------------------------- the header

/// What the `#jinja2:` line of a template sets.
#[derive(Debug, Clone)]
pub struct Header {
    /// The delimiters in effect for the body.
    pub delimiters: Delimiters,
    /// Where the body starts: one past the line feed of the header, or 0 with no header.
    pub body: usize,
}

/// The keys that a `#jinja2:` line may set. The six delimiters and the two line prefixes change
/// what is read; the last four change only the rendered bytes, so they are accepted as keys and
/// otherwise ignored.
pub const OVERRIDE_KEYS: [&'static str; 12] = [
    "block_start_string",
    "block_end_string",
    "variable_start_string",
    "variable_end_string",
    "comment_start_string",
    "comment_end_string",
    "line_statement_prefix",
    "line_comment_prefix",
    "trim_blocks",
    "lstrip_blocks",
    "newline_sequence",
    "keep_trailing_newline",
];

pub const JINJA2_OVERRIDE: &'static str = "#jinja2:";

/// The first place of a character in `s[i..to]`, or `to`.
pub open spec fn char_or(s: Seq<char>, c: char, i: int, to: int) -> int
    decreases to - i,
{
    if i < 0 || i >= to || i >= s.len() || s[i] == c {
        i
    } else {
        char_or(s, c, i + 1, to)
    }
}

/// The byte offset of the `k`-th character.
pub open spec fn offset(s: Seq<char>, k: int) -> int {
    encode_utf8(s.subrange(0, k)).len() as int
}

/// Does the character occur in the text?
pub open spec fn has_char(s: Seq<char>, c: char) -> bool {
    exists|i: int| 0 <= i < s.len() && s[i] == c
}

/// A text with a backslash before each backslash and each single quote.
pub open spec fn quoted(s: Seq<char>) -> Seq<char>
    decreases s.len(),
{
    if s.len() == 0 {
        Seq::empty()
    } else {
        let rest = quoted(s.drop_last());
        if s.last() == '\\' || s.last() == '\'' {
            rest.push('\\').push(s.last())
        } else {
            rest.push(s.last())
        }
    }
}

/// Python's `repr` of a string, for the strings that the refusals of a header quote.
pub open spec fn repr(s: Seq<char>) -> Seq<char> {
    if has_char(s, '\'') && !has_char(s, '"') {
        seq!['"'] + s + seq!['"']
    } else {
        seq!['\''] + quoted(s) + seq!['\'']
    }
}

/// What a header value stands for: a quoted string without its quote inside, or one of the three
/// constants, which set nothing.
pub open spec fn literal_of(raw: Seq<char>) -> Option<Seq<char>> {
    if raw.len() >= 2 && (raw[0] == '"' || raw[0] == '\'') && raw.last() == raw[0] {
        let inner = raw.subrange(1, raw.len() - 1);
        if has_char(inner, raw[0]) {
            None
        } else {
            Some(inner)
        }
    } else if raw == "None"@ || raw == "True"@ || raw == "False"@ {
        Some(Seq::empty())
    } else {
        None
    }
}

/// Delimiters with one of them set.
pub open spec fn with_field(d: Delims, key: Seq<char>, value: Seq<char>) -> Delims {
    if key == "block_start_string"@ {
        Delims { block_start: value, ..d }
    } else if key == "block_end_string"@ {
        Delims { block_end: value, ..d }
    } else if key == "variable_start_string"@ {
        Delims { variable_start: value, ..d }
    } else if key == "variable_end_string"@ {
        Delims { variable_end: value, ..d }
    } else if key == "comment_start_string"@ {
        Delims { comment_start: value, ..d }
    } else if key == "comment_end_string"@ {
        Delims { comment_end: value, ..d }
    } else if key == "line_statement_prefix"@ {
        Delims { line_statement_prefix: Some(value), ..d }
    } else if key == "line_comment_prefix"@ {
        Delims { line_comment_prefix: Some(value), ..d }
    } else {
        d
    }
}

/// The refusal of a header.
pub open spec fn refusal(msg: Seq<char>, at: Span) -> ErrorModel {
    ErrorModel { msg, span: at, cause: Cause::Parse }
}

pub open spec fn no_colon_message(pair: Seq<char>) -> Seq<char> {
    "Missing key-value separator `:` in '#jinja2:' override pair "@ + repr(pair) + "."@
}

pub open spec fn bad_key_message(key: Seq<char>) -> Seq<char> {
    "Invalid '#jinja2:' override key "@ + repr(key) + "."@
}

pub open spec fn bad_value_message(raw: Seq<char>, key: Seq<char>) -> Seq<char> {
    "Invalid value "@ + repr(raw) + " for '#jinja2:' override key "@ + repr(key) + "."@
}

/// What one pair of a header makes of the delimiters.
pub open spec fn pair_of(pair: Seq<char>, at: Span, d: Delims) -> Result<Delims, ErrorModel> {
    let n = pair.len() as int;
    let colon = char_or(pair, ':', 0, n);
    let key = text::trim(pair.subrange(0, colon));
    let raw = text::trim(pair.subrange(colon + 1, n));
    if text::trim(pair).len() == 0 {
        Err(refusal("Empty '#jinja2:' override pair not allowed."@, at))
    } else if colon >= n {
        Err(refusal(no_colon_message(pair), at))
    } else if !keywords::listed(OVERRIDE_KEYS@, key) {
        Err(refusal(bad_key_message(key), at))
    } else {
        match literal_of(raw) {
            None => Err(refusal(bad_value_message(raw, key), at)),
            Some(value) => Ok(with_field(d, key, value)),
        }
    }
}

/// What the pairs of a header in `src[i..eol]` make of the delimiters.
pub open spec fn pairs_from(src: Seq<char>, i: int, eol: int, d: Delims) -> Result<
    Delims,
    ErrorModel,
>
    decreases eol + 1 - i,
{
    let end = char_or(src, ',', i, eol);
    match pair_of(src.subrange(i, end), span(offset(src, i), offset(src, end)), d) {
        Err(e) => Err(e),
        Ok(next) => if i <= end < eol {
            pairs_from(src, end + 1, eol, next)
        } else {
            Ok(next)
        },
    }
}

/// Can a tag not be told from a print or a comment?
pub open spec fn ambiguous(d: Delims) -> bool {
    d.block_start == d.variable_start || d.variable_start == d.comment_start || d.block_start
        == d.comment_start
}

/// The delimiters of a template and where its body starts.
pub open spec fn header_of(src: Seq<char>, base: Delims) -> Result<(Delims, int), ErrorModel> {
    let n = src.len() as int;
    let eol = char_or(src, '\n', 0, n);
    if !text::begins_with(src, JINJA2_OVERRIDE@) {
        Ok((base, 0))
    } else if eol >= n {
        Err(
            refusal(
                "Missing newline after '#jinja2:' override."@,
                span(0, encode_utf8(src).len() as int),
            ),
        )
    } else {
        match pairs_from(src, JINJA2_OVERRIDE@.len() as int, eol, base) {
            Err(e) => Err(e),
            Ok(d) => if ambiguous(d) {
                Err(
                    refusal(
                        "Block, variable and comment start strings must be different."@,
                        span(0, offset(src, eol)),
                    ),
                )
            } else {
                Ok((d, offset(src, eol) + 1))
            },
        }
    }
}

/// The first place of a character in `v[from..to]`, or `to`.
fn find_char_or(v: &[char], c: char, from: usize, to: usize) -> (r: usize)
    requires
        from <= to <= v@.len(),
    ensures
        r == char_or(v@, c, from as int, to as int),
        from <= r <= to,
        r < to ==> v@[r as int] == c,
        forall|j: int| from <= j < r ==> v@[j] != c,
{
    let mut i: usize = from;
    while i < to && v[i] != c
        invariant
            from <= i <= to <= v@.len(),
            forall|j: int| from <= j < i ==> v@[j] != c,
            char_or(v@, c, from as int, to as int) == char_or(v@, c, i as int, to as int),
        decreases to - i,
    {
        i += 1;
    }
    i
}

/// Does the character occur in the text?
fn contains_char(v: &[char], c: char) -> (r: bool)
    ensures
        r == has_char(v@, c),
{
    let n: usize = v.len();
    let i = find_char_or(v, c, 0, n);
    if i < n {
        assert(v@[i as int] == c);
        true
    } else {
        false
    }
}

/// Python's `repr` of a string.
fn py_repr(s: &[char]) -> (r: String)
    ensures
        r@ == repr(s@),
{
    let mut out = String::new();
    if contains_char(s, '\'') && !contains_char(s, '"') {
        out.push('"');
        let body = from_chars(s, 0, s.len());
        assert(s@.subrange(0, s@.len() as int) =~= s@);
        out.append(body.as_str());
        out.push('"');
        assert(out@ =~= repr(s@));
        return out;
    }
    out.push('\'');
    let n: usize = s.len();
    let mut i: usize = 0;
    assert(s@.subrange(0, 0) =~= Seq::empty());
    assert(out@ =~= seq!['\''] + quoted(s@.subrange(0, 0)));
    while i < n
        invariant
            i <= n == s@.len(),
            out@ == seq!['\''] + quoted(s@.subrange(0, i as int)),
        decreases n - i,
    {
        let ghost before = quoted(s@.subrange(0, i as int));
        let c = s[i];
        if c == '\\' || c == '\'' {
            out.push('\\');
        }
        out.push(c);
        i += 1;
        assert(s@.subrange(0, i as int).drop_last() =~= s@.subrange(0, i - 1));
        assert(out@ =~= seq!['\''] + quoted(s@.subrange(0, i as int)));
    }
    out.push('\'');
    assert(s@.subrange(0, n as int) =~= s@);
    assert(out@ =~= repr(s@));
    out
}

/// What a header value stands for.
fn literal(raw: &[char]) -> (r: Option<String>)
    ensures
        r is Some == literal_of(raw@) is Some,
        r is Some ==> (r->0)@ == literal_of(raw@)->0,
{
    let n: usize = raw.len();
    if n >= 2 && (raw[0] == '"' || raw[0] == '\'') && raw[n - 1] == raw[0] {
        let inner = copy_chars(raw, 1, n - 1);
        if contains_char(inner.as_slice(), raw[0]) {
            return None;
        }
        return Some(from_chars(raw, 1, n - 1));
    }
    let word = from_chars(raw, 0, n);
    assert(raw@.subrange(0, n as int) =~= raw@);
    if str_eq(word.as_str(), "None") || str_eq(word.as_str(), "True") || str_eq(
        word.as_str(),
        "False",
    ) {
        let empty = String::new();
        assert(empty@ =~= Seq::empty());
        Some(empty)
    } else {
        None
    }
}

fn refuse(msg: String, at: Span) -> (r: Error)
    ensures
        r.view() == refusal(msg@, at),
{
    Error { msg, span: at, cause: Cause::Parse }
}

/// The characters without the whitespace around them.
fn trim_chars(v: &[char]) -> (r: Vec<char>)
    ensures
        r@ == text::trim(v@),
{
    let n: usize = v.len();
    assert(v@.subrange(0, n as int) =~= v@);
    let a = skip_white(v, 0, n);
    let b = trimmed_len(v, a, n);
    copy_chars(v, a, b)
}

/// Sets one of the delimiters.
fn set_field(d: &mut Delimiters, key: &str, value: String)
    ensures
        final(d).view() == with_field(old(d).view(), key@, value@),
{
    if str_eq(key, "block_start_string") {
        d.block_start = value;
    } else if str_eq(key, "block_end_string") {
        d.block_end = value;
    } else if str_eq(key, "variable_start_string") {
        d.variable_start = value;
    } else if str_eq(key, "variable_end_string") {
        d.variable_end = value;
    } else if str_eq(key, "comment_start_string") {
        d.comment_start = value;
    } else if str_eq(key, "comment_end_string") {
        d.comment_end = value;
    } else if str_eq(key, "line_statement_prefix") {
        d.line_statement_prefix = Some(value);
    } else if str_eq(key, "line_comment_prefix") {
        d.line_comment_prefix = Some(value);
    }
}

/// Reads one pair of a header into the delimiters.
fn apply_pair(pair: &[char], at: Span, d: &mut Delimiters) -> (r: Result<(), Error>)
    ensures
        match r {
            Ok(()) => pair_of(pair@, at, old(d).view()) == Ok::<Delims, ErrorModel>(
                final(d).view(),
            ),
            Err(e) => pair_of(pair@, at, old(d).view()) == Err::<Delims, ErrorModel>(e.view()),
        },
{
    let n: usize = pair.len();
    let all = trim_chars(pair);
    if all.len() == 0 {
        return Err(refuse("Empty '#jinja2:' override pair not allowed.".to_owned(), at));
    }
    let colon = find_char_or(pair, ':', 0, n);
    if colon >= n {
        let mut msg = "Missing key-value separator `:` in '#jinja2:' override pair ".to_owned();
        msg.append(py_repr(pair).as_str());
        msg.append(".");
        return Err(refuse(msg, at));
    }
    let before = copy_chars(pair, 0, colon);
    let key_chars = trim_chars(before.as_slice());
    let key = from_chars(key_chars.as_slice(), 0, key_chars.len());
    assert(key_chars@.subrange(0, key_chars@.len() as int) =~= key_chars@);
    if !in_set(&OVERRIDE_KEYS, key.as_str()) {
        let mut msg = "Invalid '#jinja2:' override key ".to_owned();
        msg.append(py_repr(key_chars.as_slice()).as_str());
        msg.append(".");
        return Err(refuse(msg, at));
    }
    let behind = copy_chars(pair, colon + 1, n);
    let raw = trim_chars(behind.as_slice());
    match literal(raw.as_slice()) {
        None => {
            let mut msg = "Invalid value ".to_owned();
            msg.append(py_repr(raw.as_slice()).as_str());
            msg.append(" for '#jinja2:' override key ");
            msg.append(py_repr(key_chars.as_slice()).as_str());
            msg.append(".");
            Err(refuse(msg, at))
        },
        Some(value) => {
            set_field(d, key.as_str(), value);
            Ok(())
        },
    }
}

/// Reads the `#jinja2:` line, if there is one. It must open the file: a blank line above it and it
/// is ordinary text. What it names beats `base`; what it does not name keeps the value of `base`.
pub fn header(src: &str, base: &Delimiters) -> (r: Result<Header, Error>)
    ensures
        match r {
            Ok(h) => header_of(src@, base.view()) == Ok::<(Delims, int), ErrorModel>(
                (h.delimiters.view(), h.body as int),
            ) && h.body <= encode_utf8(src@).len(),
            Err(e) => header_of(src@, base.view()) == Err::<(Delims, int), ErrorModel>(e.view()),
        },
{
    if !starts_with(src, JINJA2_OVERRIDE) {
        return Ok(Header { delimiters: base.clone(), body: 0 });
    }
    let bytes: usize = src.as_bytes().len();
    let v = to_chars(src);
    let n: usize = v.len();
    let eol = find_char_or(v.as_slice(), '\n', 0, n);
    if eol >= n {
        return Err(
            refuse(
                "Missing newline after '#jinja2:' override.".to_owned(),
                Span { start: 0, end: bytes },
            ),
        );
    }
    proof {
        reveal_strlit("#jinja2:");
        assert(v@.subrange(0, 8) =~= "#jinja2:"@);
        assert forall|j: int| 0 <= j < 8 implies v@[j] != '\n' by {
            assert(v@.subrange(0, 8)[j] == "#jinja2:"@[j]);
        }
        parse::encode_prefix_le(v@, eol as int);
        parse::encode_prefix_step(v@, eol as int);
        parse::encode_prefix_le(v@, eol + 1);
    }
    let end_of_line = encoded_len(v.as_slice(), 0, eol);
    let mut d = base.clone();
    let mut i: usize = 8;
    let mut more = true;
    while more
        invariant
            more ==> 8 <= i <= eol,
            eol < n == v@.len(),
            v@ == src@,
            encode_utf8(src@).len() <= usize::MAX,
            more ==> pairs_from(src@, 8, eol as int, base.view()) == pairs_from(
                src@,
                i as int,
                eol as int,
                d.view(),
            ),
            !more ==> pairs_from(src@, 8, eol as int, base.view()) == Ok::<Delims, ErrorModel>(
                d.view(),
            ),
            text::begins_with(src@, JINJA2_OVERRIDE@),
            JINJA2_OVERRIDE@.len() == 8,
            eol == char_or(src@, '\n', 0, n as int),
        decreases (if more { eol + 1 - i } else { 0int }),
    {
        let end = find_char_or(v.as_slice(), ',', i, eol);
        proof {
            parse::encode_prefix_le(v@, i as int);
            parse::encode_prefix_le(v@, end as int);
        }
        let at = Span {
            start: encoded_len(v.as_slice(), 0, i),
            end: encoded_len(v.as_slice(), 0, end),
        };
        let pair = copy_chars(v.as_slice(), i, end);
        apply_pair(pair.as_slice(), at, &mut d)?;
        if end < eol {
            i = end + 1;
        } else {
            more = false;
        }
    }
    if str_eq(d.block_start.as_str(), d.variable_start.as_str()) || str_eq(
        d.variable_start.as_str(),
        d.comment_start.as_str(),
    ) || str_eq(d.block_start.as_str(), d.comment_start.as_str()) {
        return Err(
            refuse(
                "Block, variable and comment start strings must be different.".to_owned(),
                Span { start: 0, end: end_of_line },
            ),
        );
    }
    Ok(Header { delimiters: d, body: end_of_line + 1 })
}

/// What a whole template file is made of, and the delimiters that it was read with.
pub open spec fn document_of(src: Seq<char>, base: Delims, root: bool) -> Result<
    (Seq<Block>, Delims),
    ErrorModel,
> {
    let head = if root {
        header_of(src, base)
    } else {
        Ok((base, 0))
    };
    match head {
        Err(e) => Err(e),
        Ok((d, body)) => match blocks_of(src, d, body) {
            Err(e) => Err(e),
            Ok(out) => Ok((out, d)),
        },
    }
}

/// [`blocks`] of a whole template file: reads the `#jinja2:` line, then splits the body with the
/// delimiters that came out of it. `base` is what the parameters of the `template:` module say, or
/// the default.
pub fn document(src: &str, base: &Delimiters) -> (r: Result<(Vec<Block>, Delimiters), Error>)
    ensures
        match r {
            Ok((v, d)) => document_of(src@, base.view(), true) == Ok::<
                (Seq<Block>, Delims),
                ErrorModel,
            >((v@, d.view())) && ordered(v@, encode_utf8(src@).len() as int),
            Err(e) => document_of(src@, base.view(), true) == Err::<
                (Seq<Block>, Delims),
                ErrorModel,
            >(e.view()),
        },
{
    document_in(src, base, true)
}

/// [`document`] of a file whose grammar may be inherited rather than its own: a `#jinja2:` line in a
/// file that is included is ordinary text, and the delimiters it names never apply. `root` decides
/// whether the line is read at all.
pub fn document_in(src: &str, base: &Delimiters, root: bool) -> (r: Result<
    (Vec<Block>, Delimiters),
    Error,
>)
    ensures
        match r {
            Ok((v, d)) => document_of(src@, base.view(), root) == Ok::<
                (Seq<Block>, Delims),
                ErrorModel,
            >((v@, d.view())) && ordered(v@, encode_utf8(src@).len() as int),
            Err(e) => document_of(src@, base.view(), root) == Err::<
                (Seq<Block>, Delims),
                ErrorModel,
            >(e.view()),
        },
{
    if !root {
        let found = blocks(src, base)?;
        return Ok((found, base.clone()));
    }
    let h = header(src, base)?;
    let found = blocks_from(src, &h.delimiters, h.body)?;
    Ok((found, h.delimiters))
}

/// Whitespace control belongs to the delimiters: what a tag holds neither begins nor ends with a
/// marker.
pub proof fn markers_are_no_content(b: Seq<u8>, start: int, end: int)
    requires
        0 <= start <= end <= b.len() <= usize::MAX,
    ensures
        ({
            let w = without_markers(b, start, end);
            &&& start <= w.start <= w.end <= end
            &&& w.start < w.end ==> !is_marker(b[w.start as int]) && !is_marker(b[w.end - 1])
            &&& forall|k: int| start <= k < w.start ==> is_marker(#[trigger] b[k])
            &&& forall|k: int| w.end <= k < end ==> is_marker(#[trigger] b[k])
        }),
{
    skipped_are_markers(b, start, end);
    dropped_are_markers(b, skip_markers(b, start, end), end);
}

proof fn skipped_are_markers(b: Seq<u8>, start: int, end: int)
    requires
        0 <= start <= end <= b.len(),
    ensures
        start <= skip_markers(b, start, end) <= end,
        skip_markers(b, start, end) < end ==> !is_marker(b[skip_markers(b, start, end)]),
        forall|k: int| start <= k < skip_markers(b, start, end) ==> is_marker(#[trigger] b[k]),
    decreases end - start,
{
    if start < end && is_marker(b[start]) {
        skipped_are_markers(b, start + 1, end);
    }
}

proof fn dropped_are_markers(b: Seq<u8>, start: int, end: int)
    requires
        0 <= start <= end <= b.len(),
    ensures
        start <= drop_markers(b, start, end) <= end,
        start < drop_markers(b, start, end) ==> !is_marker(b[drop_markers(b, start, end) - 1]),
        forall|k: int| drop_markers(b, start, end) <= k < end ==> is_marker(#[trigger] b[k]),
    decreases end - start,
{
    if start < end && is_marker(b[end - 1]) {
        dropped_are_markers(b, start, end - 1);
    }
}

/// Where no line prefix is set, no line opens a tag: a `#` is text.
pub proof fn without_prefixes_lines_are_text(src: Seq<char>, d: Delims, i: int)
    requires
        d.line_statement_prefix is None,
        d.line_comment_prefix is None,
    ensures
        match next_opener(src, d, i) {
            Some((_, _, opener)) => opener is Comment || opener is Statement || opener
                is Expression,
            None => true,
        },
{
    reveal(next_opener);
}

} // verus!
