//! What the blocks of a template are: each one but text stands between its own delimiters.

use vstd::prelude::*;
use vstd::utf8::encode_utf8;

use crate::jinja::lexer::ErrorModel;
use crate::jinja::template::{self, Block, Delims, Kind, Opener, Scan};
use crate::text;

verus! {

/// What opens a block of this kind.
pub open spec fn opening(d: Delims, kind: Kind) -> Seq<char> {
    match kind {
        Kind::Comment => d.comment_start,
        Kind::Statement => d.block_start,
        Kind::Expression => d.variable_start,
        Kind::Data => Seq::empty(),
    }
}

/// What closes a block of this kind.
pub open spec fn closing(d: Delims, kind: Kind) -> Seq<char> {
    match kind {
        Kind::Comment => d.comment_end,
        Kind::Statement => d.block_end,
        Kind::Expression => d.variable_end,
        Kind::Data => Seq::empty(),
    }
}

/// Does the block begin with what opens its kind and end with what closes it, with its content
/// between the two?
pub open spec fn enclosed(src: Seq<char>, d: Delims, block: Block) -> bool {
    let b = encode_utf8(src);
    let o = encode_utf8(opening(d, block.kind));
    let c = encode_utf8(closing(d, block.kind));
    let s = block.span.start as int;
    let e = block.span.end as int;
    block.kind != Kind::Data ==> {
        &&& s + o.len() <= block.inner.start <= block.inner.end <= e - c.len()
        &&& e <= b.len()
        &&& b.subrange(s, s + o.len()) == o
        &&& b.subrange(e - c.len(), e) == c
    }
}

/// Is every block enclosed?
pub open spec fn all_enclosed(src: Seq<char>, d: Delims, out: Seq<Block>) -> bool {
    forall|k: int| 0 <= k < out.len() ==> enclosed(src, d, #[trigger] out[k])
}

// ------------------------------------------------------------------ where things are found

proof fn found_first(b: Seq<u8>, p: Seq<u8>, i: int)
    requires
        0 <= i,
    ensures
        match text::find_bytes(b, p, i) {
            Some(k) => i <= k && k + p.len() <= b.len() && b.subrange(k, k + p.len()) == p
                && forall|j: int| i <= j < k ==> !#[trigger] text::bytes_at(b, p, j),
            None => forall|j: int| i <= j ==> !#[trigger] text::bytes_at(b, p, j),
        },
    decreases b.len() + 1 - i,
{
    if i + p.len() <= b.len() && !text::bytes_at(b, p, i) {
        found_first(b, p, i + 1);
    }
}

proof fn string_ends(b: Seq<u8>, quote: u8, j: int)
    ensures
        template::string_end(b, quote, j) is Some ==> j < template::string_end(b, quote, j)->0,
    decreases b.len() + 2 - j,
{
    if 0 <= j < b.len() {
        if b[j] == 92 {
            string_ends(b, quote, j + 2);
        } else if b[j] != quote {
            string_ends(b, quote, j + 1);
        }
    }
}

proof fn tag_ends(b: Seq<u8>, end: Seq<u8>, i: int, depth: int)
    ensures
        match template::tag_end(b, end, i, depth) {
            Some(k) => i <= k && k + end.len() <= b.len() && b.subrange(k, k + end.len()) == end,
            None => true,
        },
    decreases b.len() - i,
{
    if 0 <= i < b.len() {
        if b[i] == 39 || b[i] == 34 {
            if let Some(j) = template::string_end(b, b[i], i + 1) {
                string_ends(b, b[i], i + 1);
                if i < j <= b.len() {
                    tag_ends(b, end, j, depth);
                }
            }
        } else {
            let after = template::depth_at(b[i], depth);
            if !(after == 0 && text::bytes_at(b, end, i)) {
                tag_ends(b, end, i + 1, after);
            }
        }
    }
}

/// The opening that is found stands there, and no opening stands before it.
proof fn opener_found(src: Seq<char>, d: Delims, i: int)
    requires
        0 <= i,
        d.line_statement_prefix is None,
        d.line_comment_prefix is None,
    ensures
        ({
            let b = encode_utf8(src);
            match template::next_opener(src, d, i) {
                Some((at, _, opener)) => {
                    &&& i <= at
                    &&& opener is Comment || opener is Statement || opener is Expression
                    &&& opener is Comment ==> text::bytes_at(b, encode_utf8(d.comment_start), at)
                    &&& opener is Statement ==> text::bytes_at(b, encode_utf8(d.block_start), at)
                    &&& opener is Expression ==> text::bytes_at(
                        b,
                        encode_utf8(d.variable_start),
                        at,
                    )
                },
                None => true,
            }
        }),
{
    reveal(template::next_opener);
    let b = encode_utf8(src);
    found_first(b, encode_utf8(d.comment_start), i);
    found_first(b, encode_utf8(d.block_start), i);
    found_first(b, encode_utf8(d.variable_start), i);
}

// ------------------------------------------------------------------ the scan

proof fn data_keeps(src: Seq<char>, d: Delims, st: Scan, start: int, end: int)
    requires
        all_enclosed(src, d, st.out),
    ensures
        all_enclosed(src, d, template::with_data(src, st, start, end).out),
{
}

proof fn trimming_keeps(src: Seq<char>, d: Delims, out: Seq<Block>)
    requires
        all_enclosed(src, d, out),
    ensures
        all_enclosed(src, d, template::trim_last(src, out)),
{
}

proof fn block_keeps(
    src: Seq<char>,
    d: Delims,
    st: Scan,
    kind: Kind,
    close: int,
    opened: int,
)
    requires
        all_enclosed(src, d, st.out),
        kind != Kind::Data,
        0 <= st.i,
        opened == st.i + encode_utf8(opening(d, kind)).len(),
        text::bytes_at(encode_utf8(src), encode_utf8(opening(d, kind)), st.i),
        opened <= close,
        text::bytes_at(encode_utf8(src), encode_utf8(closing(d, kind)), close),
        encode_utf8(src).len() <= usize::MAX,
    ensures
        all_enclosed(
            src,
            d,
            template::with_block(
                st,
                kind,
                close + encode_utf8(closing(d, kind)).len(),
                template::without_markers(encode_utf8(src), opened, close),
            ).out,
        ),
{
    template::markers_are_no_content(encode_utf8(src), opened, close);
}

#[verifier::spinoff_prover]
proof fn step_keeps(src: Seq<char>, d: Delims, st: Scan, opener: Opener)
    requires
        all_enclosed(src, d, st.out),
        0 <= st.i,
        encode_utf8(src).len() <= usize::MAX,
        opener is Comment || opener is Statement || opener is Expression,
        opener is Comment ==> text::bytes_at(
            encode_utf8(src),
            encode_utf8(d.comment_start),
            st.i,
        ),
        opener is Statement ==> text::bytes_at(encode_utf8(src), encode_utf8(d.block_start), st.i),
        opener is Expression ==> text::bytes_at(
            encode_utf8(src),
            encode_utf8(d.variable_start),
            st.i,
        ),
    ensures
        match template::scan_block(src, d, st, opener) {
            Ok(next) => all_enclosed(src, d, next.out),
            Err(_) => true,
        },
{
    reveal(template::scan_block);
    let b = encode_utf8(src);
    match opener {
        Opener::Comment => {
            let open = st.i + encode_utf8(d.comment_start).len();
            found_first(b, encode_utf8(d.comment_end), open);
            if let Some(close) = text::find_bytes(b, encode_utf8(d.comment_end), open) {
                block_keeps(src, d, st, Kind::Comment, close, open);
            }
        },
        Opener::Expression => {
            let open = st.i + encode_utf8(d.variable_start).len();
            tag_ends(b, encode_utf8(d.variable_end), open, 0);
            if let Some(close) = template::tag_end(b, encode_utf8(d.variable_end), open, 0) {
                block_keeps(src, d, st, Kind::Expression, close, open);
            }
        },
        Opener::Statement => {
            let open = st.i + encode_utf8(d.block_start).len();
            tag_ends(b, encode_utf8(d.block_end), open, 0);
            if let Some(close) = template::tag_end(b, encode_utf8(d.block_end), open, 0) {
                block_keeps(src, d, st, Kind::Statement, close, open);
                let end = close + encode_utf8(d.block_end).len();
                trimming_keeps(src, d, st.out);
                let out = if template::minus_at(b, open) {
                    template::trim_last(src, st.out)
                } else {
                    st.out
                };
                let held = Scan { i: st.i, out, trim: template::minus_at(b, close - 1) };
                if let Some((tag, _, _)) = template::endraw_from(src, d, end) {
                    data_keeps(src, d, held, end, tag);
                    trimming_keeps(src, d, template::with_data(src, held, end, tag).out);
                }
            }
        },
        _ => {},
    }
}

proof fn scan_keeps(src: Seq<char>, d: Delims, st: Scan)
    requires
        all_enclosed(src, d, st.out),
        0 <= st.i,
        encode_utf8(src).len() <= usize::MAX,
        d.line_statement_prefix is None,
        d.line_comment_prefix is None,
    ensures
        match template::scan_from(src, d, st) {
            Ok(out) => all_enclosed(src, d, out),
            Err(_) => true,
        },
    decreases encode_utf8(src).len() - st.i,
{
    let n = encode_utf8(src).len() as int;
    if st.i < n {
        opener_found(src, d, st.i);
        match template::next_opener(src, d, st.i) {
            None => data_keeps(src, d, st, st.i, n),
            Some((at, _, opener)) => {
                data_keeps(src, d, st, st.i, at);
                let here = Scan { i: at, ..template::with_data(src, st, st.i, at) };
                step_keeps(src, d, here, opener);
                if let Ok(next) = template::scan_block(src, d, here, opener) {
                    if st.i < next.i <= n {
                        scan_keeps(src, d, next);
                    }
                }
            },
        }
    }
}

proof fn control_keeps(src: Seq<char>, d: Delims, out: Seq<Block>, k: int)
    requires
        all_enclosed(src, d, out),
        0 <= k,
    ensures
        all_enclosed(src, d, template::control_from(src, d, out, k)),
    decreases out.len() - k,
{
    if k < out.len() {
        let a = template::trim_before(src, d, out, k);
        assert(all_enclosed(src, d, a));
        let b = template::trim_behind(src, d, a, k);
        assert(all_enclosed(src, d, b));
        control_keeps(src, d, b, k + 1);
    }
}

proof fn filling_keeps(src: Seq<char>, d: Delims, out: Seq<Block>, n: int)
    requires
        all_enclosed(src, d, out),
        0 <= n <= out.len(),
    ensures
        all_enclosed(src, d, template::filled(out, n)),
    decreases n,
{
    if n > 0 {
        filling_keeps(src, d, out, n - 1);
    }
}

// ------------------------------------------------------------------ what is promised

/// Every comment, statement and expression of a template begins with what opens its kind and ends
/// with what closes it, and its content lies between the two.
pub proof fn blocks_are_enclosed(src: Seq<char>, d: Delims, start: int)
    requires
        0 <= start,
        encode_utf8(src).len() <= usize::MAX,
        d.line_statement_prefix is None,
        d.line_comment_prefix is None,
    ensures
        match template::blocks_of(src, d, start) {
            Ok(out) => all_enclosed(src, d, out),
            Err(_) => true,
        },
{
    let st = Scan { i: start, out: Seq::empty(), trim: false };
    scan_keeps(src, d, st);
    if let Ok(out) = template::scan_from(src, d, st) {
        control_keeps(src, d, out, 0);
        let done = template::control_from(src, d, out, 0);
        filling_keeps(src, d, done, done.len() as int);
    }
}

/// A text in which nothing opens is one block of text, all of it.
pub proof fn a_text_without_openings_is_data(src: Seq<char>, d: Delims)
    requires
        0 < encode_utf8(src).len() <= usize::MAX,
        d.line_statement_prefix is None,
        d.line_comment_prefix is None,
        forall|i: int|
            0 <= i ==> !#[trigger] text::bytes_at(
                encode_utf8(src),
                encode_utf8(d.comment_start),
                i,
            ),
        forall|i: int|
            0 <= i ==> !#[trigger] text::bytes_at(
                encode_utf8(src),
                encode_utf8(d.block_start),
                i,
            ),
        forall|i: int|
            0 <= i ==> !#[trigger] text::bytes_at(
                encode_utf8(src),
                encode_utf8(d.variable_start),
                i,
            ),
    ensures
        template::blocks_of(src, d, 0) == Ok::<Seq<Block>, ErrorModel>(
            seq![
                Block {
                    kind: Kind::Data,
                    span: template::span(0, encode_utf8(src).len() as int),
                    inner: template::span(0, encode_utf8(src).len() as int),
                },
            ],
        ),
{
    let n = encode_utf8(src).len() as int;
    opener_found(src, d, 0);
    let one = seq![template::data_block(0, n)];
    assert(Seq::<Block>::empty().push(template::data_block(0, n)) =~= one);
    assert(template::scan_from(src, d, Scan { i: 0, out: Seq::empty(), trim: false }) == Ok::<
        Seq<Block>,
        ErrorModel,
    >(one));
    reveal_with_fuel(template::control_from, 2);
    reveal_with_fuel(template::filled, 2);
    assert(one.len() == 1 && one[0] == template::data_block(0, n));
    assert(template::control_from(src, d, one, 0) == one);
    assert(template::filled(one, 1) =~= one);
}

/// Bytes that are neither quotes nor brackets.
pub open spec fn flat(b: Seq<u8>, from: int, to: int) -> bool {
    forall|k: int|
        from <= k < to ==> #[trigger] b[k] != 39 && b[k] != 34 && b[k] != 40 && b[k] != 41 && b[k]
            != 91 && b[k] != 93 && b[k] != 123 && b[k] != 125
}

proof fn flat_ends(b: Seq<u8>, end: Seq<u8>, i: int, to: int)
    requires
        0 <= i <= to,
        to < b.len(),
        flat(b, i, to),
        forall|k: int| i <= k < to ==> !#[trigger] text::bytes_at(b, end, k),
        text::bytes_at(b, end, to),
        b[to] == 125 || b[to] == 37,
    ensures
        template::tag_end(b, end, i, 0) == Some(to),
    decreases to - i,
{
    if i < to {
        assert(b[i] != 39);
        assert(!text::bytes_at(b, end, i));
        flat_ends(b, end, i + 1, to);
    }
}

/// The usual delimiters, as bytes.
proof fn usual_delimiters()
    ensures
        encode_utf8("{%"@) == seq![123u8, 37u8],
        encode_utf8("%}"@) == seq![37u8, 125u8],
        encode_utf8("{{"@) == seq![123u8, 123u8],
        encode_utf8("}}"@) == seq![125u8, 125u8],
        encode_utf8("{#"@) == seq![123u8, 35u8],
        encode_utf8("#}"@) == seq![35u8, 125u8],
{
    reveal_strlit("{%");
    reveal_strlit("%}");
    reveal_strlit("{{");
    reveal_strlit("}}");
    reveal_strlit("{#");
    reveal_strlit("#}");
    vstd::utf8::is_ascii_chars_encode_utf8("{%"@);
    vstd::utf8::is_ascii_chars_encode_utf8("%}"@);
    vstd::utf8::is_ascii_chars_encode_utf8("{{"@);
    vstd::utf8::is_ascii_chars_encode_utf8("}}"@);
    vstd::utf8::is_ascii_chars_encode_utf8("{#"@);
    vstd::utf8::is_ascii_chars_encode_utf8("#}"@);
    assert(encode_utf8("{%"@) =~= seq![123u8, 37u8]);
    assert(encode_utf8("%}"@) =~= seq![37u8, 125u8]);
    assert(encode_utf8("{{"@) =~= seq![123u8, 123u8]);
    assert(encode_utf8("}}"@) =~= seq![125u8, 125u8]);
    assert(encode_utf8("{#"@) =~= seq![123u8, 35u8]);
    assert(encode_utf8("#}"@) =~= seq![35u8, 125u8]);
}

proof fn two_bytes(b: Seq<u8>, x: u8, y: u8, i: int)
    ensures
        text::bytes_at(b, seq![x, y], i) == (0 <= i && i + 2 <= b.len() && b[i] == x && b[i + 1]
            == y),
{
    if 0 <= i && i + 2 <= b.len() {
        let s = b.subrange(i, i + 2);
        assert(s[0] == b[i] && s[1] == b[i + 1]);
        if b[i] == x && b[i + 1] == y {
            assert(s =~= seq![x, y]);
        }
    }
}

/// What opens at the very start of a text is what stands there.
proof fn opens_at_the_start(src: Seq<char>, second: u8)
    requires
        encode_utf8(src).len() >= 2,
        encode_utf8(src)[0] == 123,
        encode_utf8(src)[1] == second,
        second == 35 || second == 37 || second == 123,
    ensures
        match template::next_opener(src, template::default_delims(), 0) {
            Some((at, _, opener)) => at == 0 && (opener is Comment <==> second == 35) && (opener
                is Statement <==> second == 37) && (opener is Expression <==> second == 123),
            None => false,
        },
{
    let b = encode_utf8(src);
    let d = template::default_delims();
    usual_delimiters();
    two_bytes(b, 123, 35, 0);
    two_bytes(b, 123, 37, 0);
    two_bytes(b, 123, 123, 0);
    found_first(b, encode_utf8(d.comment_start), 0);
    found_first(b, encode_utf8(d.block_start), 0);
    found_first(b, encode_utf8(d.variable_start), 0);
    reveal(template::next_opener);
}

proof fn alone(src: Seq<char>, one: Block)
    requires
        one.kind != Kind::Data,
        template::scan_from(
            src,
            template::default_delims(),
            Scan { i: 0, out: Seq::empty(), trim: false },
        ) == Ok::<Seq<Block>, ErrorModel>(seq![one]),
    ensures
        template::blocks_of(src, template::default_delims(), 0) == Ok::<Seq<Block>, ErrorModel>(
            seq![one],
        ),
{
    let d = template::default_delims();
    let out = seq![one];
    reveal_with_fuel(template::control_from, 2);
    reveal_with_fuel(template::filled, 2);
    assert(out.len() == 1 && out[0] == one);
    assert(template::control_from(src, d, out, 0) == out);
    assert(template::filled(out, 1) =~= out);
}

/// A text between the usual delimiters of an expression or a statement, with no quotes, brackets
/// and closing delimiter in it, is that one block. A statement must not be `raw`.
pub proof fn a_tag_is_one_block(src: Seq<char>, n: int, kind: Kind)
    requires
        kind == Kind::Expression || kind == Kind::Statement,
        4 <= n,
        n == encode_utf8(src).len(),
        n <= usize::MAX,
        ({
            let b = encode_utf8(src);
            &&& b[0] == 123 && b[n - 1] == 125
            &&& kind == Kind::Expression ==> b[1] == 123 && b[n - 2] == 125
            &&& kind == Kind::Statement ==> b[1] == 37 && b[n - 2] == 37
            &&& flat(b, 2, n - 2)
            &&& kind == Kind::Statement ==> {
                let inner = template::without_markers(b, 2, n - 2);
                template::tag_word(
                    crate::parse::text_between(src, inner.start as int, inner.end as int),
                ) != "raw"@
            }
        }),
    ensures
        template::blocks_of(src, template::default_delims(), 0) == Ok::<Seq<Block>, ErrorModel>(
            seq![
                Block {
                    kind,
                    span: template::span(0, n),
                    inner: template::without_markers(encode_utf8(src), 2, n - 2),
                },
            ],
        ),
{
    let b = encode_utf8(src);
    let d = template::default_delims();
    usual_delimiters();
    opens_at_the_start(src, b[1]);
    let end = encode_utf8(closing(d, kind));
    assert forall|k: int| 2 <= k < n - 2 implies !#[trigger] text::bytes_at(b, end, k) by {
        two_bytes(b, end[0], end[1], k);
        assert(end =~= seq![end[0], end[1]]);
        assert(b[k] != 125);
        if k + 1 < n - 2 {
            assert(b[k + 1] != 125);
        }
    }
    two_bytes(b, end[0], end[1], n - 2);
    assert(end =~= seq![end[0], end[1]]);
    flat_ends(b, end, 2, n - 2);
    let st = Scan { i: 0, out: Seq::empty(), trim: false };
    let here = Scan { i: 0, ..template::with_data(src, st, 0, 0) };
    assert(here == st);
    let one = Block {
        kind,
        span: template::span(0, n),
        inner: template::without_markers(b, 2, n - 2),
    };
    reveal(template::scan_block);
    assert(Seq::<Block>::empty().push(one) =~= seq![one]);
    let next = Scan { i: n, out: seq![one], trim: false };
    let opener = if kind == Kind::Expression {
        Opener::Expression
    } else {
        Opener::Statement
    };
    assert(template::scan_block(src, d, here, opener) == Ok::<Scan, ErrorModel>(next));
    reveal_with_fuel(template::scan_from, 2);
    alone(src, one);
}

/// A text between the usual delimiters of a comment, with no other end of a comment in it, is that
/// one comment.
pub proof fn a_comment_is_one_block(src: Seq<char>, n: int)
    requires
        4 <= n,
        n == encode_utf8(src).len(),
        n <= usize::MAX,
        ({
            let b = encode_utf8(src);
            &&& b[0] == 123 && b[1] == 35 && b[n - 2] == 35 && b[n - 1] == 125
            &&& forall|k: int| 2 <= k < n - 2 && #[trigger] b[k] == 35 ==> b[k + 1] != 125
        }),
    ensures
        template::blocks_of(src, template::default_delims(), 0) == Ok::<Seq<Block>, ErrorModel>(
            seq![
                Block {
                    kind: Kind::Comment,
                    span: template::span(0, n),
                    inner: template::without_markers(encode_utf8(src), 2, n - 2),
                },
            ],
        ),
{
    let b = encode_utf8(src);
    let d = template::default_delims();
    usual_delimiters();
    opens_at_the_start(src, 35);
    let end = seq![35u8, 125u8];
    found_first(b, end, 2);
    two_bytes(b, 35, 125, n - 2);
    if let Some(k) = text::find_bytes(b, end, 2) {
        two_bytes(b, 35, 125, k);
        assert(text::bytes_at(b, end, k));
        if k < n - 2 {
            assert(b[k] == 35);
        }
    }
    let st = Scan { i: 0, out: Seq::empty(), trim: false };
    let here = Scan { i: 0, ..template::with_data(src, st, 0, 0) };
    assert(here == st);
    let one = Block {
        kind: Kind::Comment,
        span: template::span(0, n),
        inner: template::without_markers(b, 2, n - 2),
    };
    reveal(template::scan_block);
    assert(Seq::<Block>::empty().push(one) =~= seq![one]);
    let next = Scan { i: n, out: seq![one], trim: false };
    assert(template::scan_block(src, d, here, Opener::Comment) == Ok::<Scan, ErrorModel>(next));
    reveal_with_fuel(template::scan_from, 2);
    alone(src, one);
}

// ------------------------------------------------------------------ white space and raw text

/// The text of a block.
pub open spec fn text_of(src: Seq<char>, block: Block) -> Seq<char> {
    crate::parse::text_between(src, block.span.start as int, block.span.end as int)
}

/// The text in front of a tag loses the white space at its end where a minus stands directly
/// behind what opens the tag, and nothing otherwise.
pub proof fn a_minus_trims_before(src: Seq<char>, d: Delims, out: Seq<Block>, k: int)
    requires
        0 < k < out.len(),
        out[k - 1].kind == Kind::Data,
        out[k].kind != Kind::Data,
    ensures
        ({
            let b = encode_utf8(src);
            let at = out[k].span.start + encode_utf8(opening(d, out[k].kind)).len();
            let s = out[k - 1].span.start as int;
            let next = template::trim_before(src, d, out, k);
            if at < b.len() && b[at] == 45 {
                next == out.update(
                    k - 1,
                    template::data_block(
                        s,
                        s + encode_utf8(text::trim_end(text_of(src, out[k - 1]))).len(),
                    ),
                )
            } else {
                next == out
            }
        }),
{
}

/// The text behind a tag loses the white space at its start where a minus stands directly in front
/// of what closes the tag, and nothing otherwise.
pub proof fn a_minus_trims_behind(src: Seq<char>, d: Delims, out: Seq<Block>, k: int)
    requires
        0 <= k < out.len() - 1,
        out[k].kind != Kind::Data,
        out[k + 1].kind == Kind::Data,
        enclosed(src, d, out[k]),
        encode_utf8(opening(d, out[k].kind)).len() > 0,
    ensures
        ({
            let b = encode_utf8(src);
            let at = out[k].span.end - encode_utf8(closing(d, out[k].kind)).len() - 1;
            let t = text_of(src, out[k + 1]);
            let next = template::trim_behind(src, d, out, k);
            if b[at] == 45 {
                next == out.update(
                    k + 1,
                    template::data_block(
                        out[k + 1].span.start + encode_utf8(t).len() - encode_utf8(
                            text::trim_start(t),
                        ).len(),
                        out[k + 1].span.end as int,
                    ),
                )
            } else {
                next == out
            }
        }),
{
}

/// The text between a `raw` tag and its `endraw` is one block of text, and the scan goes on behind
/// the `endraw`. Without an `endraw` the template is refused.
pub proof fn raw_text_is_data(src: Seq<char>, d: Delims, st: Scan, close: int)
    requires
        ({
            let b = encode_utf8(src);
            let open = st.i + encode_utf8(d.block_start).len();
            let inner = template::without_markers(b, open, close);
            &&& template::tag_end(b, encode_utf8(d.block_end), open, 0) == Some(close)
            &&& template::tag_word(
                crate::parse::text_between(src, inner.start as int, inner.end as int),
            ) == "raw"@
            &&& !template::minus_at(b, open)
            &&& !template::minus_at(b, close - 1)
        }),
        !st.trim,
    ensures
        ({
            let b = encode_utf8(src);
            let body = close + encode_utf8(d.block_end).len();
            match template::endraw_from(src, d, body) {
                None => template::scan_statement(src, d, st) is Err,
                Some((tag, o, c)) => !template::minus_at(b, o) ==> {
                    let next = template::scan_statement(src, d, st);
                    &&& next is Ok
                    &&& next->Ok_0.i == c + encode_utf8(d.block_end).len()
                    &&& next->Ok_0.out == if body < tag {
                        st.out.push(
                            Block {
                                kind: Kind::Data,
                                span: template::span(body, tag),
                                inner: template::span(body, tag),
                            },
                        )
                    } else {
                        st.out
                    }
                },
            }
        }),
{
}

} // verus!
