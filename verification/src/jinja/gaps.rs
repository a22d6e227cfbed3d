//! What lies between the blocks of a template. A span that does not cover the source is a mark in
//! the wrong place of an editor, so nothing of a template goes missing but `raw` and `endraw` tags
//! and the whitespace that a `-` in the template itself asks to drop.

use crate::jinja::lexer::{self, ErrorModel};
use crate::jinja::template::{self, Block, Delims, Kind, Opener, Scan};
use crate::parse;
use crate::text;
use vstd::prelude::*;
use vstd::utf8::*;

verus! {

/// Are the bytes from `s` to `e` those of whitespace?
pub open spec fn is_space(src: Seq<char>, s: int, e: int) -> bool {
    exists|w: Seq<char>| spells(src, s, e, w)
}

/// Do the bytes from `s` to `e` spell the whitespace `w`?
pub open spec fn spells(src: Seq<char>, s: int, e: int, w: Seq<char>) -> bool {
    &&& 0 <= s <= e <= encode_utf8(src).len()
    &&& encode_utf8(src).subrange(s, e) == encode_utf8(w)
    &&& forall|k: int| 0 <= k < w.len() ==> text::white(#[trigger] w[k])
}

/// Does the byte at `p` belong to whitespace?
pub open spec fn space_at(src: Seq<char>, p: int) -> bool {
    exists|s: int, e: int| s <= p < e && #[trigger] is_space(src, s, e)
}

/// Is there only whitespace between `s` and `e`?
pub open spec fn blank(src: Seq<char>, s: int, e: int) -> bool {
    forall|p: int| s <= p < e ==> #[trigger] space_at(src, p)
}

/// Does a `raw` or an `endraw` tag reach from `s` to `e`?
pub open spec fn raw_tag(src: Seq<char>, d: Delims, s: int, e: int) -> bool {
    let b = encode_utf8(src);
    let open = s + encode_utf8(d.block_start).len();
    let close = e - encode_utf8(d.block_end).len();
    &&& text::bytes_at(b, encode_utf8(d.block_start), s)
    &&& s < e <= b.len()
    &&& {
        ||| template::endraw_close(src, d, open) == Some(close)
        ||| {
            let inner = template::without_markers(b, open, close);
            let body = parse::text_between(src, inner.start as int, inner.end as int);
            template::tag_end(b, encode_utf8(d.block_end), open, 0) == Some(close)
                && template::tag_word(body) == "raw"@
        }
    }
}

/// Does the byte at `p` belong to a `raw` or `endraw` tag between `s` and `e`?
pub open spec fn in_tag(src: Seq<char>, d: Delims, s: int, e: int, p: int) -> bool {
    exists|u: int, v: int| s <= u <= p < v <= e && #[trigger] raw_tag(src, d, u, v)
}

/// Is there nothing between `s` and `e` but whitespace and such tags?
pub open spec fn loose(src: Seq<char>, d: Delims, s: int, e: int) -> bool {
    forall|p: int| s <= p < e ==> space_at(src, p) || #[trigger] in_tag(src, d, s, e, p)
}

pub open spec fn has_tag(src: Seq<char>, d: Delims, s: int, e: int) -> bool {
    exists|u: int, v: int| s <= u < v <= e && #[trigger] raw_tag(src, d, u, v)
}

/// Is there at least one `raw` or `endraw` tag between `s` and `e`, and beside such tags only
/// whitespace?
pub open spec fn tagged(src: Seq<char>, d: Delims, s: int, e: int) -> bool {
    has_tag(src, d, s, e) && loose(src, d, s, e)
}

/// May what lies between `s` and `e` be in no block? There is nothing between them; or tags that
/// become no block; or whitespace that the block before or the one behind asks to drop.
pub open spec fn may_be_missing(
    src: Seq<char>,
    d: Delims,
    before: Option<Block>,
    s: int,
    e: int,
    behind: Option<Block>,
) -> bool {
    let b = encode_utf8(src);
    &&& s <= e
    &&& {
        ||| s == e
        ||| tagged(src, d, s, e)
        ||| {
            &&& blank(src, s, e)
            &&& {
                ||| before is Some && template::closes_minus(b, d, before->0)
                ||| behind is Some && template::opens_minus(b, d, behind->0)
            }
        }
    }
}

/// The block before gap `k`; the gap before the first block is gap 0.
pub open spec fn before(out: Seq<Block>, k: int) -> Option<Block> {
    if 0 < k <= out.len() {
        Some(out[k - 1])
    } else {
        None
    }
}

/// The block behind gap `k`.
pub open spec fn behind(out: Seq<Block>, k: int) -> Option<Block> {
    if 0 <= k < out.len() {
        Some(out[k])
    } else {
        None
    }
}

/// Where gap `k` begins, in a template that is read from `start` on.
pub open spec fn gap_from(out: Seq<Block>, start: int, k: int) -> int {
    match before(out, k) {
        Some(block) => block.span.end as int,
        None => start,
    }
}

/// Where gap `k` ends, in a template that is read up to `end`.
pub open spec fn gap_to(out: Seq<Block>, end: int, k: int) -> int {
    match behind(out, k) {
        Some(block) => block.span.start as int,
        None => end,
    }
}

/// Is gap `k` one that may be there?
pub open spec fn gap_ok(
    src: Seq<char>,
    d: Delims,
    out: Seq<Block>,
    start: int,
    end: int,
    k: int,
) -> bool {
    may_be_missing(
        src,
        d,
        before(out, k),
        gap_from(out, start, k),
        gap_to(out, end, k),
        behind(out, k),
    )
}

/// Do the blocks and the gaps that may be there make up the template from `start` to `end`?
pub open spec fn accounted(src: Seq<char>, d: Delims, out: Seq<Block>, start: int, end: int) -> bool {
    &&& forall|k: int|
        0 <= k < out.len() ==> (#[trigger] out[k]).span.start <= out[k].span.end <= end
    &&& forall|k: int| 0 <= k <= out.len() ==> #[trigger] gap_ok(src, d, out, start, end, k)
}

// ------------------------------------------------------------------ whitespace and tags

proof fn blank_is_loose(src: Seq<char>, d: Delims, s: int, e: int)
    requires
        blank(src, s, e),
    ensures
        loose(src, d, s, e),
{
}

proof fn loose_joins(src: Seq<char>, d: Delims, s: int, m: int, e: int)
    requires
        s <= m <= e,
        loose(src, d, s, m),
        loose(src, d, m, e),
    ensures
        loose(src, d, s, e),
{
    assert forall|p: int| s <= p < e && !space_at(src, p) implies #[trigger] in_tag(
        src,
        d,
        s,
        e,
        p,
    ) by {
        if p < m {
            assert(in_tag(src, d, s, m, p));
        } else {
            assert(in_tag(src, d, m, e, p));
        }
    }
}

/// What holds a tag still does with whitespace and tags on either side.
proof fn tagged_grows(src: Seq<char>, d: Delims, s: int, u: int, v: int, e: int)
    requires
        s <= u <= v <= e,
        loose(src, d, s, u),
        tagged(src, d, u, v),
        loose(src, d, v, e),
    ensures
        tagged(src, d, s, e),
{
    loose_joins(src, d, s, u, v);
    loose_joins(src, d, s, v, e);
    let (a, c) = choose|a: int, c: int| u <= a < c <= v && #[trigger] raw_tag(src, d, a, c);
    assert(s <= a < c <= e && raw_tag(src, d, a, c));
}

proof fn a_tag_is_tagged(src: Seq<char>, d: Delims, s: int, e: int)
    requires
        raw_tag(src, d, s, e),
    ensures
        tagged(src, d, s, e),
{
    assert(s <= s < e <= e && raw_tag(src, d, s, e));
    assert forall|p: int| s <= p < e implies #[trigger] in_tag(src, d, s, e, p) by {
        assert(s <= s <= p < e <= e && raw_tag(src, d, s, e));
    }
}

/// The bytes between two offsets are those of the text between them, where there is any.
proof fn between_spells(src: Seq<char>, s: int, e: int)
    requires
        0 <= s <= e <= encode_utf8(src).len(),
    ensures
        encode_utf8(parse::text_between(src, s, e)).len() > 0 ==> encode_utf8(
            parse::text_between(src, s, e),
        ) == encode_utf8(src).subrange(s, e),
{
    parse::text_between_len(src, s, e);
    encode_utf8_valid_utf8(src);
    if is_char_boundary(encode_utf8(src), s) && is_char_boundary(encode_utf8(src), e) {
        parse::text_between_bytes(src, s, e);
    } else {
        assert(encode_utf8(Seq::<char>::empty()) =~= Seq::empty());
    }
}

proof fn space_is_blank(src: Seq<char>, s: int, e: int, w: Seq<char>)
    requires
        spells(src, s, e, w),
    ensures
        blank(src, s, e),
{
    assert(is_space(src, s, e));
    assert forall|p: int| s <= p < e implies #[trigger] space_at(src, p) by {
        assert(s <= p < e && is_space(src, s, e));
    }
}

/// Where a stretch between two boundaries falls into two texts, it does so at a boundary.
proof fn parts_at_boundary(src: Seq<char>, s: int, first: Seq<char>, e: int, second: Seq<char>)
    requires
        0 <= s <= e <= encode_utf8(src).len(),
        encode_utf8(src).subrange(s, e) == encode_utf8(first) + encode_utf8(second),
        is_char_boundary(encode_utf8(src), s),
        is_char_boundary(encode_utf8(src), e),
    ensures
        is_char_boundary(encode_utf8(src), s + encode_utf8(first).len()),
{
    let b = encode_utf8(src);
    let x = encode_utf8(first);
    assert((x + encode_utf8(second)).len() == e - s);
    if x.len() > 0 {
        assert(b.subrange(s, s + x.len()) =~= b.subrange(s, e).subrange(0, x.len() as int));
        assert((x + encode_utf8(second)).subrange(0, x.len() as int) =~= x);
        parse::found_between_boundaries(src, first, s);
    }
}

/// What is taken from the start of a text is whitespace.
proof fn lead_is_blank(src: Seq<char>, s: int, e: int)
    requires
        0 <= s <= e <= encode_utf8(src).len(),
    ensures
        0 <= template::lead_white(src, s, e) <= e - s,
        blank(src, s, s + template::lead_white(src, s, e)),
        is_char_boundary(encode_utf8(src), s) ==> is_char_boundary(
            encode_utf8(src),
            s + template::lead_white(src, s, e),
        ),
{
    let b = encode_utf8(src);
    let t = parse::text_between(src, s, e);
    template::trim_bounds(src, s, e);
    between_spells(src, s, e);
    text::trimmed_start_is_white(t);
    let k = t.len() - text::trim_start(t).len();
    let w = t.subrange(0, k);
    let rest = t.subrange(k, t.len() as int);
    assert(t =~= w + rest);
    parse::encode_concat(w, rest);
    let lead = template::lead_white(src, s, e);
    encode_utf8_valid_utf8(src);
    if lead > 0 {
        assert(b.subrange(s, s + lead) =~= b.subrange(s, e).subrange(0, lead));
        assert((encode_utf8(w) + encode_utf8(rest)).subrange(0, lead) =~= encode_utf8(w));
        space_is_blank(src, s, s + lead, w);
        parts_at_boundary(src, s, w, e, rest);
    }
}

/// What is taken from the end of a text is whitespace.
proof fn trail_is_blank(src: Seq<char>, s: int, e: int)
    requires
        0 <= s <= e <= encode_utf8(src).len(),
        is_char_boundary(encode_utf8(src), s),
        is_char_boundary(encode_utf8(src), e),
    ensures
        0 <= template::trimmed(src, s, e) <= e - s,
        blank(src, s + template::trimmed(src, s, e), e),
        is_char_boundary(encode_utf8(src), s + template::trimmed(src, s, e)),
{
    let b = encode_utf8(src);
    let t = parse::text_between(src, s, e);
    template::trim_bounds(src, s, e);
    parse::text_between_bytes(src, s, e);
    text::trimmed_end_is_white(t);
    let k = text::trim_end(t).len() as int;
    let w = t.subrange(k, t.len() as int);
    let rest = t.subrange(0, k);
    assert(t =~= rest + w);
    parse::encode_concat(rest, w);
    let len = template::trimmed(src, s, e);
    assert(b.subrange(s + len, e) =~= b.subrange(s, e).subrange(len, e - s));
    assert((encode_utf8(rest) + encode_utf8(w)).subrange(len, e - s) =~= encode_utf8(w));
    space_is_blank(src, s + len, e, w);
    parts_at_boundary(src, s, rest, e, w);
}

// ------------------------------------------------------------------ the scan

/// What is between `s` and `e` while the template is still read: nothing, or tags.
spec fn gapped(src: Seq<char>, d: Delims, s: int, e: int) -> bool {
    s <= e && (s == e || tagged(src, d, s, e))
}

spec fn held(src: Seq<char>, d: Delims, out: Seq<Block>, start: int, end: int, k: int) -> bool {
    gapped(src, d, gap_from(out, start, k), gap_to(out, end, k))
}

/// Does the block end by `end`, and does data lie between two boundaries?
spec fn sound(src: Seq<char>, block: Block, end: int) -> bool {
    let b = encode_utf8(src);
    &&& block.span.start <= block.span.end <= end
    &&& block.kind == Kind::Data ==> is_char_boundary(b, block.span.start as int)
        && is_char_boundary(b, block.span.end as int)
}

/// Do the blocks that were read and the tags between them make up the template from `start` to
/// `end`?
spec fn whole(src: Seq<char>, d: Delims, out: Seq<Block>, start: int, end: int) -> bool {
    &&& 0 <= start <= end <= encode_utf8(src).len() <= usize::MAX
    &&& forall|k: int| 0 <= k < out.len() ==> sound(src, #[trigger] out[k], end)
    &&& forall|k: int| 0 <= k <= out.len() ==> #[trigger] held(src, d, out, start, end, k)
}

spec fn scan_ok(src: Seq<char>, d: Delims, st: Scan, start: int) -> bool {
    &&& whole(src, d, st.out, start, st.i)
    &&& is_char_boundary(encode_utf8(src), st.i)
    &&& st.trim ==> tagged(src, d, gap_from(st.out, start, st.out.len() as int), st.i)
}

proof fn gapped_is_loose(src: Seq<char>, d: Delims, s: int, e: int)
    requires
        gapped(src, d, s, e),
    ensures
        loose(src, d, s, e),
{
}

/// The end may move on over what is no block.
proof fn whole_to(src: Seq<char>, d: Delims, out: Seq<Block>, start: int, i: int, end: int)
    requires
        whole(src, d, out, start, i),
        i <= end <= encode_utf8(src).len(),
        gapped(src, d, gap_from(out, start, out.len() as int), end),
    ensures
        whole(src, d, out, start, end),
{
    assert forall|k: int| 0 <= k <= out.len() implies #[trigger] held(
        src,
        d,
        out,
        start,
        end,
        k,
    ) by {
        assert(held(src, d, out, start, i, k));
    }
    assert forall|k: int| 0 <= k < out.len() implies sound(src, #[trigger] out[k], end) by {
        assert(sound(src, out[k], i));
    }
}

/// A block may follow where the tags behind the last one end.
proof fn whole_push(
    src: Seq<char>,
    d: Delims,
    out: Seq<Block>,
    start: int,
    i: int,
    block: Block,
    end: int,
)
    requires
        whole(src, d, out, start, i),
        i <= end <= encode_utf8(src).len(),
        sound(src, block, end),
        block.span.end == end,
        gapped(src, d, gap_from(out, start, out.len() as int), block.span.start as int),
    ensures
        whole(src, d, out.push(block), start, end),
{
    let next = out.push(block);
    assert forall|k: int| 0 <= k <= next.len() implies #[trigger] held(
        src,
        d,
        next,
        start,
        end,
        k,
    ) by {
        if k < out.len() {
            assert(held(src, d, out, start, i, k));
            assert(next[k] == out[k]);
            assert(before(next, k) == before(out, k));
        } else if k == out.len() {
            assert(before(next, k) == before(out, k));
        }
    }
    assert forall|k: int| 0 <= k < next.len() implies sound(src, #[trigger] next[k], end) by {
        if k < out.len() {
            assert(sound(src, out[k], i));
        }
    }
}

/// Reading data up to `at`.
proof fn data_step(src: Seq<char>, d: Delims, st: Scan, start: int, at: int)
    requires
        scan_ok(src, d, st, start),
        st.i <= at <= encode_utf8(src).len(),
        is_char_boundary(encode_utf8(src), at),
    ensures
        scan_ok(src, d, Scan { i: at, ..template::with_data(src, st, st.i, at) }, start),
{
    let len = st.out.len() as int;
    let low = gap_from(st.out, start, len);
    assert(held(src, d, st.out, start, st.i, len));
    lead_is_blank(src, st.i, at);
    let from = if st.trim {
        st.i + template::lead_white(src, st.i, at)
    } else {
        st.i
    };
    if st.trim {
        blank_is_loose(src, d, st.i, from);
        assert(loose(src, d, low, low));
        tagged_grows(src, d, low, low, st.i, from);
    }
    if from < at {
        let block = template::data_block(from, at);
        whole_push(src, d, st.out, start, st.i, block, at);
    } else {
        whole_to(src, d, st.out, start, st.i, at);
    }
}

/// Behind a tag that becomes no block.
proof fn tag_step(src: Seq<char>, d: Delims, out: Seq<Block>, start: int, i: int, end: int)
    requires
        whole(src, d, out, start, i),
        raw_tag(src, d, i, end),
    ensures
        whole(src, d, out, start, end),
        tagged(src, d, gap_from(out, start, out.len() as int), end),
{
    let len = out.len() as int;
    let low = gap_from(out, start, len);
    assert(held(src, d, out, start, i, len));
    a_tag_is_tagged(src, d, i, end);
    gapped_is_loose(src, d, low, i);
    assert(loose(src, d, end, end));
    tagged_grows(src, d, low, i, end, end);
    whole_to(src, d, out, start, i, end);
}

/// Behind a tag that becomes no block and took the whitespace from the data before it.
#[verifier::spinoff_prover]
proof fn minus_tag_step(src: Seq<char>, d: Delims, out: Seq<Block>, start: int, i: int, end: int)
    requires
        whole(src, d, out, start, i),
        raw_tag(src, d, i, end),
    ensures
        whole(src, d, template::trim_last(src, out), start, end),
        tagged(
            src,
            d,
            gap_from(
                template::trim_last(src, out),
                start,
                template::trim_last(src, out).len() as int,
            ),
            end,
        ),
{
    let len = out.len() as int;
    tag_step(src, d, out, start, i, end);
    if len > 0 && out.last().kind == Kind::Data {
        let s = out.last().span.start as int;
        let e = out.last().span.end as int;
        let left = template::trimmed(src, s, e);
        assert(sound(src, out[len - 1], i));
        trail_is_blank(src, s, e);
        assert(tagged(src, d, s + left, end)) by {
            blank_is_loose(src, d, s + left, e);
            assert(loose(src, d, end, end));
            tagged_grows(src, d, s + left, e, end, end);
        }
        let init = out.drop_last();
        shorter(src, d, out, start, i);
        let under = gap_from(init, start, len - 1);
        assert(gapped(src, d, under, s)) by {
            assert(held(src, d, init, start, s, len - 1));
        }
        if left == 0 {
            assert(tagged(src, d, under, end)) by {
                gapped_is_loose(src, d, under, s);
                assert(loose(src, d, end, end));
                tagged_grows(src, d, under, s, end, end);
            }
            whole_to(src, d, init, start, s, end);
        } else {
            let block = template::data_block(s, s + left);
            whole_push(src, d, init, start, s, block, s + left);
            whole_to(src, d, init.push(block), start, s + left, end);
        }
    }
}

/// The blocks before the last one make up the template up to it.
proof fn shorter(src: Seq<char>, d: Delims, out: Seq<Block>, start: int, i: int)
    requires
        whole(src, d, out, start, i),
        out.len() > 0,
    ensures
        whole(src, d, out.drop_last(), start, out.last().span.start as int),
{
    let init = out.drop_last();
    let s = out.last().span.start as int;
    ends_before(src, d, out, start, i, out.len() - 1);
    assert forall|k: int| 0 <= k <= init.len() implies #[trigger] held(
        src,
        d,
        init,
        start,
        s,
        k,
    ) by {
        assert(held(src, d, out, start, i, k));
        assert(before(init, k) == before(out, k));
    }
    assert(sound(src, out[out.len() - 1], i));
    assert forall|k: int| 0 <= k < init.len() implies sound(src, #[trigger] init[k], s) by {
        assert(sound(src, out[k], i));
        ends_before(src, d, out, start, i, out.len() - 1);
    }
}

/// No block begins before another one that stands before it ends.
proof fn ends_before(src: Seq<char>, d: Delims, out: Seq<Block>, start: int, i: int, k: int)
    requires
        whole(src, d, out, start, i),
        0 <= k < out.len(),
    ensures
        start <= out[k].span.start,
        forall|j: int| 0 <= j < k ==> (#[trigger] out[j]).span.end <= out[k].span.start,
    decreases k,
{
    assert(held(src, d, out, start, i, k));
    if k > 0 {
        ends_before(src, d, out, start, i, k - 1);
        assert(sound(src, out[k - 1], i));
        assert forall|j: int| 0 <= j < k implies (#[trigger] out[j]).span.end
            <= out[k].span.start by {
            if j < k - 1 {
                assert(out[j].span.end <= out[k - 1].span.start);
            }
        }
    }
}

/// Reading a block that begins where the scan stands.
proof fn block_step(
    src: Seq<char>,
    d: Delims,
    st: Scan,
    start: int,
    block: Block,
    end: int,
)
    requires
        scan_ok(src, d, st, start),
        !st.trim,
        st.i <= end <= encode_utf8(src).len(),
        is_char_boundary(encode_utf8(src), end),
        block.kind != Kind::Data,
        block.span == template::span(st.i, end),
    ensures
        whole(src, d, st.out.push(block), start, end),
{
    assert(held(src, d, st.out, start, st.i, st.out.len() as int));
    whole_push(src, d, st.out, start, st.i, block, end);
}

// ------------------------------------------------------------------ where things are found

proof fn find_bounds(b: Seq<u8>, p: Seq<u8>, i: int)
    ensures
        text::find_bytes(b, p, i) is Some ==> i <= text::find_bytes(b, p, i)->0 && text::bytes_at(
            b,
            p,
            text::find_bytes(b, p, i)->0,
        ),
    decreases b.len() + 1 - i,
{
    if 0 <= i && i + p.len() <= b.len() && !text::bytes_at(b, p, i) {
        find_bounds(b, p, i + 1);
    }
}

proof fn string_end_bounds(b: Seq<u8>, quote: u8, j: int)
    ensures
        template::string_end(b, quote, j) is Some ==> j < template::string_end(b, quote, j)->0
            <= b.len() && b[template::string_end(b, quote, j)->0 - 1] == quote && 0 <= j,
    decreases b.len() + 2 - j,
{
    if 0 <= j < b.len() && b[j] == 92 {
        string_end_bounds(b, quote, j + 2);
    } else if 0 <= j < b.len() && b[j] != quote {
        string_end_bounds(b, quote, j + 1);
    }
}

/// A tag ends where its closing delimiter stands, on a boundary.
proof fn tag_end_bounds(src: Seq<char>, end: Seq<char>, i: int, depth: int)
    requires
        depth >= 0,
        depth > 0 || is_char_boundary(encode_utf8(src), i),
    ensures
        template::tag_end(encode_utf8(src), encode_utf8(end), i, depth) is Some ==> {
            let r = template::tag_end(encode_utf8(src), encode_utf8(end), i, depth)->0;
            &&& i <= r
            &&& text::bytes_at(encode_utf8(src), encode_utf8(end), r)
            &&& is_char_boundary(encode_utf8(src), r + encode_utf8(end).len())
        },
    decreases encode_utf8(src).len() - i,
{
    let b = encode_utf8(src);
    let e = encode_utf8(end);
    encode_utf8_valid_utf8(src);
    if e.len() > 0 {
        tag_end_filled(src, end, i, depth);
    } else if 0 <= i < b.len() {
        assert(b.subrange(i, i) =~= e);
        if b[i] == 39 || b[i] == 34 {
            string_end_bounds(b, b[i], i + 1);
            match template::string_end(b, b[i], i + 1) {
                Some(j) => {
                    parse::boundary_after_ascii(b, j - 1);
                    tag_end_bounds(src, end, j, depth);
                },
                None => {},
            }
        } else {
            let after = template::depth_at(b[i], depth);
            if after > 0 {
                tag_end_bounds(src, end, i + 1, after);
            } else if depth > 0 {
                parse::boundary_after_ascii(b, i);
            }
        }
    }
}

/// The same of a delimiter that is not empty, from any byte on.
proof fn tag_end_filled(src: Seq<char>, end: Seq<char>, i: int, depth: int)
    requires
        encode_utf8(end).len() > 0,
    ensures
        template::tag_end(encode_utf8(src), encode_utf8(end), i, depth) is Some ==> {
            let r = template::tag_end(encode_utf8(src), encode_utf8(end), i, depth)->0;
            &&& i <= r
            &&& text::bytes_at(encode_utf8(src), encode_utf8(end), r)
            &&& is_char_boundary(encode_utf8(src), r + encode_utf8(end).len())
        },
    decreases encode_utf8(src).len() - i,
{
    let b = encode_utf8(src);
    let e = encode_utf8(end);
    if 0 <= i < b.len() {
        if b[i] == 39 || b[i] == 34 {
            string_end_bounds(b, b[i], i + 1);
            match template::string_end(b, b[i], i + 1) {
                Some(j) => {
                    tag_end_filled(src, end, j, depth);
                },
                None => {},
            }
        } else {
            let after = template::depth_at(b[i], depth);
            if after == 0 && text::bytes_at(b, e, i) {
                parse::found_between_boundaries(src, end, i);
            } else {
                tag_end_filled(src, end, i + 1, after);
            }
        }
    }
}

/// An `endraw` tag ends where its closing delimiter stands, on a boundary.
proof fn endraw_bounds(src: Seq<char>, d: Delims, open: int)
    requires
        0 <= open <= encode_utf8(src).len(),
    ensures
        template::endraw_close(src, d, open) is Some ==> {
            let close = template::endraw_close(src, d, open)->0;
            &&& open < close
            &&& text::bytes_at(encode_utf8(src), encode_utf8(d.block_end), close)
            &&& is_char_boundary(encode_utf8(src), close + encode_utf8(d.block_end).len())
        },
{
    let b = encode_utf8(src);
    let n = b.len() as int;
    encode_utf8_valid_utf8(src);
    let a = if 0 <= open < b.len() && template::is_marker(b[open]) {
        open + 1
    } else {
        open
    };
    lead_is_blank(src, a, n);
    let word = template::past_white(src, a);
    reveal_strlit("endraw");
    is_ascii_chars_encode_utf8("endraw"@);
    let six = encode_utf8("endraw"@).len() as int;
    if text::bytes_at(b, encode_utf8("endraw"@), word) {
        parse::found_between_boundaries(src, "endraw"@, word);
        lead_is_blank(src, word + six, n);
        let c = template::past_white(src, word + six);
        if template::minus_at(b, c) {
            parse::boundary_after_ascii(b, c);
        }
        let e = if template::minus_at(b, c) {
            c + 1
        } else {
            c
        };
        if text::bytes_at(b, encode_utf8(d.block_end), e) && encode_utf8(d.block_end).len() > 0 {
            parse::found_between_boundaries(src, d.block_end, e);
        }
    }
}

/// The `endraw` tag that is found is one, and stands on boundaries.
proof fn endraw_is_tag(src: Seq<char>, d: Delims, at: int)
    requires
        0 <= at,
        encode_utf8(d.block_start).len() > 0,
    ensures
        match template::endraw_from(src, d, at) {
            Some((tag, open, close)) => {
                let end = close + encode_utf8(d.block_end).len();
                &&& at <= tag
                &&& raw_tag(src, d, tag, end)
                &&& is_char_boundary(encode_utf8(src), tag)
                &&& is_char_boundary(encode_utf8(src), end)
            },
            None => true,
        },
    decreases encode_utf8(src).len() + 1 - at,
{
    let b = encode_utf8(src);
    let p = encode_utf8(d.block_start);
    find_bounds(b, p, at);
    match text::find_bytes(b, p, at) {
        None => {},
        Some(tag) => {
            let open = tag + p.len();
            endraw_bounds(src, d, open);
            parse::found_between_boundaries(src, d.block_start, tag);
            if template::endraw_close(src, d, open) is None && at < open <= b.len() {
                endraw_is_tag(src, d, open);
            }
        },
    }
}

/// What is known of the place where a block opens.
spec fn opens_at(src: Seq<char>, d: Delims, i: int, at: int, opener: Opener) -> bool {
    let b = encode_utf8(src);
    &&& i <= at < b.len()
    &&& is_char_boundary(b, at)
    &&& encode_utf8(template::opener_text(d, opener)).len() > 0
    &&& opener is Comment || opener is Statement || opener is Expression ==> text::bytes_at(
        b,
        encode_utf8(template::opener_text(d, opener)),
        at,
    )
}

proof fn literal_opens(src: Seq<char>, d: Delims, i: int, opener: Opener)
    requires
        0 <= i,
        opener is Comment || opener is Statement || opener is Expression,
    ensures
        match template::literal_from(encode_utf8(src), template::opener_text(d, opener), i) {
            Some(at) => opens_at(src, d, i, at, opener),
            None => true,
        },
{
    let p = template::opener_text(d, opener);
    find_bounds(encode_utf8(src), encode_utf8(p), i);
    match template::literal_from(encode_utf8(src), p, i) {
        Some(at) => parse::found_between_boundaries(src, p, at),
        None => {},
    }
}

/// The blanks before a place begin at a boundary where that place is one.
proof fn gap_start_bounds(src: Seq<char>, low: int, j: int)
    requires
        0 <= low <= j <= encode_utf8(src).len(),
        is_char_boundary(encode_utf8(src), j),
    ensures
        low <= template::gap_start(encode_utf8(src), low, j) <= j,
        is_char_boundary(encode_utf8(src), template::gap_start(encode_utf8(src), low, j)),
    decreases j - low,
{
    let b = encode_utf8(src);
    encode_utf8_valid_utf8(src);
    if j > low && template::gap(b[j - 1]) {
        parse::boundary_after_ascii(b, j - 1);
        gap_start_bounds(src, low, j - 1);
    }
}

proof fn line_tag_bounds(src: Seq<char>, p: Seq<char>, comment: bool, low: int, from: int)
    requires
        0 <= low <= from,
        encode_utf8(p).len() > 0,
    ensures
        match template::line_tag_from(encode_utf8(src), encode_utf8(p), comment, low, from) {
            Some(at) => low <= at < encode_utf8(src).len() && is_char_boundary(
                encode_utf8(src),
                at,
            ),
            None => true,
        },
    decreases encode_utf8(src).len() - from,
{
    let b = encode_utf8(src);
    find_bounds(b, encode_utf8(p), from);
    match text::find_bytes(b, encode_utf8(p), from) {
        None => {},
        Some(at) => {
            parse::found_between_boundaries(src, p, at);
            gap_start_bounds(src, low, at);
            if from <= at < b.len() {
                line_tag_bounds(src, p, comment, low, at + 1);
            }
        },
    }
}

/// The next block opens where its opening stands.
proof fn next_opens(src: Seq<char>, d: Delims, i: int)
    requires
        0 <= i,
    ensures
        match template::next_opener(src, d, i) {
            Some((at, _, opener)) => opens_at(src, d, i, at, opener),
            None => true,
        },
{
    reveal(template::next_opener);
    literal_opens(src, d, i, Opener::Comment);
    literal_opens(src, d, i, Opener::Statement);
    literal_opens(src, d, i, Opener::Expression);
    match d.line_statement_prefix {
        Some(p) => if encode_utf8(p).len() > 0 {
            line_tag_bounds(src, p, false, i, i);
        },
        None => {},
    }
    match d.line_comment_prefix {
        Some(p) => if encode_utf8(p).len() > 0 {
            line_tag_bounds(src, p, true, i, i);
        },
        None => {},
    }
}

// ------------------------------------------------------------------ the steps of the scan

/// Is a state one that the scan may go on from, further on than `i`?
spec fn goes_on(src: Seq<char>, d: Delims, start: int, i: int, next: Scan) -> bool {
    i < next.i && scan_ok(src, d, next, start)
}

proof fn comment_step(src: Seq<char>, d: Delims, st: Scan, start: int)
    requires
        scan_ok(src, d, st, start),
        !st.trim,
        opens_at(src, d, st.i, st.i, Opener::Comment),
    ensures
        match template::scan_comment(src, d, st) {
            Ok(next) => goes_on(src, d, start, st.i, next),
            Err(_) => true,
        },
{
    let b = encode_utf8(src);
    let open = st.i + encode_utf8(d.comment_start).len();
    find_bounds(b, encode_utf8(d.comment_end), open);
    parse::found_between_boundaries(src, d.comment_start, st.i);
    match text::find_bytes(b, encode_utf8(d.comment_end), open) {
        None => {},
        Some(close) => {
            let end = close + encode_utf8(d.comment_end).len();
            if encode_utf8(d.comment_end).len() > 0 {
                parse::found_between_boundaries(src, d.comment_end, close);
            } else {
                assert(b.subrange(open, open) =~= encode_utf8(d.comment_end));
                assert(close == open);
            }
            let next = template::scan_comment(src, d, st)->Ok_0;
            block_step(src, d, st, start, next.out.last(), end);
            assert(next.out == st.out.push(next.out.last()));
        },
    }
}

proof fn expression_step(src: Seq<char>, d: Delims, st: Scan, start: int)
    requires
        scan_ok(src, d, st, start),
        !st.trim,
        opens_at(src, d, st.i, st.i, Opener::Expression),
    ensures
        match template::scan_expression(src, d, st) {
            Ok(next) => goes_on(src, d, start, st.i, next),
            Err(_) => true,
        },
{
    let b = encode_utf8(src);
    let open = st.i + encode_utf8(d.variable_start).len();
    parse::found_between_boundaries(src, d.variable_start, st.i);
    tag_end_bounds(src, d.variable_end, open, 0);
    match template::tag_end(b, encode_utf8(d.variable_end), open, 0) {
        None => {},
        Some(close) => {
            let end = close + encode_utf8(d.variable_end).len();
            let next = template::scan_expression(src, d, st)->Ok_0;
            block_step(src, d, st, start, next.out.last(), end);
            assert(next.out == st.out.push(next.out.last()));
        },
    }
}

/// Reading a `raw` tag from `st.i` to `body`, what it holds, and the tag that ends it.
proof fn raw_step(src: Seq<char>, d: Delims, st: Scan, start: int, body: int)
    requires
        scan_ok(src, d, Scan { i: body, ..st }, start),
        encode_utf8(d.block_start).len() > 0,
    ensures
        match template::scan_raw(src, d, st, body) {
            Ok(next) => goes_on(src, d, start, body, next),
            Err(_) => true,
        },
{
    endraw_is_tag(src, d, body);
    match template::endraw_from(src, d, body) {
        None => {},
        Some((tag, open, close)) => {
            let end = close + encode_utf8(d.block_end).len();
            data_step(src, d, Scan { i: body, ..st }, start, tag);
            let out = template::with_data(src, st, body, tag).out;
            assert(out == template::with_data(src, Scan { i: body, ..st }, body, tag).out);
            tag_step(src, d, out, start, tag, end);
            minus_tag_step(src, d, out, start, tag, end);
        },
    }
}

proof fn statement_step(src: Seq<char>, d: Delims, st: Scan, start: int)
    requires
        scan_ok(src, d, st, start),
        !st.trim,
        opens_at(src, d, st.i, st.i, Opener::Statement),
    ensures
        match template::scan_statement(src, d, st) {
            Ok(next) => goes_on(src, d, start, st.i, next),
            Err(_) => true,
        },
{
    let b = encode_utf8(src);
    let open = st.i + encode_utf8(d.block_start).len();
    parse::found_between_boundaries(src, d.block_start, st.i);
    tag_end_bounds(src, d.block_end, open, 0);
    match template::tag_end(b, encode_utf8(d.block_end), open, 0) {
        None => {},
        Some(close) => {
            let end = close + encode_utf8(d.block_end).len();
            let inner = template::without_markers(b, open, close);
            let body = parse::text_between(src, inner.start as int, inner.end as int);
            if template::tag_word(body) == "raw"@ {
                assert(raw_tag(src, d, st.i, end));
                tag_step(src, d, st.out, start, st.i, end);
                minus_tag_step(src, d, st.out, start, st.i, end);
                let out = if template::minus_at(b, open) {
                    template::trim_last(src, st.out)
                } else {
                    st.out
                };
                let mid = Scan { i: st.i, out, trim: template::minus_at(b, close - 1) };
                raw_step(src, d, mid, start, end);
            } else {
                let next = template::scan_statement(src, d, st)->Ok_0;
                block_step(src, d, st, start, next.out.last(), end);
                assert(next.out == st.out.push(next.out.last()));
            }
        },
    }
}

proof fn gap_end_bounds(b: Seq<u8>, k: int)
    requires
        0 <= k <= b.len(),
    ensures
        k <= template::gap_end(b, k) <= b.len(),
    decreases b.len() - k,
{
    if k < b.len() && template::gap(b[k]) {
        gap_end_bounds(b, k + 1);
    }
}

/// A line ends at a line feed or with the text, on a boundary.
proof fn line_end_bounds(src: Seq<char>, i: int)
    requires
        0 <= i <= encode_utf8(src).len(),
    ensures
        ({
            let b = encode_utf8(src);
            let eol = text::byte_or(b, 10, i, b.len() as int);
            i <= eol <= b.len() && is_char_boundary(b, eol)
        }),
    decreases encode_utf8(src).len() - i,
{
    let b = encode_utf8(src);
    encode_utf8_valid_utf8(src);
    if i >= b.len() {
        is_char_boundary_start_end_of_seq(b);
    } else if b[i] == 10 {
        parse::boundary_after_ascii(b, i);
    } else {
        line_end_bounds(src, i + 1);
    }
}

proof fn last_feed_bounds(b: Seq<u8>, low: int, k: int, last: Option<int>)
    requires
        0 <= low <= k,
        last is Some ==> low <= last->0 < b.len() && b[last->0] == 10,
    ensures
        template::last_feed(b, k, last) is Some ==> low <= template::last_feed(b, k, last)->0
            < b.len() && b[template::last_feed(b, k, last)->0] == 10,
    decreases b.len() - k,
{
    if k < b.len() && lexer::blank(b[k]) {
        if b[k] == 10 {
            last_feed_bounds(b, low, k + 1, Some(k));
        } else {
            last_feed_bounds(b, low, k + 1, last);
        }
    }
}

proof fn line_statement_step(src: Seq<char>, d: Delims, st: Scan, start: int, prefix: int)
    requires
        scan_ok(src, d, st, start),
        !st.trim,
        st.i < encode_utf8(src).len(),
        prefix > 0,
    ensures
        goes_on(src, d, start, st.i, template::scan_line_statement(src, st, prefix)),
{
    let b = encode_utf8(src);
    encode_utf8_valid_utf8(src);
    gap_end_bounds(b, st.i);
    let open = template::line_body(b, st.i, prefix);
    line_end_bounds(src, open);
    let eol = text::byte_or(b, 10, open, b.len() as int);
    last_feed_bounds(b, eol, eol, None);
    let end = match template::last_feed(b, eol, None) {
        Some(k) => k + 1,
        None => eol,
    };
    match template::last_feed(b, eol, None) {
        Some(k) => parse::boundary_after_ascii(b, k),
        None => {},
    }
    let next = template::scan_line_statement(src, st, prefix);
    block_step(src, d, st, start, next.out.last(), end);
    assert(next.out == st.out.push(next.out.last()));
}

proof fn line_comment_step(src: Seq<char>, d: Delims, st: Scan, start: int, prefix: int)
    requires
        scan_ok(src, d, st, start),
        !st.trim,
        st.i < encode_utf8(src).len(),
        prefix > 0,
    ensures
        goes_on(src, d, start, st.i, template::scan_line_comment(src, st, prefix)),
{
    let b = encode_utf8(src);
    gap_end_bounds(b, st.i);
    let open = template::line_body(b, st.i, prefix);
    line_end_bounds(src, open);
    let eol = text::byte_or(b, 10, open, b.len() as int);
    let next = template::scan_line_comment(src, st, prefix);
    block_step(src, d, st, start, next.out.last(), eol);
    assert(next.out == st.out.push(next.out.last()));
}

proof fn step(src: Seq<char>, d: Delims, st: Scan, start: int, opener: Opener)
    requires
        scan_ok(src, d, st, start),
        !st.trim,
        opens_at(src, d, st.i, st.i, opener),
    ensures
        match template::scan_block(src, d, st, opener) {
            Ok(next) => goes_on(src, d, start, st.i, next),
            Err(_) => true,
        },
{
    reveal(template::scan_block);
    match opener {
        Opener::Comment => comment_step(src, d, st, start),
        Opener::Statement => statement_step(src, d, st, start),
        Opener::Expression => expression_step(src, d, st, start),
        Opener::LineStatement => line_statement_step(
            src,
            d,
            st,
            start,
            template::optional_len(d.line_statement_prefix),
        ),
        Opener::LineComment => line_comment_step(
            src,
            d,
            st,
            start,
            template::optional_len(d.line_comment_prefix),
        ),
    }
}

/// What is read to the end leaves out only tags.
proof fn scan_is_whole(src: Seq<char>, d: Delims, st: Scan, start: int)
    requires
        scan_ok(src, d, st, start),
    ensures
        match template::scan_from(src, d, st) {
            Ok(out) => whole(src, d, out, start, encode_utf8(src).len() as int),
            Err(_) => true,
        },
    decreases encode_utf8(src).len() - st.i,
{
    let b = encode_utf8(src);
    let n = b.len() as int;
    encode_utf8_valid_utf8(src);
    is_char_boundary_start_end_of_seq(b);
    if st.i < n {
        next_opens(src, d, st.i);
        match template::next_opener(src, d, st.i) {
            None => data_step(src, d, st, start, n),
            Some((at, _, opener)) => {
                data_step(src, d, st, start, at);
                let here = Scan { i: at, ..template::with_data(src, st, st.i, at) };
                step(src, d, here, start, opener);
                match template::scan_block(src, d, here, opener) {
                    Ok(next) => scan_is_whole(src, d, next, start),
                    Err(_) => {},
                }
            },
        }
    }
}

// ------------------------------------------------------------------ whitespace control

/// What holds of the blocks while the whitespace is dropped that blocks ask to drop.
spec fn trimmed_so_far(src: Seq<char>, d: Delims, out: Seq<Block>, start: int, end: int) -> bool {
    &&& 0 <= start <= end <= encode_utf8(src).len() <= usize::MAX
    &&& forall|k: int| 0 <= k < out.len() ==> sound(src, #[trigger] out[k], end)
    &&& forall|k: int| 0 <= k <= out.len() ==> #[trigger] gap_ok(src, d, out, start, end, k)
}

proof fn whole_is_trimmed(src: Seq<char>, d: Delims, out: Seq<Block>, start: int, end: int)
    requires
        whole(src, d, out, start, end),
    ensures
        trimmed_so_far(src, d, out, start, end),
{
    assert forall|k: int| 0 <= k <= out.len() implies #[trigger] gap_ok(
        src,
        d,
        out,
        start,
        end,
        k,
    ) by {
        assert(held(src, d, out, start, end, k));
    }
}

proof fn blank_joins(src: Seq<char>, s: int, m: int, e: int)
    requires
        blank(src, s, m),
        blank(src, m, e),
    ensures
        blank(src, s, e),
{
    assert forall|p: int| s <= p < e implies #[trigger] space_at(src, p) by {
        if p < m {
        } else {
        }
    }
}

/// A gap may grow to the left by whitespace where the block behind it asks for that.
proof fn grows_left(
    src: Seq<char>,
    d: Delims,
    data: Option<Block>,
    m: int,
    s: int,
    e: int,
    block: Block,
)
    requires
        may_be_missing(src, d, data, s, e, Some(block)),
        m <= s,
        blank(src, m, s),
        template::opens_minus(encode_utf8(src), d, block),
    ensures
        forall|other: Option<Block>| #[trigger]
            may_be_missing(src, d, other, m, e, Some(block)),
{
    if s == e {
    } else if tagged(src, d, s, e) {
        blank_is_loose(src, d, m, s);
        assert(loose(src, d, e, e));
        tagged_grows(src, d, m, s, e, e);
    } else {
        blank_joins(src, m, s, e);
    }
}

/// A gap may grow to the right by whitespace where the block before it asks for that.
proof fn grows_right(
    src: Seq<char>,
    d: Delims,
    block: Block,
    s: int,
    e: int,
    m: int,
    data: Option<Block>,
)
    requires
        may_be_missing(src, d, Some(block), s, e, data),
        e <= m,
        blank(src, e, m),
        template::closes_minus(encode_utf8(src), d, block),
    ensures
        forall|other: Option<Block>| #[trigger]
            may_be_missing(src, d, Some(block), s, m, other),
{
    if s == e {
    } else if tagged(src, d, s, e) {
        blank_is_loose(src, d, e, m);
        assert(loose(src, d, s, s));
        tagged_grows(src, d, s, s, e, m);
    } else {
        blank_joins(src, s, e, m);
    }
}

/// Where one data block is replaced by another, the gaps that do not touch it stay, and of those
/// that do only the ends move.
proof fn trim_before_keeps(
    src: Seq<char>,
    d: Delims,
    out: Seq<Block>,
    start: int,
    end: int,
    k: int,
)
    requires
        trimmed_so_far(src, d, out, start, end),
        0 <= k < out.len(),
    ensures
        trimmed_so_far(src, d, template::trim_before(src, d, out, k), start, end),
        template::trim_before(src, d, out, k).len() == out.len(),
{
    let next = template::trim_before(src, d, out, k);
    let b = encode_utf8(src);
    if k > 0 && out[k - 1].kind == Kind::Data && template::opens_minus(b, d, out[k]) {
        let s = out[k - 1].span.start as int;
        let e = out[k - 1].span.end as int;
        assert(sound(src, out[k - 1], end));
        trail_is_blank(src, s, e);
        let m = s + template::trimmed(src, s, e);
        assert(next[k - 1] == template::data_block(s, m));
        assert(gap_ok(src, d, out, start, end, k));
        grows_left(src, d, Some(out[k - 1]), m, e, out[k].span.start as int, out[k]);
        assert forall|j: int| 0 <= j <= next.len() implies #[trigger] gap_ok(
            src,
            d,
            next,
            start,
            end,
            j,
        ) by {
            assert(gap_ok(src, d, out, start, end, j));
            if j != k && j != k - 1 {
                assert(before(next, j) == before(out, j));
                assert(behind(next, j) == behind(out, j));
            } else if j == k - 1 {
                assert(before(next, j) == before(out, j));
                assert(gap_to(next, end, j) == gap_to(out, end, j));
            } else {
                assert(behind(next, j) == Some(out[k]));
            }
        }
        assert forall|j: int| 0 <= j < next.len() implies sound(src, #[trigger] next[j], end) by {
            assert(sound(src, out[j], end));
        }
    }
}

proof fn trim_behind_keeps(
    src: Seq<char>,
    d: Delims,
    out: Seq<Block>,
    start: int,
    end: int,
    k: int,
)
    requires
        trimmed_so_far(src, d, out, start, end),
        0 <= k < out.len(),
    ensures
        trimmed_so_far(src, d, template::trim_behind(src, d, out, k), start, end),
        template::trim_behind(src, d, out, k).len() == out.len(),
{
    let next = template::trim_behind(src, d, out, k);
    let b = encode_utf8(src);
    if k + 1 < out.len() && out[k + 1].kind == Kind::Data && template::closes_minus(b, d, out[k]) {
        let s = out[k + 1].span.start as int;
        let e = out[k + 1].span.end as int;
        assert(sound(src, out[k + 1], end));
        lead_is_blank(src, s, e);
        let m = s + template::lead_white(src, s, e);
        assert(next[k + 1] == template::data_block(m, e));
        assert(gap_ok(src, d, out, start, end, k + 1));
        grows_right(src, d, out[k], out[k].span.end as int, s, m, Some(out[k + 1]));
        assert forall|j: int| 0 <= j <= next.len() implies #[trigger] gap_ok(
            src,
            d,
            next,
            start,
            end,
            j,
        ) by {
            assert(gap_ok(src, d, out, start, end, j));
            if j != k + 1 && j != k + 2 {
                assert(before(next, j) == before(out, j));
                assert(behind(next, j) == behind(out, j));
            } else if j == k + 2 {
                assert(behind(next, j) == behind(out, j));
                assert(gap_from(next, start, j) == gap_from(out, start, j));
            } else {
                assert(before(next, j) == Some(out[k]));
            }
        }
        assert forall|j: int| 0 <= j < next.len() implies sound(src, #[trigger] next[j], end) by {
            assert(sound(src, out[j], end));
        }
    }
}

proof fn control_keeps(src: Seq<char>, d: Delims, out: Seq<Block>, start: int, end: int, k: int)
    requires
        trimmed_so_far(src, d, out, start, end),
        0 <= k,
    ensures
        trimmed_so_far(src, d, template::control_from(src, d, out, k), start, end),
    decreases out.len() - k,
{
    if k < out.len() {
        let first = template::trim_before(src, d, out, k);
        trim_before_keeps(src, d, out, start, end, k);
        trim_behind_keeps(src, d, first, start, end, k);
        control_keeps(src, d, template::trim_behind(src, d, first, k), start, end, k + 1);
    }
}

// ------------------------------------------------------------------ empty data

/// Two gaps with nothing but empty data between them are one that may be there.
proof fn gaps_join(
    src: Seq<char>,
    d: Delims,
    first: Option<Block>,
    s: int,
    m: int,
    e: int,
    data: Block,
    last: Option<Block>,
)
    requires
        data.kind == Kind::Data,
        may_be_missing(src, d, first, s, m, Some(data)),
        may_be_missing(src, d, Some(data), m, e, last),
    ensures
        may_be_missing(src, d, first, s, e, last),
{
    if s < m && m < e {
        if tagged(src, d, s, m) {
            if !tagged(src, d, m, e) {
                blank_is_loose(src, d, m, e);
            }
            assert(loose(src, d, s, s));
            tagged_grows(src, d, s, s, m, e);
        } else if tagged(src, d, m, e) {
            blank_is_loose(src, d, s, m);
            assert(loose(src, d, e, e));
            tagged_grows(src, d, s, m, e, e);
        } else {
            blank_joins(src, s, m, e);
        }
    }
}

/// What holds of the first `m` blocks without the empty data.
spec fn filled_so_far(
    src: Seq<char>,
    d: Delims,
    out: Seq<Block>,
    start: int,
    end: int,
    m: int,
) -> bool {
    let kept = template::filled(out, m);
    &&& forall|k: int| 0 <= k < kept.len() ==> sound(src, #[trigger] kept[k], end)
    &&& forall|k: int| 0 <= k < kept.len() ==> #[trigger] gap_ok(src, d, kept, start, end, k)
    &&& may_be_missing(
        src,
        d,
        before(kept, kept.len() as int),
        gap_from(kept, start, kept.len() as int),
        gap_to(out, end, m),
        behind(out, m),
    )
}

proof fn filled_keeps(src: Seq<char>, d: Delims, out: Seq<Block>, start: int, end: int, m: int)
    requires
        trimmed_so_far(src, d, out, start, end),
        0 <= m <= out.len(),
    ensures
        filled_so_far(src, d, out, start, end, m),
    decreases m,
{
    if m == 0 {
        assert(gap_ok(src, d, out, start, end, 0));
    } else {
        filled_keeps(src, d, out, start, end, m - 1);
        let kept = template::filled(out, m - 1);
        let next = template::filled(out, m);
        let block = out[m - 1];
        assert(sound(src, out[m - 1], end));
        assert(gap_ok(src, d, out, start, end, m));
        if block.kind != Kind::Data || block.span.start < block.span.end {
            assert(next == kept.push(block));
            assert forall|k: int| 0 <= k < next.len() implies #[trigger] gap_ok(
                src,
                d,
                next,
                start,
                end,
                k,
            ) by {
                assert(before(next, k) == before(kept, k));
                if k < kept.len() {
                    assert(gap_ok(src, d, kept, start, end, k));
                    assert(behind(next, k) == behind(kept, k));
                }
            }
            assert forall|k: int| 0 <= k < next.len() implies sound(
                src,
                #[trigger] next[k],
                end,
            ) by {
                if k < kept.len() {
                    assert(sound(src, kept[k], end));
                }
            }
        } else {
            gaps_join(
                src,
                d,
                before(kept, kept.len() as int),
                gap_from(kept, start, kept.len() as int),
                block.span.start as int,
                gap_to(out, end, m),
                block,
                behind(out, m),
            );
        }
    }
}

// ------------------------------------------------------------------ what is promised

/// Nothing goes missing from a template but `raw` and `endraw` tags and whitespace beside a `-`:
/// what lies before the first block, between two blocks and behind the last one is nothing at all,
/// or such tags and the whitespace around them, or whitespace that the block before it or the one
/// behind it asks to drop.
pub proof fn nothing_else_goes_missing(src: Seq<char>, d: Delims, start: int)
    requires
        encode_utf8(src).len() <= usize::MAX,
        0 <= start <= encode_utf8(src).len(),
        is_char_boundary(encode_utf8(src), start),
    ensures
        match template::blocks_of(src, d, start) {
            Ok(out) => accounted(src, d, out, start, encode_utf8(src).len() as int),
            Err(_) => true,
        },
{
    let n = encode_utf8(src).len() as int;
    let st = Scan { i: start, out: Seq::empty(), trim: false };
    assert forall|k: int| 0 <= k <= st.out.len() implies #[trigger] held(
        src,
        d,
        st.out,
        start,
        st.i,
        k,
    ) by {}
    scan_is_whole(src, d, st, start);
    match template::scan_from(src, d, st) {
        Ok(out) => {
            whole_is_trimmed(src, d, out, start, n);
            control_keeps(src, d, out, start, n, 0);
            let done = template::control_from(src, d, out, 0);
            filled_keeps(src, d, done, start, n, done.len() as int);
            let kept = template::filled(done, done.len() as int);
            assert forall|k: int| 0 <= k <= kept.len() implies #[trigger] gap_ok(
                src,
                d,
                kept,
                start,
                n,
                k,
            ) by {}
        },
        Err(_) => {},
    }
}

/// A `#jinja2:` line in a file that is included is ordinary text: the delimiters that it names do
/// not apply, and neither it nor anything else of the file goes missing.
pub proof fn an_included_header_is_text(src: Seq<char>, base: Delims)
    requires
        encode_utf8(src).len() <= usize::MAX,
    ensures
        match template::document_of(src, base, false) {
            Ok((out, d)) => d == base && template::blocks_of(src, base, 0) == Ok::<
                Seq<Block>,
                ErrorModel,
            >(out) && accounted(src, base, out, 0, encode_utf8(src).len() as int),
            Err(e) => template::blocks_of(src, base, 0) == Err::<
                Seq<Block>,
                ErrorModel,
            >(e),
        },
{
    encode_utf8_valid_utf8(src);
    is_char_boundary_start_end_of_seq(encode_utf8(src));
    nothing_else_goes_missing(src, base, 0);
}

proof fn first_place(s: Seq<char>, c: char, i: int, to: int)
    requires
        0 <= i <= to <= s.len(),
    ensures
        i <= template::char_or(s, c, i, to) <= to,
        template::char_or(s, c, i, to) < to ==> s[template::char_or(s, c, i, to)] == c,
    decreases to - i,
{
    if i < to && s[i] != c {
        first_place(s, c, i + 1, to);
    }
}

/// Of a whole template file nothing goes missing either, but for its `#jinja2:` line.
pub proof fn a_document_loses_only_its_header(src: Seq<char>, base: Delims)
    requires
        encode_utf8(src).len() <= usize::MAX,
    ensures
        match template::document_of(src, base, true) {
            Ok((out, d)) => {
                let body = template::header_of(src, base)->Ok_0.1;
                &&& template::header_of(src, base) == Ok::<(Delims, int), ErrorModel>((d, body))
                &&& accounted(src, d, out, body, encode_utf8(src).len() as int)
            },
            Err(_) => true,
        },
{
    let b = encode_utf8(src);
    encode_utf8_valid_utf8(src);
    is_char_boundary_start_end_of_seq(b);
    match template::header_of(src, base) {
        Ok((d, body)) => {
            if body != 0 {
                let n = src.len() as int;
                first_place(src, '\n', 0, n);
                let eol = template::char_or(src, '\n', 0, n);
                let head = src.subrange(0, eol + 1);
                let rest = src.subrange(eol + 1, n);
                parse::encode_prefix_step(src, eol);
                assert(encode_utf8(head).len() == body);
                assert(src =~= head + rest);
                parse::encode_concat(head, rest);
                assert(b.subrange(0, body) =~= encode_utf8(head));
                parse::found_between_boundaries(src, head, 0);
            }
            nothing_else_goes_missing(src, d, body);
        },
        Err(_) => {},
    }
}

} // verus!
