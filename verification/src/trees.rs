//! What the tree of a YAML text is: the events of the text, each in its place.

use vstd::prelude::*;
use vstd::utf8::encode_utf8;

use crate::parse::{self, NodeModel, Span};
use crate::parse_libyaml::{self, DataModel, EventModel};

verus! {

/// A place among the events.
pub open spec fn at(i: int) -> bool {
    true
}

/// Are the events from `i` to `j` those of the node? A scalar is one event with its text; a list is
/// its items between a start and an end, and a mapping its keys and values, in turn.
#[verifier::opaque]
pub open spec fn stands(events: Seq<EventModel>, i: int, j: int, node: NodeModel) -> bool
    decreases j - i, 0int,
{
    &&& 0 <= i < j <= events.len()
    &&& match node {
        NodeModel::Scalar(value, span) => {
            &&& j == i + 1 && events[i].data == DataModel::Scalar(value)
            &&& (span.start == events[i].start as usize && span.end == events[i].end as usize) || (
            span.start == (events[i].start as usize + 1) as usize && span.end == (
            events[i].end as usize - 1) as usize)
        },
        NodeModel::Null(span) => {
            &&& j == i + 1 && events[i].data == DataModel::Scalar(Seq::empty())
            &&& span.start == events[i].start as usize && span.end == span.start
        },
        NodeModel::Sequence(items, span) => {
            &&& i + 1 < j && events[i].data is SequenceStart && events[j - 1].data is SequenceEnd
            &&& span.start == events[i].start as usize && span.end == events[j - 1].end as usize
            &&& listed(events, i + 1, j - 1, items)
        },
        NodeModel::Mapping(entries, span) => {
            &&& i + 1 < j && events[i].data is MappingStart && events[j - 1].data is MappingEnd
            &&& span.start == events[i].start as usize && span.end == events[j - 1].end as usize
            &&& paired(events, i + 1, j - 1, entries)
        },
        NodeModel::Other(span) => {
            &&& j == i + 1 && !(events[i].data is Scalar) && !(events[i].data is SequenceStart)
                && !(events[i].data is MappingStart)
            &&& span.start == events[i].start as usize && span.end == events[i].end as usize
        },
    }
}

/// Are the events from `a` to `b` those of the nodes, one behind the other?
#[verifier::opaque]
pub open spec fn listed(events: Seq<EventModel>, a: int, b: int, items: Seq<NodeModel>) -> bool
    decreases b - a, 1int,
{
    if items.len() == 0 {
        a == b
    } else {
        exists|m: int|
            #[trigger] at(m) && a <= m < b && listed(events, a, m, items.drop_last()) && stands(
                events,
                m,
                b,
                items.last(),
            )
    }
}

/// Are the events from `a` to `b` those of the keys, each with its value behind it?
#[verifier::opaque]
pub open spec fn paired(
    events: Seq<EventModel>,
    a: int,
    b: int,
    entries: Seq<(NodeModel, NodeModel)>,
) -> bool
    decreases b - a, 1int,
{
    if entries.len() == 0 {
        a == b
    } else {
        exists|k: int, v: int|
            #[trigger] at(k) && #[trigger] at(v) && a <= k < v < b && paired(
                events,
                a,
                k,
                entries.drop_last(),
            ) && stands(events, k, v, entries.last().0) && stands(events, v, b, entries.last().1)
    }
}

proof fn one_item_more(
    events: Seq<EventModel>,
    a: int,
    m: int,
    b: int,
    items: Seq<NodeModel>,
    item: NodeModel,
)
    requires
        listed(events, a, m, items),
        a <= m < b,
        stands(events, m, b, item),
    ensures
        listed(events, a, b, items.push(item)),
{
    let more = items.push(item);
    assert(more.drop_last() =~= items);
    reveal(listed);
    reveal(stands);
    assert(at(m));
}

proof fn one_entry_more(
    events: Seq<EventModel>,
    a: int,
    k: int,
    v: int,
    b: int,
    entries: Seq<(NodeModel, NodeModel)>,
    key: NodeModel,
    value: NodeModel,
)
    requires
        paired(events, a, k, entries),
        a <= k < v < b,
        stands(events, k, v, key),
        stands(events, v, b, value),
    ensures
        paired(events, a, b, entries.push((key, value))),
{
    let more = entries.push((key, value));
    assert(more.drop_last() =~= entries);
    reveal(paired);
    reveal(stands);
    assert(at(k) && at(v));
}

#[verifier::spinoff_prover]
proof fn node_stands(events: Seq<EventModel>, i: int, text: Seq<char>)
    ensures
        match parse_libyaml::node_from(events, i, text) {
            Some((node, j)) => stands(events, i, j, node),
            None => true,
        },
    decreases events.len() - i, 0int,
{
    reveal(stands);
    reveal(listed);
    reveal(paired);
    if 0 <= i < events.len() {
        match events[i].data {
            DataModel::Scalar(value) => {
                if value.len() == 0 {
                    assert(value =~= Seq::empty());
                }
            },
            DataModel::SequenceStart => {
                items_stand(events, i + 1, i + 1, text, Seq::empty());
            },
            DataModel::MappingStart => {
                entries_stand(events, i + 1, i + 1, text, Seq::empty());
            },
            _ => {},
        }
    }
}

#[verifier::spinoff_prover]
proof fn items_stand(
    events: Seq<EventModel>,
    a: int,
    j: int,
    text: Seq<char>,
    acc: Seq<NodeModel>,
)
    requires
        0 <= a <= j,
        listed(events, a, j, acc),
    ensures
        match parse_libyaml::items_from(events, j, text, acc) {
            Some((items, e)) => a <= e < events.len() && events[e].data is SequenceEnd && listed(
                events,
                a,
                e,
                items,
            ),
            None => true,
        },
    decreases events.len() - j, 1int,
{
    if j < events.len() && !(events[j].data is SequenceEnd) {
        node_stands(events, j, text);
        if let Some((item, next)) = parse_libyaml::node_from(events, j, text) {
            if j < next <= events.len() {
                one_item_more(events, a, j, next, acc, item);
                items_stand(events, a, next, text, acc.push(item));
            }
        }
    }
}

#[verifier::spinoff_prover]
proof fn entries_stand(
    events: Seq<EventModel>,
    a: int,
    j: int,
    text: Seq<char>,
    acc: Seq<(NodeModel, NodeModel)>,
)
    requires
        0 <= a <= j,
        paired(events, a, j, acc),
    ensures
        match parse_libyaml::entries_from(events, j, text, acc) {
            Some((entries, e)) => a <= e < events.len() && events[e].data is MappingEnd && paired(
                events,
                a,
                e,
                entries,
            ),
            None => true,
        },
    decreases events.len() - j, 1int,
{
    if j < events.len() && !(events[j].data is MappingEnd) {
        node_stands(events, j, text);
        if let Some((key, after)) = parse_libyaml::node_from(events, j, text) {
            if j < after <= events.len() {
                node_stands(events, after, text);
                if let Some((value, next)) = parse_libyaml::node_from(events, after, text) {
                    if after < next <= events.len() {
                        one_entry_more(events, a, j, after, next, acc, key, value);
                        entries_stand(events, a, next, text, acc.push((key, value)));
                    }
                }
            }
        }
    }
}

/// A node that is read is the events that it was read from, in their order.
pub proof fn a_node_is_its_events(events: Seq<EventModel>, i: int, text: Seq<char>)
    ensures
        match parse_libyaml::node_from(events, i, text) {
            Some((node, j)) => stands(events, i, j, node),
            None => true,
        },
{
    node_stands(events, i, text);
}

/// Of a stream with one document, of which a node is read, that node is the document.
pub proof fn a_document_is_its_node(
    events: Seq<EventModel>,
    i: int,
    text: Seq<char>,
    node: NodeModel,
    j: int,
)
    requires
        0 <= i < events.len(),
        events[i].data is DocumentStart,
        parse_libyaml::node_from(events, i + 1, text) == Some((node, j)),
        i < j <= events.len(),
        forall|k: int| 0 <= k < i ==> !((#[trigger] events[k]).data is DocumentStart),
        forall|k: int| j <= k < events.len() ==> !((#[trigger] events[k]).data is DocumentStart),
    ensures
        parse_libyaml::documents_from(events, 0, text, Seq::empty()) == seq![node],
{
    no_document(events, 0, i, text, Seq::empty());
    assert(Seq::<NodeModel>::empty().push(node) =~= seq![node]);
    no_document(events, j, events.len() as int, text, seq![node]);
}

proof fn no_document(
    events: Seq<EventModel>,
    from: int,
    to: int,
    text: Seq<char>,
    acc: Seq<NodeModel>,
)
    requires
        0 <= from <= to <= events.len(),
        forall|k: int| from <= k < to ==> !((#[trigger] events[k]).data is DocumentStart),
    ensures
        parse_libyaml::documents_from(events, from, text, acc) == parse_libyaml::documents_from(
            events,
            to,
            text,
            acc,
        ),
    decreases to - from,
{
    if from < to {
        assert(!(events[from].data is DocumentStart));
        no_document(events, from + 1, to, text, acc);
    }
}

// ------------------------------------------------------------------ errors and columns

/// An error inside of a text underlines from its mark to the end of the line, and the line feed
/// alone where it stands on one.
pub proof fn an_error_underlines_its_line(text: Seq<char>, mark: u64, end: int)
    requires
        encode_utf8(text).len() <= usize::MAX,
        mark <= end <= encode_utf8(text).len(),
        mark < encode_utf8(text).len(),
        end < encode_utf8(text).len() ==> encode_utf8(text)[end] == 10,
        forall|k: int| mark <= k < end ==> encode_utf8(text)[k] != 10,
    ensures
        parse_libyaml::error_span(text, Some(mark)) == (Span {
            start: mark as usize,
            end: (if end == mark {
                mark + 1
            } else {
                end
            }) as usize,
        }),
{
    line_ends(encode_utf8(text), mark as int, end);
}

proof fn line_ends(b: Seq<u8>, i: int, end: int)
    requires
        0 <= i <= end <= b.len(),
        end < b.len() ==> b[end] == 10,
        forall|k: int| i <= k < end ==> b[k] != 10,
    ensures
        parse_libyaml::line_end(b, i) == end,
    decreases end - i,
{
    if i < end {
        line_ends(b, i + 1, end);
    }
}

/// A character counts one column, and two beyond the first sixty-five thousand.
pub proof fn columns_count_units(s: Seq<char>, c: char)
    ensures
        parse::utf16_len(Seq::empty()) == 0,
        c < '\u{10000}' ==> parse::utf16_len(s.push(c)) == parse::utf16_len(s) + 1,
        c >= '\u{10000}' ==> parse::utf16_len(s.push(c)) == parse::utf16_len(s) + 2,
{
    assert(s.push(c).drop_last() =~= s);
}

/// A line feed, and nothing else, begins a new line behind it.
pub proof fn lines_end_at_line_feeds(b: Seq<u8>, i: int)
    requires
        0 <= i < b.len(),
    ensures
        parse::line_of(b, 0) == 0,
        parse::line_of(b, i + 1) == parse::line_of(b, i) + if b[i] == 10 {
            1int
        } else {
            0
        },
{
}

} // verus!
