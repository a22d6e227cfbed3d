//! The YAML parser behind [`crate::parse::Document`], backed by `libyaml-safer`. Builds the
//! [`Node`] tree from libyaml's event stream.
//!
//! libyaml accepts exactly what Ansible accepts, multi-line quoted scalars whose continuation
//! lines are not indented past their key among it. This is the only module that touches
//! `libyaml-safer`.

use crate::parse::{self, Node, NodeModel, Span};
use crate::text::{from_chars, str_eq, to_chars};
use crate::yaml_input::{
    self, break_off, bring_ending, bring_event, bring_offset, drop_blanks, find_clashes,
    find_mark_len, find_probe_mark, has_ending, lay_out, limit_offset, meets_comma,
};
use libyaml_safer::{Event, EventData, Parser};
use vstd::prelude::*;
use vstd::utf8::*;

verus! {

/// What an event of the stream announces, as far as a tree is built from it.
#[derive(Debug)]
pub enum YamlData {
    DocumentStart,
    Scalar(String),
    SequenceStart,
    SequenceEnd,
    MappingStart,
    MappingEnd,
    /// An alias, and what frames the stream and its documents.
    Other,
}

/// One event of the stream and the byte offsets that it spans.
#[derive(Debug)]
pub struct YamlEvent {
    pub data: YamlData,
    pub start: u64,
    pub end: u64,
}

/// What a [`YamlData`] says.
pub enum DataModel {
    DocumentStart,
    Scalar(Seq<char>),
    SequenceStart,
    SequenceEnd,
    MappingStart,
    MappingEnd,
    Other,
}

/// What a [`YamlEvent`] says.
pub struct EventModel {
    pub data: DataModel,
    pub start: u64,
    pub end: u64,
}

impl YamlData {
    pub open spec fn view(&self) -> DataModel {
        match self {
            YamlData::DocumentStart => DataModel::DocumentStart,
            YamlData::Scalar(s) => DataModel::Scalar(s@),
            YamlData::SequenceStart => DataModel::SequenceStart,
            YamlData::SequenceEnd => DataModel::SequenceEnd,
            YamlData::MappingStart => DataModel::MappingStart,
            YamlData::MappingEnd => DataModel::MappingEnd,
            YamlData::Other => DataModel::Other,
        }
    }
}

impl YamlEvent {
    pub open spec fn view(&self) -> EventModel {
        EventModel { data: self.data.view(), start: self.start, end: self.end }
    }
}

/// What a stream of events says.
pub open spec fn event_models(v: Seq<YamlEvent>) -> Seq<EventModel> {
    Seq::new(v.len(), |i: int| v[i].view())
}

/// What libyaml makes of a text: its events up to the end of the stream, or the byte offset that
/// its first error points at, where it points at one.
pub uninterp spec fn libyaml_events(text: Seq<char>) -> Result<Seq<EventModel>, Option<u64>>;

/// `libyaml_safer::Parser` on a string, driven through its `Iterator` impl to the end of the
/// stream: the events as plain values, in order, or the offset of the mark of the first error. Of an
/// event there remain the variants that a tree is built from, the text of a scalar, and the two byte
/// offsets.
///
/// Nothing is said of the events beyond that they depend on the text alone. The texts that are left
/// out are those on which libyaml-safer can panic: where its scanner looks behind the last character
/// of a line that is not ended, and where it meets a comma directly behind a tag while a flow
/// collection is open. No flow collection is open before a `[` or `{`, and a tag begins only where a
/// token can.
#[verifier::external_body]
fn scan_events(text: &str) -> (r: Result<Vec<YamlEvent>, Option<u64>>)
    requires
        yaml_input::is_ended(text@),
        !yaml_input::tag_meets_comma(text@),
    ensures
        match r {
            Ok(v) => libyaml_events(text@) == Ok::<Seq<EventModel>, Option<u64>>(event_models(v@)),
            Err(mark) => libyaml_events(text@) == Err::<Seq<EventModel>, Option<u64>>(mark),
        },
{
    let (mut input, mut parser) = (text.as_bytes(), Parser::new());
    parser.set_input_string(&mut input);
    let plain = |e: Event| YamlEvent {
        data: match e.data {
            EventData::DocumentStart { .. } => YamlData::DocumentStart,
            EventData::Scalar { value, .. } => YamlData::Scalar(value),
            EventData::SequenceStart { .. } => YamlData::SequenceStart,
            EventData::SequenceEnd => YamlData::SequenceEnd,
            EventData::MappingStart { .. } => YamlData::MappingStart,
            EventData::MappingEnd => YamlData::MappingEnd,
            _ => YamlData::Other,
        },
        start: e.start_mark.index, end: e.end_mark.index,
    };
    parser.map(|r| r.map(plain).map_err(|e| e.problem_mark().map(|m| m.index))).collect()
}

/// Does libyaml take the `!` at `k` for a tag? Then it refuses the text that breaks off behind it,
/// right there, and does not where a letter takes its place.
pub open spec fn is_tag(s: Seq<char>, k: int) -> bool {
    let refusal = Err::<Seq<EventModel>, Option<u64>>(Some(yaml_input::probe_mark(s, k)));
    &&& libyaml_events(yaml_input::probe(s, k, '!')) == refusal
    &&& libyaml_events(yaml_input::probe(s, k, 'x')) != refusal
}

/// The `!` that could be tags before a comma and are none.
pub open spec fn hidden(s: Seq<char>) -> Seq<bool> {
    Seq::new(s.len(), |k: int| yaml_input::could_clash(s, k) && !is_tag(s, k))
}

/// What libyaml makes of a text in which a letter takes the place of what is hidden.
pub open spec fn read_with(s: Seq<char>, letter: char) -> Result<Seq<EventModel>, Option<u64>> {
    libyaml_events(yaml_input::laid(s, s.len() as int, hidden(s), letter))
}

/// The event in the second reading of a text that goes with event `i` of the first.
pub open spec fn partner(
    a: Seq<EventModel>,
    b: Result<Seq<EventModel>, Option<u64>>,
    i: int,
) -> EventModel {
    match b {
        Ok(b) => if i < b.len() {
            b[i]
        } else {
            a[i]
        },
        Err(_) => a[i],
    }
}

/// The events of a text whose last line is ended, with its own offsets and scalars.
pub open spec fn ended_events(s: Seq<char>) -> Result<Seq<EventModel>, Option<u64>> {
    if !yaml_input::tag_meets_comma(s) {
        libyaml_events(s)
    } else {
        let of = yaml_input::gaps(s, s.len() as int, hidden(s), 'x');
        let b = read_with(s, 'y');
        match read_with(s, 'x') {
            Ok(a) => Ok(
                Seq::new(a.len(), |i: int| yaml_input::event_back(of, a[i], partner(a, b, i))),
            ),
            Err(Some(at)) => Err(Some(yaml_input::offset_back(of, at))),
            Err(None) => Err(None),
        }
    }
}

/// The event in the place of event `i` where a last line of spaces is left out.
pub open spec fn event_without(text: Seq<char>, i: int) -> Option<EventModel> {
    if yaml_input::ends_in_blanks(text) {
        match ended_events(yaml_input::without_last_line(text)) {
            Ok(events) => if i < events.len() {
                Some(events[i])
            } else {
                None
            },
            Err(_) => None,
        }
    } else {
        None
    }
}

/// The events of a text, with its own offsets and scalars, or the byte offset that the first error
/// points at. Offsets are libyaml's: it does not count a byte order mark that a text begins with.
pub open spec fn events_of(text: Seq<char>) -> Result<Seq<EventModel>, Option<u64>> {
    if yaml_input::is_ended(text) {
        ended_events(text)
    } else {
        let limit = yaml_input::mark_len(text) as u64;
        let full = yaml_input::mark_len(text.push('\n')) as u64;
        match ended_events(text.push('\n')) {
            Ok(events) => Ok(
                Seq::new(
                    events.len(),
                    |i: int|
                        yaml_input::ending_back(limit, full, events[i], event_without(text, i)),
                ),
            ),
            Err(Some(at)) => Err(Some(yaml_input::limited(limit, at))),
            Err(None) => Err(None),
        }
    }
}

/// A text whose last line is ended, and in which no comma stands behind what could be a tag in a
/// flow collection, is read by libyaml as it is.
pub proof fn an_ordinary_text_is_read_as_it_is(text: Seq<char>)
    requires
        yaml_input::is_ended(text),
        !yaml_input::tag_meets_comma(text),
    ensures
        events_of(text) == libyaml_events(text),
{
}

/// Does libyaml refuse a text right at the mark?
fn refused_at(text: &str, mark: u64) -> (r: bool)
    requires
        yaml_input::is_ended(text@),
        !yaml_input::tag_meets_comma(text@),
    ensures
        r == (libyaml_events(text@) == Err::<Seq<EventModel>, Option<u64>>(Some(mark))),
{
    match scan_events(text) {
        Ok(_) => false,
        Err(Some(at)) => at == mark,
        Err(None) => false,
    }
}

/// The `!` that could be tags before a comma and are none.
fn find_hidden(text: &str) -> (r: Vec<bool>)
    ensures
        r@ == hidden(text@),
        yaml_input::hides_bangs(text@, r@),
{
    let all = find_clashes(text);
    let n: usize = all.len();
    let mut out: Vec<bool> = Vec::new();
    let mut k: usize = 0;
    while k < n
        invariant
            k <= n == text@.len(),
            n == all@.len(),
            all@ == yaml_input::all_clashes(text@),
            out@.len() == k,
            forall|i: int|
                0 <= i < k ==> #[trigger] out@[i] == (yaml_input::could_clash(text@, i) && !is_tag(
                    text@,
                    i,
                )),
        decreases n - k,
    {
        let mut mask = false;
        if all[k] {
            proof {
                yaml_input::the_probe_is_safe(text@, k as int, '!');
                yaml_input::the_probe_is_safe(text@, k as int, 'x');
            }
            let mark = find_probe_mark(text, k, &all);
            let tag = break_off(text, k, &all, '!');
            let plain = break_off(text, k, &all, 'x');
            mask = !(refused_at(tag.as_str(), mark) && !refused_at(plain.as_str(), mark));
        }
        out.push(mask);
        k += 1;
    }
    assert(out@ =~= hidden(text@));
    assert forall|i: int| 0 <= i < text@.len() && #[trigger] out@[i] implies text@[i] == '!' by {
        assert(yaml_input::could_clash(text@, i));
    }
    out
}

fn read_ended(text: &str) -> (r: Result<Vec<YamlEvent>, Option<u64>>)
    requires
        yaml_input::is_ended(text@),
    ensures
        match r {
            Ok(v) => ended_events(text@) == Ok::<Seq<EventModel>, Option<u64>>(event_models(v@)),
            Err(mark) => ended_events(text@) == Err::<Seq<EventModel>, Option<u64>>(mark),
        },
{
    if !meets_comma(text) {
        return scan_events(text);
    }
    let mask = find_hidden(text);
    let n: usize = mask.len();
    proof {
        yaml_input::the_layout_is_safe(text@, n as int, mask@, 'x');
        yaml_input::the_layout_is_safe(text@, n as int, mask@, 'y');
    }
    let laid = lay_out(text, n, &mask, 'x');
    let found = match scan_events(laid.text.as_str()) {
        Ok(found) => found,
        Err(Some(at)) => return Err(Some(bring_offset(&laid.gaps, at))),
        Err(None) => return Err(None),
    };
    let again = lay_out(text, n, &mask, 'y');
    let other = match scan_events(again.text.as_str()) {
        Ok(v) => v,
        Err(_) => Vec::new(),
    };
    let ghost a = event_models(found@);
    let ghost b = libyaml_events(again.text@);
    let mut out: Vec<YamlEvent> = Vec::new();
    let len: usize = found.len();
    let mut i: usize = 0;
    while i < len
        invariant
            i <= len == found@.len(),
            a == event_models(found@),
            b == libyaml_events(again.text@),
            match b {
                Ok(w) => w == event_models(other@),
                Err(_) => other@.len() == 0,
            },
            out@.len() == i,
            forall|k: int|
                0 <= k < i ==> (#[trigger] out@[k]).view() == yaml_input::event_back(
                    laid.gaps@,
                    a[k],
                    partner(a, b, k),
                ),
        decreases len - i,
    {
        if i < other.len() {
            out.push(bring_event(&laid.gaps, &found[i], &other[i]));
        } else {
            out.push(bring_event(&laid.gaps, &found[i], &found[i]));
        }
        i += 1;
    }
    assert(event_models(out@) =~= Seq::new(
        a.len(),
        |k: int| yaml_input::event_back(laid.gaps@, a[k], partner(a, b, k)),
    ));
    Ok(out)
}

/// The events of a text, or the byte offset that the first error points at.
pub fn scan(text: &str) -> (r: Result<Vec<YamlEvent>, Option<u64>>)
    ensures
        match r {
            Ok(v) => events_of(text@) == Ok::<Seq<EventModel>, Option<u64>>(event_models(v@)),
            Err(mark) => events_of(text@) == Err::<Seq<EventModel>, Option<u64>>(mark),
        },
{
    if has_ending(text) {
        return read_ended(text);
    }
    let mut ended = text.to_owned();
    ended.push('\n');
    let limit = find_mark_len(text);
    let full = find_mark_len(ended.as_str());
    let found = match read_ended(ended.as_str()) {
        Ok(found) => found,
        Err(Some(at)) => return Err(Some(limit_offset(limit, at))),
        Err(None) => return Err(None),
    };
    let without = match drop_blanks(text) {
        Some(shorter) => match read_ended(shorter.as_str()) {
            Ok(v) => v,
            Err(_) => Vec::new(),
        },
        None => Vec::new(),
    };
    let ghost events = event_models(found@);
    let mut out: Vec<YamlEvent> = Vec::new();
    let n: usize = found.len();
    let mut i: usize = 0;
    while i < n
        invariant
            i <= n == found@.len(),
            events == event_models(found@),
            forall|k: int|
                0 <= k < n ==> #[trigger] event_without(text@, k) == (if k < without@.len() {
                    Some(without@[k].view())
                } else {
                    None
                }),
            out@.len() == i,
            forall|k: int|
                0 <= k < i ==> (#[trigger] out@[k]).view() == yaml_input::ending_back(
                    limit,
                    full,
                    events[k],
                    event_without(text@, k),
                ),
        decreases n - i,
    {
        assert(event_without(text@, i as int) == (if i < without@.len() {
            Some(without@[i as int].view())
        } else {
            None
        }));
        let other = if i < without.len() {
            Some(&without[i])
        } else {
            None
        };
        out.push(bring_ending(limit, full, &found[i], other));
        i += 1;
    }
    assert(event_models(out@) =~= Seq::new(
        events.len(),
        |k: int| yaml_input::ending_back(limit, full, events[k], event_without(text@, k)),
    ));
    Ok(out)
}

/// A quoted scalar's marks span the quotes; its span is that of the value.
pub open spec fn without_quotes(span: Span, text: Seq<char>) -> Span {
    let b = encode_utf8(parse::text_between(text, span.start as int, span.end as int));
    if b.len() >= 2 && (b[0] == 34u8 || b[0] == 39u8) && b[0] == b[b.len() - 1] {
        Span { start: (span.start + 1) as usize, end: (span.end - 1) as usize }
    } else {
        span
    }
}

/// The span of an event.
pub open spec fn span_of(ev: EventModel) -> Span {
    Span { start: ev.start as usize, end: ev.end as usize }
}

/// The node that begins at event `i`, and the index just past it. There is none where the stream
/// ends first.
pub open spec fn node_from(events: Seq<EventModel>, i: int, text: Seq<char>) -> Option<
    (NodeModel, int),
>
    decreases events.len() - i, 0int,
{
    if i < 0 || i >= events.len() {
        None
    } else {
        let raw = span_of(events[i]);
        match events[i].data {
            DataModel::Scalar(value) => if value.len() == 0 && raw.start == raw.end {
                Some((NodeModel::Null(raw), i + 1))
            } else {
                Some((NodeModel::Scalar(value, without_quotes(raw, text)), i + 1))
            },
            DataModel::SequenceStart => match items_from(events, i + 1, text, Seq::empty()) {
                Some((items, j)) => Some(
                    (
                        NodeModel::Sequence(
                            items,
                            Span { start: raw.start, end: events[j].end as usize },
                        ),
                        j + 1,
                    ),
                ),
                None => None,
            },
            DataModel::MappingStart => match entries_from(events, i + 1, text, Seq::empty()) {
                Some((entries, j)) => Some(
                    (
                        NodeModel::Mapping(
                            entries,
                            Span { start: raw.start, end: events[j].end as usize },
                        ),
                        j + 1,
                    ),
                ),
                None => None,
            },
            _ => Some((NodeModel::Other(raw), i + 1)),
        }
    }
}

/// The items of a sequence from event `j` on, behind those in `acc`, and the index of its end.
pub open spec fn items_from(
    events: Seq<EventModel>,
    j: int,
    text: Seq<char>,
    acc: Seq<NodeModel>,
) -> Option<(Seq<NodeModel>, int)>
    decreases events.len() - j, 1int,
{
    if j < 0 || j >= events.len() {
        None
    } else if events[j].data is SequenceEnd {
        Some((acc, j))
    } else {
        match node_from(events, j, text) {
            Some((item, next)) => if j < next <= events.len() {
                items_from(events, next, text, acc.push(item))
            } else {
                None
            },
            None => None,
        }
    }
}

/// The entries of a mapping from event `j` on, behind those in `acc`, and the index of its end.
pub open spec fn entries_from(
    events: Seq<EventModel>,
    j: int,
    text: Seq<char>,
    acc: Seq<(NodeModel, NodeModel)>,
) -> Option<(Seq<(NodeModel, NodeModel)>, int)>
    decreases events.len() - j, 1int,
{
    if j < 0 || j >= events.len() {
        None
    } else if events[j].data is MappingEnd {
        Some((acc, j))
    } else {
        match node_from(events, j, text) {
            Some((key, after)) => if j < after <= events.len() {
                match node_from(events, after, text) {
                    Some((value, next)) => if after < next <= events.len() {
                        entries_from(events, next, text, acc.push((key, value)))
                    } else {
                        None
                    },
                    None => None,
                }
            } else {
                None
            },
            None => None,
        }
    }
}

/// One node per document, from event `i` on, behind those in `acc`.
pub open spec fn documents_from(
    events: Seq<EventModel>,
    i: int,
    text: Seq<char>,
    acc: Seq<NodeModel>,
) -> Seq<NodeModel>
    decreases events.len() - i,
{
    if i < 0 || i >= events.len() {
        acc
    } else if events[i].data is DocumentStart {
        match node_from(events, i + 1, text) {
            Some((node, next)) => if i < next <= events.len() {
                documents_from(events, next, text, acc.push(node))
            } else {
                acc
            },
            None => acc,
        }
    } else {
        documents_from(events, i + 1, text, acc)
    }
}

/// The documents of a text; none at all where libyaml cannot scan it.
pub open spec fn lenient(text: Seq<char>) -> Option<Seq<NodeModel>> {
    match events_of(text) {
        Ok(events) => Some(documents_from(events, 0, text, Seq::empty())),
        Err(_) => None,
    }
}

/// What a list of nodes says.
pub open spec fn node_models(v: Seq<Node>) -> Seq<NodeModel> {
    Seq::new(v.len(), |i: int| v[i].view())
}

/// What a list of entries says.
pub open spec fn entry_models(v: Seq<(Node, Node)>) -> Seq<(NodeModel, NodeModel)> {
    Seq::new(v.len(), |i: int| (v[i].0.view(), v[i].1.view()))
}

fn unquote(span: Span, text: &str) -> (r: Span)
    ensures
        r == without_quotes(span, text@),
{
    let s = span.slice(text);
    let b = s.as_bytes();
    if b.len() >= 2 && (b[0] == 34u8 || b[0] == 39u8) && b[0] == b[b.len() - 1] {
        proof {
            parse::text_between_len(text@, span.start as int, span.end as int);
        }
        Span { start: span.start + 1, end: span.end - 1 }
    } else {
        span
    }
}

fn raw_span(ev: &YamlEvent) -> (r: Span)
    ensures
        r == span_of(ev.view()),
{
    Span { start: ev.start as usize, end: ev.end as usize }
}

/// Build one node starting at event `i`; returns it and the index just past it.
fn build(events: &[YamlEvent], i: usize, text: &str) -> (r: Option<(Node, usize)>)
    ensures
        r is Some == node_from(event_models(events@), i as int, text@) is Some,
        r is Some ==> i < (r->0).1 <= events@.len() && node_from(
            event_models(events@),
            i as int,
            text@,
        ) == Some(((r->0).0.view(), (r->0).1 as int)),
    decreases events@.len() - i, 0int,
{
    let ghost evs = event_models(events@);
    let n: usize = events.len();
    if i >= n {
        return None;
    }
    assert(evs[i as int] == events@[i as int].view());
    let raw = raw_span(&events[i]);
    match &events[i].data {
        YamlData::Scalar(value) => {
            if value.as_str().is_empty() && raw.start == raw.end {
                Some((Node::Null { span: raw }, i + 1))
            } else {
                Some((Node::Scalar { value: value.clone(), span: unquote(raw, text) }, i + 1))
            }
        },
        YamlData::SequenceStart => {
            match build_items(events, i + 1, text) {
                Some((items, j)) => {
                    let span = Span { start: raw.start, end: events[j].end as usize };
                    let node = Node::Sequence { items, span };
                    assert(node.view() =~= NodeModel::Sequence(node_models(items@), span)) by {
                        assert(node.view()->Sequence_0 =~= node_models(items@));
                    }
                    Some((node, j + 1))
                },
                None => None,
            }
        },
        YamlData::MappingStart => {
            match build_entries(events, i + 1, text) {
                Some((entries, j)) => {
                    let span = Span { start: raw.start, end: events[j].end as usize };
                    let node = Node::Mapping { entries, span };
                    assert(node.view() =~= NodeModel::Mapping(entry_models(entries@), span)) by {
                        assert(node.view()->Mapping_0 =~= entry_models(entries@));
                    }
                    Some((node, j + 1))
                },
                None => None,
            }
        },
        _ => Some((Node::Other { span: raw }, i + 1)),
    }
}

/// The items of a sequence whose first event is `i`, and the index of its end.
fn build_items(events: &[YamlEvent], i: usize, text: &str) -> (r: Option<(Vec<Node>, usize)>)
    ensures
        r is Some == items_from(event_models(events@), i as int, text@, Seq::empty()) is Some,
        r is Some ==> i <= (r->0).1 < events@.len() && items_from(
            event_models(events@),
            i as int,
            text@,
            Seq::empty(),
        ) == Some((node_models((r->0).0@), (r->0).1 as int)),
    decreases events@.len() - i, 1int,
{
    let ghost evs = event_models(events@);
    let n: usize = events.len();
    let mut items: Vec<Node> = Vec::new();
    let mut j: usize = i;
    assert(node_models(items@) =~= Seq::empty());
    while j < n
        invariant
            evs == event_models(events@),
            i <= j,
            n == events@.len(),
            i < n ==> j <= n,
            items_from(evs, i as int, text@, Seq::empty()) == items_from(
                evs,
                j as int,
                text@,
                node_models(items@),
            ),
        decreases n - j,
    {
        assert(evs[j as int] == events@[j as int].view());
        if matches!(events[j].data, YamlData::SequenceEnd) {
            return Some((items, j));
        }
        match build(events, j, text) {
            Some((item, next)) => {
                let ghost before = node_models(items@);
                items.push(item);
                assert(node_models(items@) =~= before.push(item.view()));
                j = next;
            },
            None => return None,
        }
    }
    None
}

/// The entries of a mapping whose first event is `i`, and the index of its end.
fn build_entries(events: &[YamlEvent], i: usize, text: &str) -> (r: Option<
    (Vec<(Node, Node)>, usize),
>)
    ensures
        r is Some == entries_from(event_models(events@), i as int, text@, Seq::empty()) is Some,
        r is Some ==> i <= (r->0).1 < events@.len() && entries_from(
            event_models(events@),
            i as int,
            text@,
            Seq::empty(),
        ) == Some((entry_models((r->0).0@), (r->0).1 as int)),
    decreases events@.len() - i, 1int,
{
    let ghost evs = event_models(events@);
    let n: usize = events.len();
    let mut entries: Vec<(Node, Node)> = Vec::new();
    let mut j: usize = i;
    assert(entry_models(entries@) =~= Seq::empty());
    while j < n
        invariant
            evs == event_models(events@),
            i <= j,
            n == events@.len(),
            i < n ==> j <= n,
            entries_from(evs, i as int, text@, Seq::empty()) == entries_from(
                evs,
                j as int,
                text@,
                entry_models(entries@),
            ),
        decreases n - j,
    {
        assert(evs[j as int] == events@[j as int].view());
        if matches!(events[j].data, YamlData::MappingEnd) {
            return Some((entries, j));
        }
        match build(events, j, text) {
            Some((key, after)) => match build(events, after, text) {
                Some((value, next)) => {
                    let ghost before = entry_models(entries@);
                    entries.push((key, value));
                    assert(entry_models(entries@) =~= before.push((key.view(), value.view())));
                    j = next;
                },
                None => return None,
            },
            None => return None,
        }
    }
    None
}

/// The nodes of a stream of events, one per document.
pub fn documents(events: &[YamlEvent], text: &str) -> (r: Vec<Node>)
    ensures
        node_models(r@) == documents_from(event_models(events@), 0, text@, Seq::empty()),
{
    let ghost evs = event_models(events@);
    let n: usize = events.len();
    let mut docs: Vec<Node> = Vec::new();
    let mut i: usize = 0;
    assert(node_models(docs@) =~= Seq::empty());
    while i < n
        invariant
            evs == event_models(events@),
            i <= n == events@.len(),
            documents_from(evs, 0, text@, Seq::empty()) == documents_from(
                evs,
                i as int,
                text@,
                node_models(docs@),
            ),
        decreases n - i,
    {
        assert(evs[i as int] == events@[i as int].view());
        if matches!(events[i].data, YamlData::DocumentStart) {
            match build(events, i + 1, text) {
                Some((node, next)) => {
                    let ghost before = node_models(docs@);
                    docs.push(node);
                    assert(node_models(docs@) =~= before.push(node.view()));
                    i = next;
                },
                None => return docs,
            }
        } else {
            i += 1;
        }
    }
    docs
}

/// Parse `text` into one [`Node`] per document. `None` if libyaml itself cannot scan it: it is
/// broken for Ansible too.
pub fn parse_lenient(text: &str) -> (r: Option<Vec<Node>>)
    ensures
        r is Some == lenient(text@) is Some,
        r is Some ==> lenient(text@) == Some(node_models(r->0@)),
{
    match scan(text) {
        Ok(events) => Some(documents(&events, text)),
        Err(_) => None,
    }
}

/// A key written more than once in one mapping. Legal YAML: the constructor assigns the key
/// twice, so the value of [`first`](Self::first) is unreachable before any play sees the file.
#[derive(Debug, Clone, PartialEq, Eq)]
pub struct DuplicateKey {
    pub key: String,
    /// The later occurrence: the one Ansible keeps, and the one [`Node::get`] returns.
    pub span: Span,
    /// The earlier occurrence, whose value is discarded.
    pub first: Span,
}

/// What a [`DuplicateKey`] says.
pub struct DuplicateModel {
    pub key: Seq<char>,
    pub span: Span,
    pub first: Span,
}

impl DuplicateKey {
    pub open spec fn view(&self) -> DuplicateModel {
        DuplicateModel { key: self.key@, span: self.span, first: self.first }
    }
}

/// What a list of duplicates says.
pub open spec fn duplicate_models(v: Seq<DuplicateKey>) -> Seq<DuplicateModel> {
    Seq::new(v.len(), |i: int| v[i].view())
}

/// Where `name` was first seen, looking from index `k` on.
pub open spec fn seen_at(seen: Seq<(Seq<char>, Span)>, name: Seq<char>, k: int) -> Option<Span>
    decreases seen.len() - k,
{
    if k < 0 || k >= seen.len() {
        None
    } else if seen[k].0 == name {
        Some(seen[k].1)
    } else {
        seen_at(seen, name, k + 1)
    }
}

/// The duplicates in the node that begins at event `i`, and the index just past it.
pub open spec fn dupes_from(events: Seq<EventModel>, i: int, text: Seq<char>) -> Option<
    (Seq<DuplicateModel>, int),
>
    decreases events.len() - i, 0int,
{
    if i < 0 || i >= events.len() {
        None
    } else {
        match events[i].data {
            DataModel::SequenceStart => item_dupes(events, i + 1, text, Seq::empty()),
            DataModel::MappingStart => entry_dupes(
                events,
                i + 1,
                text,
                Seq::empty(),
                Seq::empty(),
            ),
            _ => Some((Seq::empty(), i + 1)),
        }
    }
}

/// The duplicates in the items of a sequence from event `j` on, behind those in `acc`, and the
/// index just past the sequence.
pub open spec fn item_dupes(
    events: Seq<EventModel>,
    j: int,
    text: Seq<char>,
    acc: Seq<DuplicateModel>,
) -> Option<(Seq<DuplicateModel>, int)>
    decreases events.len() - j, 1int,
{
    if j < 0 || j >= events.len() {
        None
    } else if events[j].data is SequenceEnd {
        Some((acc, j + 1))
    } else {
        match dupes_from(events, j, text) {
            Some((found, next)) => if j < next <= events.len() {
                item_dupes(events, next, text, acc + found)
            } else {
                None
            },
            None => None,
        }
    }
}

/// The duplicates in a mapping from event `j` on, behind those in `acc`, and the index just past
/// it. `seen` holds the keys so far. The same key in two sibling mappings is no duplicate.
pub open spec fn entry_dupes(
    events: Seq<EventModel>,
    j: int,
    text: Seq<char>,
    seen: Seq<(Seq<char>, Span)>,
    acc: Seq<DuplicateModel>,
) -> Option<(Seq<DuplicateModel>, int)>
    decreases events.len() - j, 1int,
{
    if j < 0 || j >= events.len() {
        None
    } else if events[j].data is MappingEnd {
        Some((acc, j + 1))
    } else {
        match dupes_from(events, j, text) {
            Some((in_key, after)) => if j < after <= events.len() {
                match dupes_from(events, after, text) {
                    Some((in_value, next)) => if after < next <= events.len() {
                        let found = acc + in_key + in_value;
                        match events[j].data {
                            DataModel::Scalar(name) => {
                                let span = without_quotes(span_of(events[j]), text);
                                match seen_at(seen, name, 0) {
                                    Some(first) => entry_dupes(
                                        events,
                                        next,
                                        text,
                                        seen,
                                        found.push(DuplicateModel { key: name, span, first }),
                                    ),
                                    None => entry_dupes(
                                        events,
                                        next,
                                        text,
                                        seen.push((name, span)),
                                        found,
                                    ),
                                }
                            },
                            _ => entry_dupes(events, next, text, seen, found),
                        }
                    } else {
                        None
                    },
                    None => None,
                }
            } else {
                None
            },
            None => None,
        }
    }
}

/// The duplicates of all documents from event `i` on, behind those in `acc`.
pub open spec fn document_dupes(
    events: Seq<EventModel>,
    i: int,
    text: Seq<char>,
    acc: Seq<DuplicateModel>,
) -> Seq<DuplicateModel>
    decreases events.len() - i,
{
    if i < 0 || i >= events.len() {
        acc
    } else if events[i].data is DocumentStart {
        match dupes_from(events, i + 1, text) {
            Some((found, next)) => if i < next <= events.len() {
                document_dupes(events, next, text, acc + found)
            } else {
                acc
            },
            None => acc,
        }
    } else {
        document_dupes(events, i + 1, text, acc)
    }
}

/// The repeated keys of a text.
pub open spec fn duplicates(text: Seq<char>) -> Seq<DuplicateModel> {
    match events_of(text) {
        Ok(events) => document_dupes(events, 0, text, Seq::empty()),
        Err(_) => Seq::empty(),
    }
}

fn append_dupes(out: &mut Vec<DuplicateKey>, more: Vec<DuplicateKey>)
    ensures
        duplicate_models(final(out)@) == duplicate_models(old(out)@) + duplicate_models(more@),
{
    let mut more = more;
    let ghost a = duplicate_models(out@);
    let ghost b = duplicate_models(more@);
    out.append(&mut more);
    assert(duplicate_models(out@) =~= a + b);
}

/// What the keys seen so far say.
pub open spec fn seen_models(seen: Seq<(&str, Span)>) -> Seq<(Seq<char>, Span)> {
    Seq::new(seen.len(), |i: int| (seen[i].0@, seen[i].1))
}

fn find_seen(seen: &[(&str, Span)], name: &str) -> (r: Option<Span>)
    ensures
        r == seen_at(seen_models(seen@), name@, 0),
{
    let ghost models = seen_models(seen@);
    let n: usize = seen.len();
    let mut k: usize = 0;
    while k < n
        invariant
            models == seen_models(seen@),
            k <= n == seen@.len(),
            seen_at(models, name@, 0) == seen_at(models, name@, k as int),
        decreases n - k,
    {
        assert(models[k as int] == (seen@[k as int].0@, seen@[k as int].1));
        if str_eq(seen[k].0, name) {
            return Some(seen[k].1);
        }
        k += 1;
    }
    None
}

/// Walk the node at event `i`; returns its duplicates and the index just past it.
fn scan_dupes(events: &[YamlEvent], i: usize, text: &str) -> (r: Option<
    (Vec<DuplicateKey>, usize),
>)
    ensures
        r is Some == dupes_from(event_models(events@), i as int, text@) is Some,
        r is Some ==> i < (r->0).1 <= events@.len() && dupes_from(
            event_models(events@),
            i as int,
            text@,
        ) == Some((duplicate_models((r->0).0@), (r->0).1 as int)),
    decreases events@.len() - i, 0int,
{
    let ghost evs = event_models(events@);
    let n: usize = events.len();
    if i >= n {
        return None;
    }
    assert(evs[i as int] == events@[i as int].view());
    match &events[i].data {
        YamlData::SequenceStart => scan_item_dupes(events, i + 1, text),
        YamlData::MappingStart => scan_entry_dupes(events, i + 1, text),
        _ => {
            let none: Vec<DuplicateKey> = Vec::new();
            assert(duplicate_models(none@) =~= Seq::empty());
            Some((none, i + 1))
        },
    }
}

fn scan_item_dupes(events: &[YamlEvent], i: usize, text: &str) -> (r: Option<
    (Vec<DuplicateKey>, usize),
>)
    ensures
        r is Some == item_dupes(event_models(events@), i as int, text@, Seq::empty()) is Some,
        r is Some ==> i < (r->0).1 <= events@.len() && item_dupes(
            event_models(events@),
            i as int,
            text@,
            Seq::empty(),
        ) == Some((duplicate_models((r->0).0@), (r->0).1 as int)),
    decreases events@.len() - i, 1int,
{
    let ghost evs = event_models(events@);
    let n: usize = events.len();
    let mut out: Vec<DuplicateKey> = Vec::new();
    let mut j: usize = i;
    assert(duplicate_models(out@) =~= Seq::empty());
    while j < n
        invariant
            evs == event_models(events@),
            i <= j,
            n == events@.len(),
            item_dupes(evs, i as int, text@, Seq::empty()) == item_dupes(
                evs,
                j as int,
                text@,
                duplicate_models(out@),
            ),
        decreases n - j,
    {
        assert(evs[j as int] == events@[j as int].view());
        if matches!(events[j].data, YamlData::SequenceEnd) {
            return Some((out, j + 1));
        }
        match scan_dupes(events, j, text) {
            Some((found, next)) => {
                append_dupes(&mut out, found);
                j = next;
            },
            None => return None,
        }
    }
    None
}

fn scan_entry_dupes(events: &[YamlEvent], i: usize, text: &str) -> (r: Option<
    (Vec<DuplicateKey>, usize),
>)
    ensures
        r is Some == entry_dupes(
            event_models(events@),
            i as int,
            text@,
            Seq::empty(),
            Seq::empty(),
        ) is Some,
        r is Some ==> i < (r->0).1 <= events@.len() && entry_dupes(
            event_models(events@),
            i as int,
            text@,
            Seq::empty(),
            Seq::empty(),
        ) == Some((duplicate_models((r->0).0@), (r->0).1 as int)),
    decreases events@.len() - i, 1int,
{
    let ghost evs = event_models(events@);
    let n: usize = events.len();
    let mut seen: Vec<(&str, Span)> = Vec::new();
    let mut out: Vec<DuplicateKey> = Vec::new();
    let mut j: usize = i;
    assert(duplicate_models(out@) =~= Seq::empty());
    assert(seen_models(seen@) =~= Seq::empty());
    while j < n
        invariant
            evs == event_models(events@),
            i <= j,
            n == events@.len(),
            entry_dupes(evs, i as int, text@, Seq::empty(), Seq::empty()) == entry_dupes(
                evs,
                j as int,
                text@,
                seen_models(seen@),
                duplicate_models(out@),
            ),
        decreases n - j,
    {
        assert(evs[j as int] == events@[j as int].view());
        if matches!(events[j].data, YamlData::MappingEnd) {
            return Some((out, j + 1));
        }
        match scan_dupes(events, j, text) {
            Some((in_key, after)) => match scan_dupes(events, after, text) {
                Some((in_value, next)) => {
                    append_dupes(&mut out, in_key);
                    append_dupes(&mut out, in_value);
                    if let YamlData::Scalar(name) = &events[j].data {
                        let span = unquote(raw_span(&events[j]), text);
                        match find_seen(&seen, name.as_str()) {
                            Some(first) => {
                                let ghost before = duplicate_models(out@);
                                let dup = DuplicateKey { key: name.clone(), span, first };
                                out.push(dup);
                                assert(duplicate_models(out@) =~= before.push(dup.view()));
                            },
                            None => {
                                let ghost before = seen_models(seen@);
                                seen.push((name.as_str(), span));
                                assert(seen_models(seen@) =~= before.push((name@, span)));
                            },
                        }
                    }
                    j = next;
                },
                None => return None,
            },
            None => return None,
        }
    }
    None
}

/// The repeated keys of a stream of events.
pub fn repeated_keys(events: &[YamlEvent], text: &str) -> (r: Vec<DuplicateKey>)
    ensures
        duplicate_models(r@) == document_dupes(event_models(events@), 0, text@, Seq::empty()),
{
    let ghost evs = event_models(events@);
    let n: usize = events.len();
    let mut out: Vec<DuplicateKey> = Vec::new();
    let mut i: usize = 0;
    assert(duplicate_models(out@) =~= Seq::empty());
    while i < n
        invariant
            evs == event_models(events@),
            i <= n == events@.len(),
            document_dupes(evs, 0, text@, Seq::empty()) == document_dupes(
                evs,
                i as int,
                text@,
                duplicate_models(out@),
            ),
        decreases n - i,
    {
        assert(evs[i as int] == events@[i as int].view());
        if matches!(events[i].data, YamlData::DocumentStart) {
            match scan_dupes(events, i + 1, text) {
                Some((found, next)) => {
                    append_dupes(&mut out, found);
                    i = next;
                },
                None => return out,
            }
        } else {
            i += 1;
        }
    }
    out
}

/// Every repeated mapping key in `text`, one entry per *later* occurrence, so a key written three
/// times yields two. Empty if libyaml cannot scan the text at all.
pub fn duplicate_keys(text: &str) -> (r: Vec<DuplicateKey>)
    ensures
        duplicate_models(r@) == duplicates(text@),
{
    match scan(text) {
        Ok(events) => repeated_keys(&events, text),
        Err(_) => {
            let none: Vec<DuplicateKey> = Vec::new();
            assert(duplicate_models(none@) =~= Seq::empty());
            none
        },
    }
}

/// The search for duplicates pairs keys and values exactly as the tree does: it walks the same
/// nodes, from the same event to the same event.
pub proof fn dupes_follow_the_tree(events: Seq<EventModel>, i: int, text: Seq<char>)
    ensures
        dupes_from(events, i, text) is Some <==> node_from(events, i, text) is Some,
        dupes_from(events, i, text) is Some ==> (dupes_from(events, i, text)->0).1 == (node_from(
            events,
            i,
            text,
        )->0).1,
    decreases events.len() - i, 0int,
{
    if 0 <= i < events.len() {
        if events[i].data is SequenceStart {
            item_dupes_follow(events, i + 1, text, Seq::empty(), Seq::empty());
        } else if events[i].data is MappingStart {
            entry_dupes_follow(events, i + 1, text, Seq::empty(), Seq::empty(), Seq::empty());
        }
    }
}

proof fn item_dupes_follow(
    events: Seq<EventModel>,
    j: int,
    text: Seq<char>,
    dupes: Seq<DuplicateModel>,
    items: Seq<NodeModel>,
)
    ensures
        item_dupes(events, j, text, dupes) is Some <==> items_from(events, j, text, items) is Some,
        item_dupes(events, j, text, dupes) is Some ==> (item_dupes(events, j, text, dupes)->0).1
            == (items_from(events, j, text, items)->0).1 + 1,
    decreases events.len() - j, 1int,
{
    if 0 <= j < events.len() && !(events[j].data is SequenceEnd) {
        dupes_follow_the_tree(events, j, text);
        if let Some((found, next)) = dupes_from(events, j, text) {
            if j < next <= events.len() {
                let item = (node_from(events, j, text)->0).0;
                item_dupes_follow(events, next, text, dupes + found, items.push(item));
            }
        }
    }
}

proof fn entry_dupes_follow(
    events: Seq<EventModel>,
    j: int,
    text: Seq<char>,
    seen: Seq<(Seq<char>, Span)>,
    dupes: Seq<DuplicateModel>,
    entries: Seq<(NodeModel, NodeModel)>,
)
    ensures
        entry_dupes(events, j, text, seen, dupes) is Some <==> entries_from(
            events,
            j,
            text,
            entries,
        ) is Some,
        entry_dupes(events, j, text, seen, dupes) is Some ==> (entry_dupes(
            events,
            j,
            text,
            seen,
            dupes,
        )->0).1 == (entries_from(events, j, text, entries)->0).1 + 1,
    decreases events.len() - j, 1int,
{
    if 0 <= j < events.len() && !(events[j].data is MappingEnd) {
        dupes_follow_the_tree(events, j, text);
        if let Some((in_key, after)) = dupes_from(events, j, text) {
            if j < after <= events.len() {
                dupes_follow_the_tree(events, after, text);
                if let Some((in_value, next)) = dupes_from(events, after, text) {
                    if after < next <= events.len() {
                        let key = (node_from(events, j, text)->0).0;
                        let value = (node_from(events, after, text)->0).0;
                        let more = entries.push((key, value));
                        let found = dupes + in_key + in_value;
                        if let DataModel::Scalar(name) = events[j].data {
                            let span = without_quotes(span_of(events[j]), text);
                            if let Some(first) = seen_at(seen, name, 0) {
                                let dup = DuplicateModel { key: name, span, first };
                                entry_dupes_follow(
                                    events,
                                    next,
                                    text,
                                    seen,
                                    found.push(dup),
                                    more,
                                );
                            } else {
                                entry_dupes_follow(
                                    events,
                                    next,
                                    text,
                                    seen.push((name, span)),
                                    found,
                                    more,
                                );
                            }
                        } else {
                            entry_dupes_follow(events, next, text, seen, found, more);
                        }
                    }
                }
            }
        }
    }
}

/// The first line feed at or after byte `i`, or the end.
pub open spec fn line_end(b: Seq<u8>, i: int) -> int
    decreases b.len() - i,
{
    if i < 0 || i >= b.len() || b[i] == 10u8 {
        i
    } else {
        line_end(b, i + 1)
    }
}

/// What an error at byte offset `mark` underlines: from there to the end of the line. Where that is
/// nothing, it is the line feed there, or the last character at the end of the text. So it holds at
/// least one character of a text that has any.
pub open spec fn error_span(text: Seq<char>, mark: Option<u64>) -> Span {
    let b = encode_utf8(text);
    let at = match mark {
        Some(m) => m as usize as int,
        None => 0,
    };
    let end = line_end(b, at);
    if at >= b.len() {
        Span { start: last_char_at(text) as usize, end: b.len() as usize }
    } else if end == at {
        Span { start: at as usize, end: (at + 1) as usize }
    } else {
        Span { start: at as usize, end: end as usize }
    }
}

/// Where the last character of a text begins, in bytes.
pub open spec fn last_char_at(text: Seq<char>) -> int {
    if text.len() == 0 {
        0
    } else {
        encode_utf8(text.drop_last()).len() as int
    }
}

/// Where libyaml's scan fails.
pub open spec fn lenient_error(text: Seq<char>) -> Option<Span> {
    match events_of(text) {
        Ok(_) => None,
        Err(mark) => Some(error_span(text, mark)),
    }
}

proof fn last_char_is_inside(text: Seq<char>)
    requires
        text.len() > 0,
    ensures
        0 <= last_char_at(text) < encode_utf8(text).len(),
{
    let n = text.len() as int;
    parse::encode_prefix_step(text, n - 1);
    assert(text.subrange(0, n) =~= text);
    assert(text.subrange(0, n - 1) =~= text.drop_last());
}

proof fn line_end_is_inside(b: Seq<u8>, i: int)
    requires
        0 <= i <= b.len(),
    ensures
        i <= line_end(b, i) <= b.len(),
    decreases b.len() - i,
{
    if i < b.len() && b[i] != 10u8 {
        line_end_is_inside(b, i + 1);
    }
}

/// What an error at byte offset `mark` underlines.
pub fn underline(text: &str, mark: Option<u64>) -> (r: Span)
    ensures
        r == error_span(text@, mark),
        text@.len() > 0 ==> r.start < r.end <= encode_utf8(text@).len(),
{
    let b = text.as_bytes();
    let n: usize = b.len();
    let at: usize = match mark {
        Some(m) => m as usize,
        None => 0,
    };
    if at >= n {
        let v = to_chars(text);
        if v.len() == 0 {
            return Span { start: 0, end: n };
        }
        let before = from_chars(v.as_slice(), 0, v.len() - 1);
        proof {
            last_char_is_inside(text@);
            assert(before@ =~= text@.drop_last());
        }
        return Span { start: before.as_str().as_bytes().len(), end: n };
    }
    proof {
        line_end_is_inside(b@, at as int);
    }
    let mut end: usize = at;
    while end < n && b[end] != 10u8
        invariant
            at <= end <= n == b@.len(),
            line_end(b@, at as int) == line_end(b@, end as int),
        decreases n - end,
    {
        end += 1;
    }
    if end == at {
        end = at + 1;
    }
    Span { start: at, end }
}

/// Where libyaml's scan failed, as a byte span, or `None` if it parses.
pub fn parse_lenient_error(text: &str) -> (r: Option<Span>)
    ensures
        r == lenient_error(text@),
        r is Some && text@.len() > 0 ==> (r->0).start < (r->0).end && (r->0).end <= encode_utf8(
            text@,
        ).len(),
{
    match scan(text) {
        Ok(_) => None,
        Err(mark) => Some(underline(text, mark)),
    }
}

/// A text has either a tree or a place where its scan failed, never both and never neither.
pub proof fn parsed_or_located(text: Seq<char>)
    ensures
        lenient(text) is Some <==> lenient_error(text) is None,
{
}

} // verus!
