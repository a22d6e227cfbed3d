//! YAML trees with byte spans, and the line index that turns byte offsets into the line and
//! UTF-16 column of an editor and back.

use crate::parse_libyaml::{self, parse_lenient};
use crate::text::{self, chars_at, chars_find, skip_white, str_eq, to_chars, trimmed_len};
use vstd::prelude::*;
use vstd::utf8::*;

verus! {

/// Byte offsets. Always bytes: never characters, never UTF-16 units.
#[derive(Debug, Clone, Copy, PartialEq, Eq, Structural)]
pub struct Span {
    pub start: usize,
    pub end: usize,
}

/// The text between two byte offsets, where both lie on character boundaries; else nothing.
pub open spec fn text_between(text: Seq<char>, start: int, end: int) -> Seq<char> {
    let b = encode_utf8(text);
    if start <= end && is_char_boundary(b, start) && is_char_boundary(b, end) {
        decode_utf8(b.subrange(start, end))
    } else {
        Seq::empty()
    }
}

/// A boundary at or after another one is a boundary of what follows the first.
proof fn boundary_in_rest(b: Seq<u8>, start: int, end: int)
    requires
        valid_utf8(b),
        0 <= start <= end,
        is_char_boundary(b, start),
        is_char_boundary(b, end),
    ensures
        start <= end <= b.len(),
        valid_utf8(b.subrange(start, b.len() as int)),
        is_char_boundary(b.subrange(start, b.len() as int), end - start),
{
    let rest = b.subrange(start, b.len() as int);
    valid_utf8_split(b, start);
    if end < b.len() {
        is_char_boundary_iff_not_is_continuation_byte(b, end);
        is_char_boundary_iff_not_is_continuation_byte(rest, end - start);
    } else {
        is_char_boundary_start_end_of_seq(rest);
    }
}

/// The text between two boundaries has the bytes that lie between them.
pub proof fn text_between_bytes(text: Seq<char>, start: int, end: int)
    requires
        0 <= start <= end,
        is_char_boundary(encode_utf8(text), start),
        is_char_boundary(encode_utf8(text), end),
    ensures
        end <= encode_utf8(text).len(),
        encode_utf8(text_between(text, start, end)) == encode_utf8(text).subrange(start, end),
{
    let b = encode_utf8(text);
    encode_utf8_valid_utf8(text);
    boundary_in_rest(b, start, end);
    let rest = b.subrange(start, b.len() as int);
    valid_utf8_split(rest, end - start);
    assert(rest.subrange(0, end - start) =~= b.subrange(start, end));
    decode_utf8_encode_utf8(b.subrange(start, end));
}

/// A text that begins with another one has a boundary where that one ends.
proof fn boundary_behind_prefix(e: Seq<u8>, tail: Seq<u8>)
    requires
        valid_utf8(e),
        valid_utf8(e + tail),
    ensures
        is_char_boundary(e + tail, e.len() as int),
    decreases e.len(),
{
    let b = e + tail;
    if e.len() > 0 {
        assert(b[0] == e[0]);
        assert(length_of_first_scalar(b) == length_of_first_scalar(e));
        assert(pop_first_scalar(b) =~= pop_first_scalar(e) + tail);
        boundary_behind_prefix(pop_first_scalar(e), tail);
    }
}

/// A text found in another one stands between two boundaries of it.
pub proof fn found_between_boundaries(text: Seq<char>, p: Seq<char>, i: int)
    requires
        text::bytes_at(encode_utf8(text), encode_utf8(p), i),
        encode_utf8(p).len() > 0,
    ensures
        is_char_boundary(encode_utf8(text), i),
        is_char_boundary(encode_utf8(text), i + encode_utf8(p).len()),
{
    let b = encode_utf8(text);
    let e = encode_utf8(p);
    encode_utf8_valid_utf8(text);
    encode_utf8_valid_utf8(p);
    assert(b[i] == b.subrange(i, i + e.len())[0]);
    is_char_boundary_iff_not_is_continuation_byte(e, 0);
    is_char_boundary_iff_not_is_continuation_byte(b, i);
    valid_utf8_split(b, i);
    let rest = b.subrange(i, b.len() as int);
    let tail = b.subrange(i + e.len(), b.len() as int);
    assert(rest =~= e + tail);
    boundary_behind_prefix(e, tail);
    is_char_boundary_start_end_of_seq(b);
    if i + e.len() < b.len() {
        is_char_boundary_iff_not_is_continuation_byte(rest, e.len() as int);
        is_char_boundary_iff_not_is_continuation_byte(b, i + e.len());
    }
}

/// The text between two offsets takes as many bytes as lie between them, or none.
pub proof fn text_between_len(text: Seq<char>, start: int, end: int)
    requires
        0 <= start,
    ensures
        encode_utf8(text_between(text, start, end)).len() > 0 ==> 0 <= start && end
            <= encode_utf8(text).len() && encode_utf8(text_between(text, start, end)).len() == end
            - start,
{
    let b = encode_utf8(text);
    encode_utf8_valid_utf8(text);
    if start <= end && is_char_boundary(b, start) && is_char_boundary(b, end) {
        boundary_in_rest(b, start, end);
        let rest = b.subrange(start, b.len() as int);
        valid_utf8_split(rest, end - start);
        assert(rest.subrange(0, end - start) =~= b.subrange(start, end));
        decode_utf8_encode_utf8(b.subrange(start, end));
    } else {
        assert(encode_utf8(Seq::<char>::empty()) =~= Seq::empty());
    }
}

impl Span {
    /// The text that the span covers, or nothing where it does not fit `text`.
    pub fn slice<'a>(&self, text: &'a str) -> (r: &'a str)
        ensures
            r@ == text_between(text@, self.start as int, self.end as int),
    {
        proof {
            encode_utf8_valid_utf8(text@);
        }
        if self.start <= self.end && text.is_char_boundary(self.start) && text.is_char_boundary(
            self.end,
        ) {
            let ghost b = encode_utf8(text@);
            proof {
                boundary_in_rest(b, self.start as int, self.end as int);
            }
            let (_, rest) = text.split_at(self.start);
            let (mid, _) = rest.split_at(self.end - self.start);
            proof {
                encode_utf8_decode_utf8(mid@);
                assert(encode_utf8(mid@) =~= b.subrange(self.start as int, self.end as int));
            }
            mid
        } else {
            proof {
                reveal_strlit("");
            }
            assert(""@ =~= Seq::<char>::empty());
            ""
        }
    }
}

/// One YAML value and where it stands.
#[derive(Debug)]
pub enum Node {
    Scalar { value: String, span: Span },
    Sequence { items: Vec<Node>, span: Span },
    Mapping { entries: Vec<(Node, Node)>, span: Span },
    /// A value that was left out: `key:` with nothing behind it.
    Null { span: Span },
    /// An alias, or anything else that is not resolved.
    Other { span: Span },
}

/// What a [`Node`] says, free of how it is held.
pub enum NodeModel {
    Scalar(Seq<char>, Span),
    Sequence(Seq<NodeModel>, Span),
    Mapping(Seq<(NodeModel, NodeModel)>, Span),
    Null(Span),
    Other(Span),
}

impl Node {
    pub open spec fn view(&self) -> NodeModel
        decreases self,
    {
        match self {
            Node::Scalar { value, span } => NodeModel::Scalar(value@, *span),
            Node::Sequence { items, span } => NodeModel::Sequence(
                Seq::new(
                    items@.len(),
                    |i: int|
                        if 0 <= i < items@.len() {
                            items@[i].view()
                        } else {
                            arbitrary()
                        },
                ),
                *span,
            ),
            Node::Mapping { entries, span } => NodeModel::Mapping(
                Seq::new(
                    entries@.len(),
                    |i: int|
                        if 0 <= i < entries@.len() {
                            (entries@[i].0.view(), entries@[i].1.view())
                        } else {
                            arbitrary()
                        },
                ),
                *span,
            ),
            Node::Null { span } => NodeModel::Null(*span),
            Node::Other { span } => NodeModel::Other(*span),
        }
    }

    /// Where the node stands.
    pub open spec fn at(self) -> Span {
        match self {
            Node::Scalar { span, .. } => span,
            Node::Sequence { span, .. } => span,
            Node::Mapping { span, .. } => span,
            Node::Null { span } => span,
            Node::Other { span } => span,
        }
    }

    /// The characters of a scalar.
    pub open spec fn word(self) -> Option<Seq<char>> {
        match self {
            Node::Scalar { value, .. } => Some(value@),
            _ => None,
        }
    }

    /// The entries of a mapping; none of anything else.
    pub open spec fn pairs(self) -> Seq<(Node, Node)> {
        match self {
            Node::Mapping { entries, .. } => entries@,
            _ => Seq::empty(),
        }
    }

    /// The items of a sequence; none of anything else.
    pub open spec fn elems(self) -> Seq<Node> {
        match self {
            Node::Sequence { items, .. } => items@,
            _ => Seq::empty(),
        }
    }

    /// The value of the last entry whose key is the word `key`.
    pub open spec fn value_of(self, key: Seq<char>) -> Option<Node> {
        match last_key(self.pairs(), key, self.pairs().len() as int) {
            Some(i) => Some(self.pairs()[i].1),
            None => None,
        }
    }

    pub fn span(&self) -> (r: Span)
        ensures
            r == self.at(),
    {
        match self {
            Node::Scalar { span, .. } => *span,
            Node::Sequence { span, .. } => *span,
            Node::Mapping { span, .. } => *span,
            Node::Null { span } => *span,
            Node::Other { span } => *span,
        }
    }

    pub fn as_str(&self) -> (r: Option<&str>)
        ensures
            r is Some == self.word() is Some,
            r is Some ==> r->0@ == self.word()->0,
    {
        match self {
            Node::Scalar { value, .. } => Some(value.as_str()),
            _ => None,
        }
    }

    /// Key lookup. On a duplicate key the last entry wins, as it does when Ansible loads the
    /// mapping.
    pub fn get(&self, key: &str) -> (r: Option<&Node>)
        ensures
            r is Some == self.value_of(key@) is Some,
            r is Some ==> *r->0 == self.value_of(key@)->0,
    {
        match self {
            Node::Mapping { entries, .. } => match last_key_index(entries, key) {
                Some(i) => Some(&entries[i].1),
                None => None,
            },
            _ => None,
        }
    }

    pub fn entries(&self) -> (r: &[(Node, Node)])
        ensures
            r@ == self.pairs(),
    {
        match self {
            Node::Mapping { entries, .. } => entries.as_slice(),
            _ => &[],
        }
    }

    pub fn items(&self) -> (r: &[Node])
        ensures
            r@ == self.elems(),
    {
        match self {
            Node::Sequence { items, .. } => items.as_slice(),
            _ => &[],
        }
    }
}

fn copy_node(node: &Node) -> (r: Node)
    ensures
        r.view() == node.view(),
    decreases node,
{
    let r = match node {
        Node::Scalar { value, span } => Node::Scalar { value: value.clone(), span: *span },
        Node::Sequence { items, span } => Node::Sequence { items: copy_items(items), span: *span },
        Node::Mapping { entries, span } => Node::Mapping {
            entries: copy_entries(entries),
            span: *span,
        },
        Node::Null { span } => Node::Null { span: *span },
        Node::Other { span } => Node::Other { span: *span },
    };
    proof {
        if node is Sequence {
            assert(r.view()->Sequence_0 =~= node.view()->Sequence_0);
        }
        if node is Mapping {
            assert(r.view()->Mapping_0 =~= node.view()->Mapping_0);
        }
    }
    r
}

fn copy_items(items: &Vec<Node>) -> (r: Vec<Node>)
    ensures
        r@.len() == items@.len(),
        forall|i: int| 0 <= i < r@.len() ==> (#[trigger] r@[i]).view() == items@[i].view(),
    decreases items@,
{
    let n: usize = items.len();
    let mut out: Vec<Node> = Vec::new();
    let mut i: usize = 0;
    while i < n
        invariant
            i <= n == items@.len(),
            out@.len() == i,
            forall|k: int| 0 <= k < i ==> (#[trigger] out@[k]).view() == items@[k].view(),
        decreases n - i,
    {
        assert(decreases_to!(items@ => items@[i as int]));
        out.push(copy_node(&items[i]));
        i += 1;
    }
    out
}

fn copy_entries(entries: &Vec<(Node, Node)>) -> (r: Vec<(Node, Node)>)
    ensures
        r@.len() == entries@.len(),
        forall|i: int|
            0 <= i < r@.len() ==> (#[trigger] r@[i]).0.view() == entries@[i].0.view()
                && r@[i].1.view() == entries@[i].1.view(),
    decreases entries@,
{
    let n: usize = entries.len();
    let mut out: Vec<(Node, Node)> = Vec::new();
    let mut i: usize = 0;
    while i < n
        invariant
            i <= n == entries@.len(),
            out@.len() == i,
            forall|k: int|
                0 <= k < i ==> (#[trigger] out@[k]).0.view() == entries@[k].0.view()
                    && out@[k].1.view() == entries@[k].1.view(),
        decreases n - i,
    {
        assert(decreases_to!(entries@ => entries@[i as int]));
        assert(decreases_to!(entries@[i as int] => entries@[i as int].0));
        assert(decreases_to!(entries@[i as int] => entries@[i as int].1));
        let key = copy_node(&entries[i].0);
        out.push((key, copy_node(&entries[i].1)));
        i += 1;
    }
    out
}

impl Clone for Node {
    fn clone(&self) -> (r: Self)
        ensures
            r.view() == self.view(),
    {
        copy_node(self)
    }
}

/// Is the key of this entry the word `key`?
pub open spec fn keyed(entry: (Node, Node), key: Seq<char>) -> bool {
    entry.0.word() == Some(key)
}

/// The greatest index below `n` whose entry has the key `key`.
pub open spec fn last_key(entries: Seq<(Node, Node)>, key: Seq<char>, n: int) -> Option<int>
    decreases n,
{
    if n <= 0 || n > entries.len() {
        None
    } else if keyed(entries[n - 1], key) {
        Some(n - 1)
    } else {
        last_key(entries, key, n - 1)
    }
}

/// `last_key` gives the last of the entries with that key.
pub proof fn last_key_is_last(entries: Seq<(Node, Node)>, key: Seq<char>, n: int)
    requires
        n <= entries.len(),
    ensures
        match last_key(entries, key, n) {
            Some(k) => 0 <= k < n && keyed(entries[k], key) && forall|j: int|
                k < j < n ==> !#[trigger] keyed(entries[j], key),
            None => forall|j: int| 0 <= j < n ==> !#[trigger] keyed(entries[j], key),
        },
    decreases n,
{
    if n > 0 && !keyed(entries[n - 1], key) {
        last_key_is_last(entries, key, n - 1);
    }
}

/// Is the node the scalar `key`?
pub fn is_word(node: &Node, key: &str) -> (r: bool)
    ensures
        r == (node.word() == Some(key@)),
{
    match node.as_str() {
        Some(s) => str_eq(s, key),
        None => false,
    }
}

/// The index of the last entry with the key `key`.
pub fn last_key_index(entries: &[(Node, Node)], key: &str) -> (r: Option<usize>)
    ensures
        r is Some == last_key(entries@, key@, entries@.len() as int) is Some,
        r is Some ==> last_key(entries@, key@, entries@.len() as int) == Some(r->0 as int) && r->0
            < entries@.len(),
{
    let mut n: usize = entries.len();
    while n > 0
        invariant
            n <= entries@.len(),
            last_key(entries@, key@, n as int) == last_key(entries@, key@, entries@.len() as int),
        decreases n,
    {
        if is_word(&entries[n - 1].0, key) {
            return Some(n - 1);
        }
        n -= 1;
    }
    None
}

/// How many UTF-16 units the text takes.
pub open spec fn utf16_len(s: Seq<char>) -> nat
    decreases s.len(),
{
    if s.len() == 0 {
        0
    } else {
        utf16_len(s.drop_last()) + utf16_units(s.last())
    }
}

/// How many UTF-16 units a character takes.
pub open spec fn utf16_units(c: char) -> nat {
    if c as u32 >= 0x10000 {
        2
    } else {
        1
    }
}

/// The offsets at which the lines of `b[..n]` begin: 0, and one past every line feed.
pub open spec fn line_starts_of(b: Seq<u8>, n: int) -> Seq<int>
    decreases n,
{
    if n <= 0 {
        seq![0int]
    } else if b[n - 1] == 10u8 {
        line_starts_of(b, n - 1).push(n)
    } else {
        line_starts_of(b, n - 1)
    }
}

/// The index of the line that holds the byte: the number of line feeds before it.
pub open spec fn line_of(b: Seq<u8>, byte: int) -> nat
    decreases byte,
{
    if byte <= 0 {
        0
    } else if byte > b.len() {
        line_of(b, b.len() as int)
    } else {
        line_of(b, byte - 1) + if b[byte - 1] == 10u8 { 1nat } else { 0nat }
    }
}

/// How many characters of `s`, from the `i`-th on, come before UTF-16 column `col`, when `units`
/// have been passed already.
pub open spec fn utf16_seek(s: Seq<char>, col: int, i: int, units: int) -> int
    decreases s.len() - i,
{
    if i < 0 || i >= s.len() || units >= col {
        i
    } else {
        utf16_seek(s, col, i + 1, units + utf16_units(s[i]))
    }
}

/// Do the machine integers hold these offsets?
pub open spec fn same_offsets(held: Seq<usize>, offsets: Seq<int>) -> bool {
    &&& held.len() == offsets.len()
    &&& forall|i: int| 0 <= i < held.len() ==> held[i] == #[trigger] offsets[i]
}

/// A source file: its text and the byte offset at which each line begins.
pub struct Document {
    pub text: String,
    pub line_starts: Vec<usize>,
}

impl Document {
    /// The bytes of the text.
    pub open spec fn bytes(&self) -> Seq<u8> {
        encode_utf8(self.text@)
    }

    /// The line index belongs to the text.
    pub open spec fn wf(&self) -> bool {
        same_offsets(
            self.line_starts@,
            line_starts_of(self.bytes(), self.bytes().len() as int),
        )
    }

    /// Where line `i` begins; past the last line, the end of the text.
    pub open spec fn line_start(&self, i: int) -> int {
        let starts = line_starts_of(self.bytes(), self.bytes().len() as int);
        if 0 <= i < starts.len() {
            starts[i]
        } else {
            self.bytes().len() as int
        }
    }

    /// The text of line `i`, its line feed included.
    pub open spec fn line_text(&self, i: int) -> Seq<char> {
        text_between(self.text@, self.line_start(i), self.line_start(i + 1))
    }

    /// The line that holds a byte.
    pub open spec fn line_at(&self, byte: int) -> nat {
        line_of(self.bytes(), byte)
    }

    /// The column of a byte on its own line, in UTF-16 units.
    pub open spec fn column_at(&self, byte: int) -> nat {
        utf16_len(text_between(self.text@, self.line_start(self.line_at(byte) as int), byte))
    }

    /// The byte at a line and UTF-16 column; a column past the end of the line is clamped.
    pub open spec fn byte_at(&self, line: int, col: int) -> int {
        let t = self.line_text(line);
        self.line_start(line) + encode_utf8(t.subrange(0, utf16_seek(t, col, 0, 0))).len()
    }

    pub fn new(text: String) -> (r: Self)
        ensures
            r.wf(),
            r.text == text,
    {
        let mut line_starts: Vec<usize> = vec![0];
        let b = text.as_str().as_bytes();
        let n: usize = b.len();
        let mut i: usize = 0;
        while i < n
            invariant
                i <= n == b@.len(),
                same_offsets(line_starts@, line_starts_of(b@, i as int)),
            decreases n - i,
        {
            if b[i] == 10u8 {
                line_starts.push(i + 1);
            }
            i += 1;
        }
        Self { text, line_starts }
    }

    /// Where line `i` begins; past the last line, the end of the text.
    fn start_of_line(&self, i: usize) -> (r: usize)
        requires
            self.wf(),
        ensures
            r == self.line_start(i as int),
    {
        if i < self.line_starts.len() {
            self.line_starts[i]
        } else {
            self.text.as_str().as_bytes().len()
        }
    }

    /// Where the line after line `i` begins, or the end of the text.
    fn end_of_line(&self, i: usize) -> (r: usize)
        requires
            self.wf(),
        ensures
            r == self.line_start(i + 1),
    {
        if i < self.line_starts.len() && i + 1 < self.line_starts.len() {
            self.line_starts[i + 1]
        } else {
            self.text.as_str().as_bytes().len()
        }
    }

    /// 0-based line and 0-based UTF-16 column, as editors count them. A byte that lies on no
    /// character boundary has column 0.
    pub fn byte_to_lsp(&self, byte: usize) -> (r: (u32, u32))
        requires
            self.wf(),
        ensures
            r.0 == self.line_at(byte as int) as u32,
            r.1 == self.column_at(byte as int) as u32,
    {
        let line = self.line_holding(byte);
        let start = self.line_starts[line];
        let prefix = (Span { start, end: byte }).slice(self.text.as_str());
        let units = count_utf16(prefix);
        (#[verifier::truncate] (line as u32), #[verifier::truncate] (units as u32))
    }

    /// The line that holds a byte: the last one that begins at or before it.
    fn line_holding(&self, byte: usize) -> (r: usize)
        requires
            self.wf(),
        ensures
            r == self.line_at(byte as int),
            r < self.line_starts@.len(),
            self.line_starts@[r as int] == self.line_start(r as int),
    {
        let ghost b = self.bytes();
        let ghost n = b.len() as int;
        let ghost k = if byte < n { byte as int } else { n };
        proof {
            line_starts_extend(b, k, n);
            line_starts_sorted(b, k);
            line_starts_sorted(b, n);
            line_of_clamped(b, byte as int);
        }
        let len: usize = self.line_starts.len();
        let mut lo: usize = 1;
        let mut hi: usize = len;
        while lo < hi
            invariant
                self.wf(),
                b == self.bytes(),
                n == b.len(),
                k == if byte < n { byte as int } else { n },
                len == self.line_starts@.len(),
                1 <= lo <= hi <= len,
                lo <= line_starts_of(b, k).len() <= hi,
                line_starts_of(b, k).len() <= line_starts_of(b, n).len(),
                forall|i: int| 0 <= i < line_starts_of(b, k).len() ==> line_starts_of(b, k)[i] <= k,
                forall|i: int|
                    0 <= i < line_starts_of(b, k).len() ==> line_starts_of(b, n)[i]
                        == line_starts_of(b, k)[i],
                forall|i: int|
                    line_starts_of(b, k).len() <= i < line_starts_of(b, n).len() ==> k
                        < line_starts_of(b, n)[i],
                forall|i: int| 0 <= i < line_starts_of(b, n).len() ==> line_starts_of(b, n)[i] <= n,
            decreases hi - lo,
        {
            let mid: usize = lo + (hi - lo) / 2;
            assert(self.line_starts@[mid as int] == line_starts_of(b, n)[mid as int]);
            if self.line_starts[mid] <= byte {
                lo = mid + 1;
            } else {
                hi = mid;
            }
        }
        lo - 1
    }

    /// Inverse of [`Document::byte_to_lsp`]: a cursor position becomes a byte offset.
    pub fn lsp_to_byte(&self, line: u32, utf16_col: u32) -> (r: usize)
        requires
            self.wf(),
        ensures
            r == self.byte_at(line as int, utf16_col as int),
    {
        let idx: usize = line as usize;
        let start = self.start_of_line(idx);
        let end = self.end_of_line(idx);
        let line_text = (Span { start, end }).slice(self.text.as_str());
        let ghost t = line_text@;
        proof {
            self.line_bounds(idx as int);
        }
        let chars = to_chars(line_text);
        let n: usize = chars.len();
        let mut units: usize = 0;
        let mut bytes: usize = 0;
        let mut i: usize = 0;
        assert(t.subrange(0, 0) =~= Seq::empty());
        while i < n && units < utf16_col as usize
            invariant
                i <= n == t.len(),
                chars@ == t,
                units <= bytes,
                start + encode_utf8(t).len() <= usize::MAX,
                bytes == encode_utf8(t.subrange(0, i as int)).len(),
                utf16_seek(t, utf16_col as int, 0, 0) == utf16_seek(
                    t,
                    utf16_col as int,
                    i as int,
                    units as int,
                ),
            decreases n - i,
        {
            let c = chars[i];
            proof {
                encode_prefix_step(t, i as int);
                encode_prefix_le(t, i + 1);
                encode_scalar_width(c);
            }
            bytes += utf8_width(c);
            units += if c as u32 >= 0x10000 { 2 } else { 1 };
            i += 1;
        }
        proof {
            encode_prefix_le(t, i as int);
        }
        start + bytes
    }

    /// Every line lies inside the text, on character boundaries.
    proof fn line_bounds(&self, i: int)
        requires
            0 <= i,
        ensures
            0 <= self.line_start(i) <= self.line_start(i + 1) <= self.bytes().len(),
            valid_utf8(self.bytes()),
            is_char_boundary(self.bytes(), self.line_start(i)),
            is_char_boundary(self.bytes(), self.line_start(i + 1)),
            self.line_start(i) + encode_utf8(self.line_text(i)).len() == self.line_start(i + 1),
    {
        let b = self.bytes();
        encode_utf8_valid_utf8(self.text@);
        line_starts_sorted(b, b.len() as int);
        self.line_start_is_boundary(i);
        self.line_start_is_boundary(i + 1);
        self.between_bytes(self.line_start(i), self.line_start(i + 1));
    }

    /// The text between two boundaries encodes to the bytes between them.
    proof fn between_bytes(&self, start: int, end: int)
        requires
            0 <= start <= end,
            is_char_boundary(self.bytes(), start),
            is_char_boundary(self.bytes(), end),
        ensures
            end <= self.bytes().len(),
            valid_utf8(self.bytes().subrange(start, end)),
            encode_utf8(text_between(self.text@, start, end)) == self.bytes().subrange(start, end),
    {
        let b = self.bytes();
        encode_utf8_valid_utf8(self.text@);
        boundary_in_rest(b, start, end);
        let rest = b.subrange(start, b.len() as int);
        valid_utf8_split(rest, end - start);
        assert(rest.subrange(0, end - start) =~= b.subrange(start, end));
        decode_utf8_encode_utf8(b.subrange(start, end));
    }

    proof fn line_start_is_boundary(&self, i: int)
        requires
            0 <= i,
        ensures
            is_char_boundary(self.bytes(), self.line_start(i)),
    {
        let b = self.bytes();
        encode_utf8_valid_utf8(self.text@);
        is_char_boundary_start_end_of_seq(b);
        line_starts_are_boundaries(b, b.len() as int);
    }

    /// A byte offset on a character boundary survives the way to an editor position and back.
    pub proof fn lsp_round_trip(&self, byte: int)
        requires
            0 <= byte,
            is_char_boundary(self.bytes(), byte),
        ensures
            self.byte_at(self.line_at(byte) as int, self.column_at(byte) as int) == byte,
    {
        let b = self.bytes();
        let n = b.len() as int;
        encode_utf8_valid_utf8(self.text@);
        boundary_in_rest(b, 0, byte);
        let line = self.line_at(byte) as int;
        line_starts_extend(b, byte, n);
        line_starts_sorted(b, byte);
        line_starts_sorted(b, n);
        line_of_clamped(b, byte);
        self.line_bounds(line);
        let start = self.line_start(line);
        let end = self.line_start(line + 1);
        assert(start <= byte <= end);
        self.between_bytes(start, byte);
        self.between_bytes(start, end);
        let sub = b.subrange(start, end);
        let t = self.line_text(line);
        let p = text_between(self.text@, start, byte);
        boundary_in_rest(b, start, byte);
        let rest = b.subrange(start, n);
        if byte < end {
            is_char_boundary_iff_not_is_continuation_byte(b, byte);
            is_char_boundary_iff_not_is_continuation_byte(sub, byte - start);
        } else {
            is_char_boundary_start_end_of_seq(sub);
        }
        decode_utf8_split(sub, byte - start);
        assert(sub.subrange(0, byte - start) =~= b.subrange(start, byte));
        assert(p =~= t.subrange(0, p.len() as int));
        seek_reaches(t, p.len() as int, 0);
        assert(t.subrange(0, 0) =~= Seq::empty());
    }

    /// The YAML documents of the text. `None` means that it is no valid YAML, for Ansible either.
    pub fn parse(&self) -> (r: Option<Vec<Node>>)
        ensures
            r is Some == parse_libyaml::lenient(self.text@) is Some,
            r is Some ==> parse_libyaml::lenient(self.text@) == Some(
                parse_libyaml::node_models(r->0@),
            ),
    {
        parse_lenient(self.text.as_str())
    }

    /// Is the diagnostic `rule` at `byte` silenced by a `# noqa` comment on its own line or on
    /// the line above?
    ///
    /// As in ansible-lint, `# noqa: rule-a rule-b` silences only those rules and a bare
    /// `# noqa` silences everything.
    pub fn is_suppressed(&self, byte: usize, rule: &str) -> (r: bool)
        requires
            self.wf(),
        ensures
            r == {
                let line = (self.line_at(byte as int) as u32) as int;
                self.silences(line, rule@) || (line > 0 && self.silences(line - 1, rule@))
            },
    {
        let (line, _) = self.byte_to_lsp(byte);
        let idx: usize = line as usize;
        self.line_suppresses(idx, rule) || (idx > 0 && self.line_suppresses(idx - 1, rule))
    }

    /// Does line `i` hold a comment that silences `rule`?
    pub open spec fn silences(&self, i: int, rule: Seq<char>) -> bool {
        &&& 0 <= i < line_starts_of(self.bytes(), self.bytes().len() as int).len()
        &&& line_silences(self.line_text(i), rule)
    }

    fn line_suppresses(&self, idx: usize, rule: &str) -> (r: bool)
        requires
            self.wf(),
        ensures
            r == self.silences(idx as int, rule@),
    {
        if idx >= self.line_starts.len() {
            return false;
        }
        let start = self.start_of_line(idx);
        let end = self.end_of_line(idx);
        let line = to_chars((Span { start, end }).slice(self.text.as_str()));
        let mark = to_chars("# noqa");
        let n: usize = line.len();
        match chars_find(&line, &mark, 0) {
            None => false,
            Some(at) => {
                let from: usize = at + mark.len();
                let to = trimmed_len(&line, from, n);
                if from < to && line[from] == ':' {
                    let r = scoped_names(&line, from + 1, to, rule);
                    assert(line@.subrange(from as int, to as int).subrange(1, to - from)
                        =~= line@.subrange(from + 1, to as int));
                    r
                } else {
                    true
                }
            },
        }
    }
}

/// Does a line of text silence `rule`? `# noqa` alone silences every rule; with a colon behind
/// it, those that it names.
pub open spec fn line_silences(line: Seq<char>, rule: Seq<char>) -> bool {
    match text::find_from(line, "# noqa"@, 0) {
        None => false,
        Some(at) => {
            let rest = text::trim_end(line.subrange(at + "# noqa"@.len(), line.len() as int));
            if rest.len() > 0 && rest[0] == ':' {
                names_rule(rest.subrange(1, rest.len() as int), 0, 0, rule)
            } else {
                true
            }
        },
    }
}

/// Is `rule` one of the names in `ids[start..]`, which blanks, tabs and commas separate, when
/// the first of them reaches at least to `i`?
pub open spec fn names_rule(ids: Seq<char>, start: int, i: int, rule: Seq<char>) -> bool
    decreases ids.len() - i,
{
    if i < 0 || i >= ids.len() {
        is_name(ids.subrange(start, ids.len() as int), rule)
    } else if separates(ids[i]) {
        is_name(ids.subrange(start, i), rule) || names_rule(ids, i + 1, i + 1, rule)
    } else {
        names_rule(ids, start, i + 1, rule)
    }
}

pub open spec fn separates(c: char) -> bool {
    c == ' ' || c == ',' || c == '\t'
}

pub open spec fn is_name(id: Seq<char>, rule: Seq<char>) -> bool {
    text::trim(id).len() > 0 && text::trim(id) == rule
}

fn name_matches(v: &[char], from: usize, to: usize, rule: &[char]) -> (r: bool)
    requires
        from <= to <= v@.len(),
    ensures
        r == is_name(v@.subrange(from as int, to as int), rule@),
{
    let a = skip_white(v, from, to);
    let b = trimmed_len(v, a, to);
    a < b && b - a == rule.len() && chars_at(v, rule, a)
}

fn scoped_names(v: &[char], from: usize, to: usize, rule: &str) -> (r: bool)
    requires
        from <= to <= v@.len(),
    ensures
        r == names_rule(v@.subrange(from as int, to as int), 0, 0, rule@),
{
    let wanted = to_chars(rule);
    let ghost ids = v@.subrange(from as int, to as int);
    let mut start: usize = from;
    let mut i: usize = from;
    while i < to
        invariant
            from <= start <= i <= to <= v@.len(),
            ids == v@.subrange(from as int, to as int),
            wanted@ == rule@,
            names_rule(ids, 0, 0, rule@) == names_rule(ids, start - from, i - from, rule@),
        decreases to - i,
    {
        let c = v[i];
        if c == ' ' || c == ',' || c == '\t' {
            assert(ids.subrange(start - from, i - from) =~= v@.subrange(start as int, i as int));
            if name_matches(v, start, i, &wanted) {
                return true;
            }
            start = i + 1;
        }
        i += 1;
    }
    assert(ids.subrange(start - from, to - from) =~= v@.subrange(start as int, to as int));
    name_matches(v, start, to, &wanted)
}

/// How many UTF-16 units the text takes.
fn count_utf16(s: &str) -> (r: usize)
    ensures
        r == utf16_len(s@),
{
    let chars = to_chars(s);
    let limit: usize = s.as_bytes().len();
    let n: usize = chars.len();
    let mut units: usize = 0;
    let mut i: usize = 0;
    assert(s@.subrange(0, 0) =~= Seq::empty());
    while i < n
        invariant
            i <= n == s@.len(),
            chars@ == s@,
            limit == encode_utf8(s@).len(),
            units == utf16_len(s@.subrange(0, i as int)),
            units <= encode_utf8(s@.subrange(0, i as int)).len(),
        decreases n - i,
    {
        let c = chars[i];
        proof {
            encode_prefix_step(s@, i as int);
            encode_prefix_le(s@, i + 1);
            encode_scalar_width(c);
            assert(s@.subrange(0, i + 1).drop_last() =~= s@.subrange(0, i as int));
        }
        units += if c as u32 >= 0x10000 { 2 } else { 1 };
        i += 1;
    }
    assert(s@.subrange(0, n as int) =~= s@);
    units
}

/// How many bytes the UTF-8 form of a character takes.
pub fn utf8_width(c: char) -> (r: usize)
    ensures
        r == encode_scalar(c as u32).len(),
        1 <= r <= 4,
{
    proof {
        encode_scalar_width(c);
    }
    let u: u32 = c as u32;
    if u < 0x80 {
        1
    } else if u < 0x800 {
        2
    } else if u < 0x10000 {
        3
    } else {
        4
    }
}

proof fn encode_scalar_width(c: char)
    ensures
        encode_scalar(c as u32).len() == (if (c as u32) < 0x80 {
            1int
        } else if (c as u32) < 0x800 {
            2
        } else if (c as u32) < 0x10000 {
            3
        } else {
            4
        }),
{
    char_is_scalar(c);
}

/// Encoding one more character appends its bytes.
pub proof fn encode_prefix_step(t: Seq<char>, i: int)
    requires
        0 <= i < t.len(),
    ensures
        encode_utf8(t.subrange(0, i + 1)) == encode_utf8(t.subrange(0, i)) + encode_scalar(
            t[i] as u32,
        ),
{
    let one = seq![t[i]];
    assert(t.subrange(0, i + 1) =~= t.subrange(0, i) + one);
    encode_concat(t.subrange(0, i), one);
    assert(one.drop_first() =~= Seq::empty());
    assert(encode_utf8(Seq::<char>::empty()) =~= Seq::empty());
    assert(encode_utf8(one) =~= encode_scalar(t[i] as u32));
}

/// A prefix takes no more bytes than the whole.
pub proof fn encode_prefix_le(t: Seq<char>, i: int)
    requires
        0 <= i <= t.len(),
    ensures
        encode_utf8(t.subrange(0, i)).len() <= encode_utf8(t).len(),
{
    assert(t =~= t.subrange(0, i) + t.subrange(i, t.len() as int));
    encode_concat(t.subrange(0, i), t.subrange(i, t.len() as int));
}

/// The UTF-8 form of a concatenation is the concatenation of the UTF-8 forms.
pub proof fn encode_concat(a: Seq<char>, b: Seq<char>)
    ensures
        encode_utf8(a + b) == encode_utf8(a) + encode_utf8(b),
    decreases a.len(),
{
    if a.len() == 0 {
        assert(a + b =~= b);
        assert(encode_utf8(a) + encode_utf8(b) =~= encode_utf8(b));
    } else {
        assert((a + b).drop_first() =~= a.drop_first() + b);
        encode_concat(a.drop_first(), b);
        assert(encode_utf8(a + b) =~= encode_utf8(a) + encode_utf8(b));
    }
}

proof fn seek_reaches(t: Seq<char>, n: int, i: int)
    requires
        0 <= i <= n <= t.len(),
    ensures
        utf16_seek(t, utf16_len(t.subrange(0, n)) as int, i, utf16_len(t.subrange(0, i)) as int)
            == n,
    decreases n - i,
{
    if i < n {
        utf16_len_grows(t, i, n);
        assert(t.subrange(0, i + 1).drop_last() =~= t.subrange(0, i));
        seek_reaches(t, n, i + 1);
    }
}

proof fn utf16_len_grows(t: Seq<char>, i: int, n: int)
    requires
        0 <= i <= n <= t.len(),
    ensures
        utf16_len(t.subrange(0, i)) + (n - i) <= utf16_len(t.subrange(0, n)),
    decreases n - i,
{
    if i < n {
        utf16_len_grows(t, i, n - 1);
        assert(t.subrange(0, n).drop_last() =~= t.subrange(0, n - 1));
    }
}

proof fn line_of_clamped(b: Seq<u8>, byte: int)
    requires
        0 <= byte,
    ensures
        line_of(b, byte) == line_of(b, if byte < b.len() { byte } else { b.len() as int }),
        line_of(b, byte) + 1 == line_starts_of(
            b,
            if byte < b.len() { byte } else { b.len() as int },
        ).len(),
    decreases byte,
{
    let k = if byte < b.len() { byte } else { b.len() as int };
    if byte > k {
        line_of_clamped(b, k);
    } else if k > 0 {
        line_of_clamped(b, k - 1);
    }
}

/// The lines begin in order, and no later than the bytes counted.
proof fn line_starts_sorted(b: Seq<u8>, n: int)
    requires
        0 <= n <= b.len(),
    ensures
        line_starts_of(b, n).len() > 0,
        line_starts_of(b, n)[0] == 0,
        forall|i: int| 0 <= i < line_starts_of(b, n).len() ==> line_starts_of(b, n)[i] <= n,
        forall|i: int, j: int|
            0 <= i <= j < line_starts_of(b, n).len() ==> line_starts_of(b, n)[i] <= line_starts_of(
                b,
                n,
            )[j],
    decreases n,
{
    if n > 0 {
        line_starts_sorted(b, n - 1);
    }
}

/// The lines of a longer text begin where those of a shorter one do, and then past its end.
proof fn line_starts_extend(b: Seq<u8>, k: int, n: int)
    requires
        0 <= k <= n <= b.len(),
    ensures
        line_starts_of(b, k).len() <= line_starts_of(b, n).len(),
        forall|i: int|
            0 <= i < line_starts_of(b, k).len() ==> line_starts_of(b, n)[i] == line_starts_of(
                b,
                k,
            )[i],
        forall|i: int|
            line_starts_of(b, k).len() <= i < line_starts_of(b, n).len() ==> k < line_starts_of(
                b,
                n,
            )[i],
    decreases n - k,
{
    if k < n {
        line_starts_extend(b, k, n - 1);
    }
}

proof fn line_starts_are_boundaries(b: Seq<u8>, n: int)
    requires
        valid_utf8(b),
        0 <= n <= b.len(),
    ensures
        forall|i: int|
            0 <= i < line_starts_of(b, n).len() ==> is_char_boundary(
                b,
                #[trigger] line_starts_of(b, n)[i],
            ),
    decreases n,
{
    if n <= 0 {
        is_char_boundary_start_end_of_seq(b);
    } else {
        line_starts_are_boundaries(b, n - 1);
        if b[n - 1] == 10u8 {
            boundary_after_ascii(b, n - 1);
        }
        let before = line_starts_of(b, n - 1);
        assert forall|i: int| 0 <= i < line_starts_of(b, n).len() implies is_char_boundary(
            b,
            #[trigger] line_starts_of(b, n)[i],
        ) by {
            if i < before.len() {
                assert(line_starts_of(b, n)[i] == before[i]);
            }
        }
    }
}

/// What follows an ASCII byte begins a character.
pub proof fn boundary_after_ascii(b: Seq<u8>, i: int)
    requires
        valid_utf8(b),
        0 <= i < b.len(),
        b[i] < 0x80,
    ensures
        is_char_boundary(b, i),
        is_char_boundary(b, i + 1),
{
    is_char_boundary_iff_not_is_continuation_byte(b, i);
    valid_utf8_split(b, i);
    let rest = b.subrange(i, b.len() as int);
    reveal_with_fuel(is_char_boundary, 2);
    assert(is_char_boundary(rest, 1));
    if i + 1 < b.len() {
        is_char_boundary_iff_not_is_continuation_byte(rest, 1);
        is_char_boundary_iff_not_is_continuation_byte(b, i + 1);
    } else {
        is_char_boundary_start_end_of_seq(b);
    }
}

/// Does a name stand from `a` to `b`, with a separator or an end on either side of it?
pub open spec fn name_between(ids: Seq<char>, a: int, b: int, rule: Seq<char>) -> bool {
    &&& 0 <= a <= b <= ids.len()
    &&& a == 0 || separates(ids[a - 1])
    &&& b == ids.len() || separates(ids[b])
    &&& forall|k: int| a <= k < b ==> !separates(#[trigger] ids[k])
    &&& is_name(ids.subrange(a, b), rule)
}

proof fn named_from(ids: Seq<char>, start: int, i: int, rule: Seq<char>)
    requires
        0 <= start <= i <= ids.len(),
        start == 0 || separates(ids[start - 1]),
        forall|k: int| start <= k < i ==> !separates(#[trigger] ids[k]),
    ensures
        names_rule(ids, start, i, rule) == exists|a: int, b: int|
            start <= a && #[trigger] name_between(ids, a, b, rule),
    decreases ids.len() - i,
{
    if i >= ids.len() {
        if names_rule(ids, start, i, rule) {
            assert(name_between(ids, start, ids.len() as int, rule));
        }
        assert forall|a: int, b: int| start <= a && #[trigger] name_between(
            ids,
            a,
            b,
            rule,
        ) implies names_rule(ids, start, i, rule) by {
            if a > start {
                assert(!separates(ids[a - 1]));
            }
            if b < ids.len() {
                assert(!separates(ids[b]));
            }
        }
    } else if separates(ids[i]) {
        named_from(ids, i + 1, i + 1, rule);
        if is_name(ids.subrange(start, i), rule) {
            assert(name_between(ids, start, i, rule));
        } else if names_rule(ids, i + 1, i + 1, rule) {
            let (a, b) = choose|a: int, b: int|
                i + 1 <= a && #[trigger] name_between(ids, a, b, rule);
            assert(start <= a && name_between(ids, a, b, rule));
        }
        assert forall|a: int, b: int| start <= a && #[trigger] name_between(
            ids,
            a,
            b,
            rule,
        ) implies names_rule(ids, start, i, rule) by {
            if a <= i {
                if a > start {
                    assert(!separates(ids[a - 1]));
                }
                if b > i {
                    assert(!separates(ids[i]));
                }
                if b < i {
                    assert(!separates(ids[b]));
                }
                assert(a == start && b == i);
            } else {
                assert(i + 1 <= a && name_between(ids, a, b, rule));
            }
        }
    } else {
        named_from(ids, start, i + 1, rule);
    }
}

/// A `# noqa` with a colon silences a rule only by its whole name: what another tool's comment
/// names does not silence it, whatever it holds. One without a colon silences every rule.
pub proof fn a_rule_is_silenced_by_its_whole_name(line: Seq<char>, rule: Seq<char>)
    ensures
        line_silences(line, rule) == match text::find_from(line, "# noqa"@, 0) {
            None => false,
            Some(at) => {
                let rest = text::trim_end(line.subrange(at + "# noqa"@.len(), line.len() as int));
                let ids = rest.subrange(1, rest.len() as int);
                rest.len() > 0 && rest[0] == ':' ==> exists|a: int, b: int| #[trigger]
                    name_between(ids, a, b, rule)
            },
        },
{
    match text::find_from(line, "# noqa"@, 0) {
        None => {},
        Some(at) => {
            let rest = text::trim_end(line.subrange(at + "# noqa"@.len(), line.len() as int));
            if rest.len() > 0 && rest[0] == ':' {
                let ids = rest.subrange(1, rest.len() as int);
                named_from(ids, 0, 0, rule);
                if exists|a: int, b: int| #[trigger] name_between(ids, a, b, rule) {
                    let (a, b) = choose|a: int, b: int| #[trigger] name_between(ids, a, b, rule);
                    assert(0 <= a && name_between(ids, a, b, rule));
                }
            }
        },
    }
}

} // verus!
