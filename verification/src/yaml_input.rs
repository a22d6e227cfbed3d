//! What libyaml is handed to read, and how its answers are brought back to the text.
//!
//! libyaml-safer stops the program on two kinds of texts. One is a text whose last line is not
//! ended, where a block scalar or an escape reaches its end. The other is a flow collection in
//! which a comma directly follows a tag.
//!
//! So a line that is not ended is ended. A comma behind what could be a tag is another matter: only
//! libyaml knows whether it is one. It is asked by a text that breaks off there. Where it is none,
//! the `!` is one of a scalar or a comment, and a letter can take its place. The text is then read
//! with two letters: where the two readings of a scalar differ, there stands a `!`. Where it is a
//! tag, a blank sets the comma apart from it.

use crate::parse_libyaml::{DataModel, EventModel, YamlData, YamlEvent};
use crate::text::{from_chars, str_eq, to_chars};
use vstd::prelude::*;
use vstd::utf8::*;

verus! {

// ------------------------------------------------------------ what could be a tag

/// Where a reader stands: where a token could begin; just behind a `!` at such a place; behind it
/// and characters of a tag; between the angle brackets of a verbatim tag; just behind the bracket
/// that closes one; and behind a bracket that could open a flow collection.
#[derive(Clone, Copy)]
pub struct TagState {
    pub edge: bool,
    pub bang: bool,
    pub word: bool,
    pub verbatim: bool,
    pub closed: bool,
    pub flow: bool,
}

/// The characters that a tag can hold.
pub open spec fn tag_char(c: char) -> bool {
    ||| '0' <= c <= '9'
    ||| 'A' <= c <= 'Z'
    ||| 'a' <= c <= 'z'
    ||| c == '_' || c == '-' || c == ';' || c == '/' || c == '?' || c == ':' || c == '@'
    ||| c == '&' || c == '=' || c == '+' || c == '$' || c == '.' || c == '%' || c == '!'
    ||| c == '~' || c == '*' || c == '\'' || c == '(' || c == ')'
}

/// The characters that a verbatim tag can hold.
pub open spec fn uri_char(c: char) -> bool {
    tag_char(c) || c == ',' || c == '[' || c == ']'
}

/// The characters that end a line.
pub open spec fn ends_line(c: char) -> bool {
    c == '\n' || c == '\r' || c == '\u{85}' || c == '\u{2028}' || c == '\u{2029}'
}

/// The characters directly behind which a token can begin that opens with a `!`: blanks, line
/// endings, a byte order mark, and those that a token before it can end with.
pub open spec fn token_edge(c: char) -> bool {
    ||| c == ' ' || c == '\t' || ends_line(c) || c == '\u{feff}'
    ||| c == '[' || c == ']' || c == '{' || c == '}' || c == ',' || c == ':' || c == '?'
    ||| c == '"' || c == '\''
}

/// Before any text.
pub open spec fn outside() -> TagState {
    TagState { edge: true, bang: false, word: false, verbatim: false, closed: false, flow: false }
}

/// Where the reader stands one character on.
pub open spec fn stepped(st: TagState, c: char) -> TagState {
    TagState {
        edge: token_edge(c),
        bang: c == '!' && st.edge,
        word: (c == '!' && st.edge) || (st.word && tag_char(c)),
        verbatim: (st.bang && c == '<') || (st.verbatim && uri_char(c)),
        closed: st.verbatim && c == '>',
        flow: st.flow || c == '[' || c == '{',
    }
}

/// Where the reader stands behind the first `n` characters.
pub open spec fn state_at(s: Seq<char>, n: int) -> TagState
    decreases n,
{
    if n <= 0 || n > s.len() {
        outside()
    } else {
        stepped(state_at(s, n - 1), s[n - 1])
    }
}

/// Does the reader stand behind what could be a tag in a flow collection?
pub open spec fn behind_tag(st: TagState) -> bool {
    (st.word || st.closed) && st.flow
}

/// Does a comma stand directly behind what could be a tag in a flow collection?
pub open spec fn tag_meets_comma(s: Seq<char>) -> bool {
    exists|j: int| 0 <= j < s.len() && s[j] == ',' && behind_tag(#[trigger] state_at(s, j))
}

/// Is the last line ended, where there is one?
pub open spec fn is_ended(s: Seq<char>) -> bool {
    s.len() > 0 ==> ends_line(s.last())
}

/// Where the characters of a tag end that go on at `i`.
pub open spec fn word_end(s: Seq<char>, i: int) -> int
    decreases s.len() - i,
{
    if 0 <= i < s.len() && tag_char(s[i]) {
        word_end(s, i + 1)
    } else {
        i
    }
}

/// Where the characters of a verbatim tag end that go on at `i`.
pub open spec fn uri_end(s: Seq<char>, i: int) -> int
    decreases s.len() - i,
{
    if 0 <= i < s.len() && uri_char(s[i]) {
        uri_end(s, i + 1)
    } else {
        i
    }
}

/// Where the tag ends that could begin at `k`.
pub open spec fn tag_end(s: Seq<char>, k: int) -> int {
    if k + 1 < s.len() && s[k + 1] == '<' {
        let e = uri_end(s, k + 2);
        if e < s.len() && s[e] == '>' {
            e + 1
        } else {
            s.len() as int
        }
    } else {
        word_end(s, k + 1)
    }
}

/// Could a tag begin at `k` that a comma follows directly, in a flow collection?
pub open spec fn could_clash(s: Seq<char>, k: int) -> bool {
    let e = tag_end(s, k);
    &&& 0 <= k < s.len()
    &&& s[k] == '!'
    &&& state_at(s, k).edge
    &&& 0 <= e < s.len()
    &&& s[e] == ','
    &&& state_at(s, e).flow
}

/// All the places where a tag could meet a comma.
pub open spec fn all_clashes(s: Seq<char>) -> Seq<bool> {
    Seq::new(s.len(), |k: int| could_clash(s, k))
}

// ------------------------------------------------------------ laying a text out

/// How far libyaml counts a text to be long. It does not count a byte order mark that the text
/// begins with.
pub open spec fn mark_len(s: Seq<char>) -> int {
    let n = encode_utf8(s).len() as int;
    if s.len() > 0 && s[0] == '\u{feff}' && n >= 3 {
        n - 3
    } else {
        n
    }
}

/// Are only `!` hidden?
pub open spec fn hides_bangs(s: Seq<char>, mask: Seq<bool>) -> bool {
    &&& mask.len() == s.len()
    &&& forall|k: int| 0 <= k < s.len() && #[trigger] mask[k] ==> s[k] == '!'
}

/// The character that stands for the one at `i`.
pub open spec fn shown(s: Seq<char>, i: int, mask: Seq<bool>, letter: char) -> char {
    if mask[i] {
        letter
    } else {
        s[i]
    }
}

/// The first `n` characters, laid out: a letter stands for each `!` that is hidden, and a blank
/// before each comma that is still behind what could be a tag.
pub open spec fn laid(s: Seq<char>, n: int, mask: Seq<bool>, letter: char) -> Seq<char>
    decreases n,
{
    if n <= 0 || n > s.len() {
        Seq::empty()
    } else {
        let before = laid(s, n - 1, mask, letter);
        let c = shown(s, n - 1, mask, letter);
        if c == ',' && behind_tag(state_at(before, before.len() as int)) {
            before.push(' ').push(c)
        } else {
            before.push(c)
        }
    }
}

/// Where the blanks stand in the layout of the first `n` characters, as libyaml counts.
pub open spec fn gaps(s: Seq<char>, n: int, mask: Seq<bool>, letter: char) -> Seq<u64>
    decreases n,
{
    if n <= 0 || n > s.len() {
        Seq::empty()
    } else {
        let before = laid(s, n - 1, mask, letter);
        let c = shown(s, n - 1, mask, letter);
        if c == ',' && behind_tag(state_at(before, before.len() as int)) {
            gaps(s, n - 1, mask, letter).push(mark_len(before) as u64)
        } else {
            gaps(s, n - 1, mask, letter)
        }
    }
}

/// The text that breaks off at `k`, where `c` stands, directly before what no tag can hold.
pub open spec fn probe(s: Seq<char>, k: int, c: char) -> Seq<char> {
    laid(s, k, all_clashes(s), 'x').push(c).push('#').push('\n')
}

/// Where libyaml refuses such a text if `c` is a tag.
pub open spec fn probe_mark(s: Seq<char>, k: int) -> u64 {
    mark_len(laid(s, k, all_clashes(s), 'x').push('!')) as u64
}

/// How many of the first `n` blanks stand before an offset.
pub open spec fn gaps_before(of: Seq<u64>, n: int, at: u64) -> nat
    decreases n,
{
    if n <= 0 || n > of.len() {
        0
    } else if of[n - 1] < at {
        gaps_before(of, n - 1, at) + 1
    } else {
        gaps_before(of, n - 1, at)
    }
}

/// The offset in a text for an offset in its layout.
pub open spec fn offset_back(of: Seq<u64>, at: u64) -> u64 {
    let moved = gaps_before(of, of.len() as int, at);
    if at < moved {
        0
    } else {
        (at - moved) as u64
    }
}

/// A scalar as the text has it, from its readings with two letters. Where they differ, a `!` was
/// hidden.
pub open spec fn scalar_back(a: Seq<char>, b: Seq<char>) -> Seq<char> {
    if a.len() == b.len() {
        Seq::new(
            a.len(),
            |i: int|
                if a[i] == b[i] {
                    a[i]
                } else {
                    '!'
                },
        )
    } else {
        a
    }
}

/// An event as the text has it, from its two readings.
pub open spec fn event_back(of: Seq<u64>, a: EventModel, b: EventModel) -> EventModel {
    EventModel {
        data: match (a.data, b.data) {
            (DataModel::Scalar(v), DataModel::Scalar(w)) => DataModel::Scalar(scalar_back(v, w)),
            (data, _) => data,
        },
        start: offset_back(of, a.start),
        end: offset_back(of, a.end),
    }
}

// ------------------------------------------------------------ a last line that is not ended

/// Where the spaces at the end of the first `n` characters begin.
pub open spec fn blank_from(s: Seq<char>, n: int) -> int
    decreases n,
{
    if n <= 0 || n > s.len() || s[n - 1] != ' ' {
        n
    } else {
        blank_from(s, n - 1)
    }
}

/// Does the last line, which is not ended, hold nothing but spaces?
pub open spec fn ends_in_blanks(s: Seq<char>) -> bool {
    let k = blank_from(s, s.len() as int);
    0 <= k < s.len() && (k == 0 || ends_line(s[k - 1]))
}

/// The text without that line.
pub open spec fn without_last_line(s: Seq<char>) -> Seq<char> {
    s.take(blank_from(s, s.len() as int))
}

/// The less of an offset and the end of the text.
pub open spec fn limited(limit: u64, at: u64) -> u64 {
    if at <= limit {
        at
    } else {
        limit
    }
}

/// A scalar without the line ending that was put in.
pub open spec fn unended(value: Seq<char>) -> Seq<char> {
    if value.len() > 0 && value.last() == '\n' {
        value.drop_last()
    } else {
        value
    }
}

/// Does a last line of spaces alone add nothing to a block scalar? With it the scalar is `value`,
/// without it `other`. A line of no more than the indent adds at most its own ending.
pub open spec fn adds_nothing(value: Seq<char>, other: Seq<char>) -> bool {
    value == other || value == other.push('\n')
}

/// An event of a text with its last line ended, as the text itself has it. `limit` is where the text
/// ends, and `full` where it ends with the line ending that was put in. `without` is the event in
/// its place where the last line is left out, if that line holds nothing but spaces.
pub open spec fn ending_back(
    limit: u64,
    full: u64,
    ev: EventModel,
    without: Option<EventModel>,
) -> EventModel {
    let plain = EventModel {
        data: ev.data,
        start: limited(limit, ev.start),
        end: limited(limit, ev.end),
    };
    // Of the scalars only a block scalar takes a line with its ending.
    if !(ev.start < ev.end && ev.end == full) {
        plain
    } else {
        match ev.data {
            DataModel::Scalar(value) => match without {
                Some(EventModel { data: DataModel::Scalar(other), start, end }) => if adds_nothing(
                    value,
                    other,
                ) {
                    EventModel {
                        data: DataModel::Scalar(other),
                        start: limited(limit, start),
                        end: limited(limit, end),
                    }
                } else {
                    EventModel { data: DataModel::Scalar(unended(value)), ..plain }
                },
                _ => EventModel { data: DataModel::Scalar(unended(value)), ..plain },
            },
            _ => plain,
        }
    }
}

// -------------------------------------------------------------- the functions

fn is_tag_char(c: char) -> (r: bool)
    ensures
        r == tag_char(c),
{
    ('0' <= c && c <= '9') || ('A' <= c && c <= 'Z') || ('a' <= c && c <= 'z') || c == '_' || c
        == '-' || c == ';' || c == '/' || c == '?' || c == ':' || c == '@' || c == '&' || c == '='
        || c == '+' || c == '$' || c == '.' || c == '%' || c == '!' || c == '~' || c == '*' || c
        == '\'' || c == '(' || c == ')'
}

fn is_uri_char(c: char) -> (r: bool)
    ensures
        r == uri_char(c),
{
    is_tag_char(c) || c == ',' || c == '[' || c == ']'
}

fn is_line_end(c: char) -> (r: bool)
    ensures
        r == ends_line(c),
{
    c == '\n' || c == '\r' || c == '\u{85}' || c == '\u{2028}' || c == '\u{2029}'
}

fn is_edge(c: char) -> (r: bool)
    ensures
        r == token_edge(c),
{
    c == ' ' || c == '\t' || is_line_end(c) || c == '\u{feff}' || c == '[' || c == ']' || c == '{'
        || c == '}' || c == ',' || c == ':' || c == '?' || c == '"' || c == '\''
}

fn start() -> (r: TagState)
    ensures
        r == outside(),
{
    TagState { edge: true, bang: false, word: false, verbatim: false, closed: false, flow: false }
}

fn step(st: TagState, c: char) -> (r: TagState)
    ensures
        r == stepped(st, c),
{
    TagState {
        edge: is_edge(c),
        bang: c == '!' && st.edge,
        word: (c == '!' && st.edge) || (st.word && is_tag_char(c)),
        verbatim: (st.bang && c == '<') || (st.verbatim && is_uri_char(c)),
        closed: st.verbatim && c == '>',
        flow: st.flow || c == '[' || c == '{',
    }
}

fn is_behind_tag(st: TagState) -> (r: bool)
    ensures
        r == behind_tag(st),
{
    (st.word || st.closed) && st.flow
}

/// Does a comma stand directly behind what could be a tag in a flow collection?
pub fn meets_comma(text: &str) -> (r: bool)
    ensures
        r == tag_meets_comma(text@),
{
    let v = to_chars(text);
    let n: usize = v.len();
    let mut st = start();
    let mut j: usize = 0;
    while j < n
        invariant
            j <= n == v@.len(),
            v@ == text@,
            st == state_at(text@, j as int),
            forall|i: int|
                0 <= i < j && text@[i] == ',' ==> !behind_tag(#[trigger] state_at(text@, i)),
        decreases n - j,
    {
        if v[j] == ',' && is_behind_tag(st) {
            assert(behind_tag(state_at(text@, j as int)));
            return true;
        }
        st = step(st, v[j]);
        j += 1;
    }
    false
}

fn find_tag_end(v: &Vec<char>, k: usize) -> (r: usize)
    requires
        k < v@.len(),
    ensures
        r == tag_end(v@, k as int),
        r <= v@.len(),
{
    let n: usize = v.len();
    let verbatim = k + 1 < n && v[k + 1] == '<';
    let first: usize = if verbatim {
        k + 2
    } else {
        k + 1
    };
    let mut e: usize = first;
    while e < n && (is_tag_char(v[e]) || (verbatim && is_uri_char(v[e])))
        invariant
            first <= e <= n == v@.len(),
            verbatim ==> uri_end(v@, first as int) == uri_end(v@, e as int),
            !verbatim ==> word_end(v@, first as int) == word_end(v@, e as int),
        decreases n - e,
    {
        e += 1;
    }
    if !verbatim {
        e
    } else if e < n && v[e] == '>' {
        e + 1
    } else {
        n
    }
}

/// All the places where a tag could meet a comma.
pub fn find_clashes(text: &str) -> (r: Vec<bool>)
    ensures
        r@ == all_clashes(text@),
        hides_bangs(text@, r@),
{
    let v = to_chars(text);
    let n: usize = v.len();
    let mut states: Vec<TagState> = Vec::new();
    states.push(start());
    let mut j: usize = 0;
    while j < n
        invariant
            j <= n == v@.len(),
            v@ == text@,
            states@.len() == j + 1,
            forall|i: int| 0 <= i <= j ==> #[trigger] states@[i] == state_at(text@, i),
        decreases n - j,
    {
        let next = step(states[j], v[j]);
        states.push(next);
        j += 1;
    }
    let mut out: Vec<bool> = Vec::new();
    let mut k: usize = 0;
    while k < n
        invariant
            k <= n == v@.len(),
            v@ == text@,
            states@.len() == n + 1,
            forall|i: int| 0 <= i <= n ==> #[trigger] states@[i] == state_at(text@, i),
            out@.len() == k,
            forall|i: int| 0 <= i < k ==> #[trigger] out@[i] == could_clash(text@, i),
        decreases n - k,
    {
        let mut found = false;
        assert(states@[k as int] == state_at(text@, k as int));
        if v[k] == '!' && states[k].edge {
            let e = find_tag_end(&v, k);
            if e < n {
                assert(states@[e as int] == state_at(text@, e as int));
                found = v[e] == ',' && states[e].flow;
            }
        }
        out.push(found);
        k += 1;
    }
    assert(out@ =~= all_clashes(text@));
    out
}

proof fn same_state(s: Seq<char>, c: char, n: int)
    requires
        0 <= n <= s.len(),
    ensures
        state_at(s.push(c), n) == state_at(s, n),
        n == s.len() ==> state_at(s.push(c), n + 1) == stepped(state_at(s, n), c),
    decreases n,
{
    if n > 0 {
        same_state(s, c, n - 1);
    }
}

proof fn no_new_meeting(s: Seq<char>, c: char)
    requires
        !tag_meets_comma(s),
        c != ',' || !behind_tag(state_at(s, s.len() as int)),
    ensures
        !tag_meets_comma(s.push(c)),
{
    let t = s.push(c);
    assert forall|j: int| 0 <= j < t.len() && t[j] == ',' implies !behind_tag(
        #[trigger] state_at(t, j),
    ) by {
        same_state(s, c, j);
        if j < s.len() {
            assert(t[j] == s[j]);
            assert(!behind_tag(state_at(s, j)));
        }
    }
}

/// In the layout of a text no comma stands behind what could be a tag in a flow collection, and
/// where the text is ended, so is its layout.
pub proof fn the_layout_is_safe(s: Seq<char>, n: int, mask: Seq<bool>, letter: char)
    requires
        0 <= n <= s.len(),
        hides_bangs(s, mask),
        letter != ',',
    ensures
        !tag_meets_comma(laid(s, n, mask, letter)),
        n > 0 && ends_line(s[n - 1]) ==> is_ended(laid(s, n, mask, letter)),
    decreases n,
{
    if n > 0 {
        the_layout_is_safe(s, n - 1, mask, letter);
        let before = laid(s, n - 1, mask, letter);
        let c = shown(s, n - 1, mask, letter);
        if c == ',' && behind_tag(state_at(before, before.len() as int)) {
            no_new_meeting(before, ' ');
            same_state(before, ' ', before.len() as int);
            no_new_meeting(before.push(' '), c);
        } else {
            no_new_meeting(before, c);
        }
    }
}

/// Nor does one in a text that breaks off.
pub proof fn the_probe_is_safe(s: Seq<char>, k: int, c: char)
    requires
        0 <= k <= s.len(),
        c != ',',
    ensures
        !tag_meets_comma(probe(s, k, c)),
        is_ended(probe(s, k, c)),
{
    let before = laid(s, k, all_clashes(s), 'x');
    the_layout_is_safe(s, k, all_clashes(s), 'x');
    no_new_meeting(before, c);
    no_new_meeting(before.push(c), '#');
    no_new_meeting(before.push(c).push('#'), '\n');
}

/// How far libyaml counts a text to be long.
pub fn find_mark_len(text: &str) -> (r: u64)
    ensures
        r == mark_len(text@),
{
    let n: usize = text.as_bytes().len();
    let v = to_chars(text);
    if v.len() > 0 && v[0] == '\u{feff}' && n >= 3 {
        (n - 3) as u64
    } else {
        n as u64
    }
}

/// A text, laid out, and where blanks were put in.
pub struct Laid {
    pub text: String,
    pub gaps: Vec<u64>,
}

/// Lays the first `n` characters of a text out.
pub fn lay_out(text: &str, n: usize, mask: &Vec<bool>, letter: char) -> (r: Laid)
    requires
        n <= text@.len(),
        mask@.len() == text@.len(),
    ensures
        r.text@ == laid(text@, n as int, mask@, letter),
        r.gaps@ == gaps(text@, n as int, mask@, letter),
{
    let v = to_chars(text);
    let mut out = String::new();
    let mut found: Vec<u64> = Vec::new();
    let mut st = start();
    let mut j: usize = 0;
    assert(out@ =~= Seq::empty());
    while j < n
        invariant
            j <= n <= v@.len(),
            v@ == text@,
            mask@.len() == text@.len(),
            st == state_at(out@, out@.len() as int),
            out@ == laid(text@, j as int, mask@, letter),
            found@ == gaps(text@, j as int, mask@, letter),
        decreases n - j,
    {
        let c = if mask[j] {
            letter
        } else {
            v[j]
        };
        if c == ',' && is_behind_tag(st) {
            found.push(find_mark_len(out.as_str()));
            proof {
                same_state(out@, ' ', out@.len() as int);
            }
            out.push(' ');
            st = step(st, ' ');
        }
        proof {
            same_state(out@, c, out@.len() as int);
        }
        out.push(c);
        st = step(st, c);
        j += 1;
    }
    Laid { text: out, gaps: found }
}

/// The text that breaks off at `k`, where `c` stands.
pub fn break_off(text: &str, k: usize, all: &Vec<bool>, c: char) -> (r: String)
    requires
        k <= text@.len(),
        all@ == all_clashes(text@),
    ensures
        r@ == probe(text@, k as int, c),
{
    let mut out = lay_out(text, k, all, 'x').text;
    out.push(c);
    out.push('#');
    out.push('\n');
    out
}

/// Where libyaml refuses such a text if what stands at `k` is a tag.
pub fn find_probe_mark(text: &str, k: usize, all: &Vec<bool>) -> (r: u64)
    requires
        k <= text@.len(),
        all@ == all_clashes(text@),
    ensures
        r == probe_mark(text@, k as int),
{
    let mut out = lay_out(text, k, all, 'x').text;
    out.push('!');
    find_mark_len(out.as_str())
}

/// The offset in a text for an offset in its layout.
pub fn bring_offset(of: &Vec<u64>, at: u64) -> (r: u64)
    ensures
        r == offset_back(of@, at),
{
    let n: usize = of.len();
    let mut moved: u64 = 0;
    let mut i: usize = 0;
    while i < n
        invariant
            i <= n == of@.len(),
            moved == gaps_before(of@, i as int, at),
            moved <= i,
        decreases n - i,
    {
        if of[i] < at {
            moved += 1;
        }
        i += 1;
    }
    if at < moved {
        0
    } else {
        at - moved
    }
}

/// A scalar as the text has it, from its readings with two letters.
pub fn bring_scalar(a: &str, b: &str) -> (r: String)
    ensures
        r@ == scalar_back(a@, b@),
{
    let v = to_chars(a);
    let w = to_chars(b);
    let n: usize = v.len();
    if n != w.len() {
        return a.to_owned();
    }
    let mut out = String::new();
    let mut i: usize = 0;
    while i < n
        invariant
            i <= n == v@.len(),
            n == w@.len(),
            v@ == a@ && w@ == b@,
            out@.len() == i,
            forall|k: int| 0 <= k < i ==> #[trigger] out@[k] == scalar_back(a@, b@)[k],
        decreases n - i,
    {
        out.push(
            if v[i] == w[i] {
                v[i]
            } else {
                '!'
            },
        );
        i += 1;
    }
    assert(out@ =~= scalar_back(a@, b@));
    out
}

fn copy_data(d: &YamlData) -> (r: YamlData)
    ensures
        r.view() == d.view(),
{
    match d {
        YamlData::Scalar(value) => YamlData::Scalar(value.clone()),
        YamlData::DocumentStart => YamlData::DocumentStart,
        YamlData::SequenceStart => YamlData::SequenceStart,
        YamlData::SequenceEnd => YamlData::SequenceEnd,
        YamlData::MappingStart => YamlData::MappingStart,
        YamlData::MappingEnd => YamlData::MappingEnd,
        YamlData::Other => YamlData::Other,
    }
}

/// An event as the text has it, from its two readings.
pub fn bring_event(of: &Vec<u64>, a: &YamlEvent, b: &YamlEvent) -> (r: YamlEvent)
    ensures
        r.view() == event_back(of@, a.view(), b.view()),
{
    let data = match (&a.data, &b.data) {
        (YamlData::Scalar(v), YamlData::Scalar(w)) => YamlData::Scalar(
            bring_scalar(v.as_str(), w.as_str()),
        ),
        (d, _) => copy_data(d),
    };
    YamlEvent { data, start: bring_offset(of, a.start), end: bring_offset(of, a.end) }
}

/// Is the last line ended, where there is one?
pub fn has_ending(text: &str) -> (r: bool)
    ensures
        r == is_ended(text@),
{
    let v = to_chars(text);
    let n: usize = v.len();
    n == 0 || is_line_end(v[n - 1])
}

/// The text without its last line, where that is not ended and holds nothing but spaces.
pub fn drop_blanks(text: &str) -> (r: Option<String>)
    ensures
        r is Some == ends_in_blanks(text@),
        r is Some ==> r->0@ == without_last_line(text@) && is_ended(r->0@),
{
    let v = to_chars(text);
    let n: usize = v.len();
    let mut k: usize = n;
    while k > 0 && v[k - 1] == ' '
        invariant
            k <= n == v@.len(),
            blank_from(v@, n as int) == blank_from(v@, k as int),
        decreases k,
    {
        k -= 1;
    }
    if k < n && (k == 0 || is_line_end(v[k - 1])) {
        let r = from_chars(v.as_slice(), 0, k);
        assert(r@ =~= v@.take(k as int));
        Some(r)
    } else {
        None
    }
}

/// The less of an offset and the end of the text.
pub fn limit_offset(limit: u64, at: u64) -> (r: u64)
    ensures
        r == limited(limit, at),
{
    if at <= limit {
        at
    } else {
        limit
    }
}

fn drop_ending(value: &str) -> (r: String)
    ensures
        r@ == unended(value@),
{
    let v = to_chars(value);
    let n: usize = v.len();
    if n > 0 && v[n - 1] == '\n' {
        let r = from_chars(v.as_slice(), 0, n - 1);
        assert(r@ =~= value@.drop_last());
        r
    } else {
        value.to_owned()
    }
}

fn is_nothing_added(value: &str, other: &str) -> (r: bool)
    ensures
        r == adds_nothing(value@, other@),
{
    let mut more = other.to_owned();
    more.push('\n');
    str_eq(value, other) || str_eq(value, more.as_str())
}

/// What optional events say.
pub open spec fn maybe_event(e: Option<&YamlEvent>) -> Option<EventModel> {
    match e {
        Some(e) => Some(e.view()),
        None => None,
    }
}

/// An event of a text with its last line ended, as the text itself has it.
pub fn bring_ending(limit: u64, full: u64, e: &YamlEvent, without: Option<&YamlEvent>) -> (r:
    YamlEvent)
    ensures
        r.view() == ending_back(limit, full, e.view(), maybe_event(without)),
{
    let start = limit_offset(limit, e.start);
    let end = limit_offset(limit, e.end);
    if e.start < e.end && e.end == full {
        if let YamlData::Scalar(value) = &e.data {
            if let Some(other) = without {
                if let YamlData::Scalar(w) = &other.data {
                    if is_nothing_added(value.as_str(), w.as_str()) {
                        return YamlEvent {
                            data: YamlData::Scalar(w.clone()),
                            start: limit_offset(limit, other.start),
                            end: limit_offset(limit, other.end),
                        };
                    }
                }
            }
            return YamlEvent { data: YamlData::Scalar(drop_ending(value.as_str())), start, end };
        }
    }
    YamlEvent { data: copy_data(&e.data), start, end }
}

} // verus!
