//! What the mappings of a playbook or a task file are: plays, imports, blocks and tasks, and what
//! the keys of a task say.

use crate::keywords::{self, core_action};
use crate::parse::{self, Node, Span};
use crate::placement::{self, action_candidate};
use crate::splitter;
use crate::text::{self, starts_with, str_eq};
use vstd::prelude::*;

verus! {

/// The module of a task: its key and its arguments.
pub struct Action<'a> {
    pub name: &'a str,
    pub key_span: Span,
    pub args: &'a Node,
}

/// What an [`Action`] says.
pub struct ActionModel {
    pub name: Seq<char>,
    pub key_span: Span,
    pub args: Node,
}

impl<'a> Action<'a> {
    pub open spec fn view(&self) -> ActionModel {
        ActionModel { name: self.name@, key_span: self.key_span, args: *self.args }
    }
}

/// The module of a task: the first key that is no directive.
pub open spec fn action_of(node: Node) -> Option<ActionModel> {
    match placement::next_candidate(node.pairs(), 0) {
        Some(i) => Some(
            ActionModel {
                name: node.pairs()[i].0.word()->0,
                key_span: node.pairs()[i].0.at(),
                args: node.pairs()[i].1,
            },
        ),
        None => None,
    }
}

pub fn find_action<'a>(node: &'a Node) -> (r: Option<Action<'a>>)
    ensures
        r is Some == action_of(*node) is Some,
        r is Some ==> (r->0).view() == action_of(*node)->0,
{
    let entries = node.entries();
    match action_candidate(entries, 0) {
        Some(i) => match entries[i].0.as_str() {
            Some(name) => Some(
                Action { name, key_span: entries[i].0.span(), args: &entries[i].1 },
            ),
            None => None,
        },
        None => None,
    }
}

/// The words among the first `n` nodes.
pub open spec fn words(items: Seq<Node>, n: int) -> Seq<Seq<char>>
    decreases n,
{
    if n <= 0 || n > items.len() {
        Seq::empty()
    } else {
        match items[n - 1].word() {
            Some(s) => words(items, n - 1).push(s),
            None => words(items, n - 1),
        }
    }
}

/// The clauses of a `when:`: one expression, or a list of them.
pub open spec fn clauses(when: Node) -> Seq<Seq<char>> {
    match when {
        Node::Sequence { items, .. } => words(items@, items@.len() as int),
        _ => match when.word() {
            Some(s) => seq![s],
            None => Seq::empty(),
        },
    }
}

/// Adds a text behind others.
pub fn push_text(v: &mut Vec<String>, s: &str)
    ensures
        splitter::texts(final(v)@) == splitter::texts(old(v)@).push(s@),
{
    let ghost before = v@;
    v.push(s.to_owned());
    assert(splitter::texts(v@) =~= splitter::texts(before).push(s@));
}

/// The words of a list.
pub fn words_of(items: &[Node]) -> (r: Vec<String>)
    ensures
        splitter::texts(r@) == words(items@, items@.len() as int),
{
    let mut out: Vec<String> = Vec::new();
    let n: usize = items.len();
    let mut i: usize = 0;
    assert(splitter::texts(out@) =~= Seq::empty());
    while i < n
        invariant
            i <= n == items@.len(),
            splitter::texts(out@) == words(items@, i as int),
        decreases n - i,
    {
        if let Some(s) = items[i].as_str() {
            push_text(&mut out, s);
        }
        i += 1;
    }
    out
}

/// The clauses of a `when:`.
pub fn clauses_of(when: &Node) -> (r: Vec<String>)
    ensures
        splitter::texts(r@) == clauses(*when),
{
    match when {
        Node::Sequence { items, .. } => words_of(items.as_slice()),
        _ => {
            let mut out: Vec<String> = Vec::new();
            assert(splitter::texts(out@) =~= Seq::empty());
            if let Some(s) = when.as_str() {
                push_text(&mut out, s);
                assert(splitter::texts(out@) =~= seq![s@]);
            }
            out
        },
    }
}

/// The first entry from `i` on with the key `key`.
pub open spec fn first_key(entries: Seq<(Node, Node)>, key: Seq<char>, i: int) -> Option<int>
    decreases entries.len() - i,
{
    if i < 0 || i >= entries.len() {
        None
    } else if parse::keyed(entries[i], key) {
        Some(i)
    } else {
        first_key(entries, key, i + 1)
    }
}

/// Where a key is written.
pub open spec fn key_at(node: Node, key: Seq<char>) -> Option<Span> {
    match first_key(node.pairs(), key, 0) {
        Some(i) => Some(node.pairs()[i].0.at()),
        None => None,
    }
}

pub fn key_span(node: &Node, key: &str) -> (r: Option<Span>)
    ensures
        r == key_at(*node, key@),
{
    let entries = node.entries();
    let n: usize = entries.len();
    let mut i: usize = 0;
    while i < n
        invariant
            entries@ == node.pairs(),
            i <= n == entries@.len(),
            first_key(entries@, key@, 0) == first_key(entries@, key@, i as int),
        decreases n - i,
    {
        if parse::is_word(&entries[i].0, key) {
            return Some(entries[i].0.span());
        }
        i += 1;
    }
    None
}

/// Does a key make its task a loop?
pub open spec fn loop_key(entry: (Node, Node)) -> bool {
    entry.0.word() is Some && (entry.0.word()->0 == "loop"@ || text::begins_with(
        entry.0.word()->0,
        "with_"@,
    ))
}

/// Does the task have a `loop:` or a `with_*`?
pub open spec fn looped(node: Node) -> bool {
    exists|i: int| 0 <= i < node.pairs().len() && loop_key(#[trigger] node.pairs()[i])
}

pub fn is_looped(node: &Node) -> (r: bool)
    ensures
        r == looped(*node),
{
    let entries = node.entries();
    let n: usize = entries.len();
    let mut i: usize = 0;
    while i < n
        invariant
            entries@ == node.pairs(),
            i <= n == entries@.len(),
            forall|j: int| 0 <= j < i ==> !loop_key(#[trigger] node.pairs()[j]),
        decreases n - i,
    {
        if let Some(key) = entries[i].0.as_str() {
            if str_eq(key, "loop") || starts_with(key, "with_") {
                assert(loop_key(node.pairs()[i as int]));
                return true;
            }
        }
        i += 1;
    }
    false
}

/// The word under a key.
pub open spec fn word_under(node: Node, key: Seq<char>) -> Option<Seq<char>> {
    match node.value_of(key) {
        Some(v) => v.word(),
        None => None,
    }
}

pub fn word_of<'a>(node: &'a Node, key: &str) -> (r: Option<&'a str>)
    ensures
        r is Some == word_under(*node, key@) is Some,
        r is Some ==> (r->0)@ == word_under(*node, key@)->0,
{
    match node.get(key) {
        Some(v) => v.as_str(),
        None => None,
    }
}

/// The first entry from `i` on that imports a playbook.
pub open spec fn import_from(entries: Seq<(Node, Node)>, i: int) -> Option<int>
    decreases entries.len() - i,
{
    if i < 0 || i >= entries.len() {
        None
    } else if entries[i].0.word() is Some && keywords::action_named(entries[i].0.word()->0)
        == "import_playbook"@ {
        Some(i)
    } else {
        import_from(entries, i + 1)
    }
}

/// What an entry of a playbook imports, where it is no play.
pub open spec fn imported(node: Node) -> Option<Node> {
    match import_from(node.pairs(), 0) {
        Some(i) => Some(node.pairs()[i].1),
        None => None,
    }
}

pub fn find_import(node: &Node) -> (r: Option<&Node>)
    ensures
        r is Some == imported(*node) is Some,
        r is Some ==> *r->0 == imported(*node)->0,
{
    let entries = node.entries();
    let n: usize = entries.len();
    let mut i: usize = 0;
    while i < n
        invariant
            entries@ == node.pairs(),
            i <= n == entries@.len(),
            import_from(entries@, 0) == import_from(entries@, i as int),
        decreases n - i,
    {
        if let Some(key) = entries[i].0.as_str() {
            if str_eq(core_action(key), "import_playbook") {
                return Some(&entries[i].1);
            }
        }
        i += 1;
    }
    None
}

/// The entry of a `roles:` list that names a role: a word, or what `role:` or `name:` holds.
pub open spec fn role_node(item: Node) -> Option<Node> {
    let target = match item {
        Node::Scalar { .. } => Some(item),
        Node::Mapping { .. } => match item.value_of("role"@) {
            Some(v) => Some(v),
            None => item.value_of("name"@),
        },
        _ => None,
    };
    match target {
        Some(v) => if v is Scalar {
            Some(v)
        } else {
            None
        },
        None => None,
    }
}

pub fn role_of(item: &Node) -> (r: Option<&Node>)
    ensures
        r is Some == role_node(*item) is Some,
        r is Some ==> *r->0 == role_node(*item)->0,
{
    let target = match item {
        Node::Scalar { .. } => Some(item),
        Node::Mapping { .. } => match item.get("role") {
            Some(v) => Some(v),
            None => item.get("name"),
        },
        _ => None,
    };
    match target {
        Some(v) => match v {
            Node::Scalar { .. } => Some(v),
            _ => None,
        },
        None => None,
    }
}

} // verus!
