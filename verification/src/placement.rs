//! Placement and mutual-exclusion diagnostics: structural faults that a per-keyword legal set
//! cannot express. Every key here is spelled correctly and legal where it sits; what is wrong is
//! the shape around it.
//!
//! Each rule is a shape test on a node and its parent: no resolution, no index, no variables.
//! The rules fall into three shapes: *position* rules, which turn on where a statement sits;
//! *co-occurrence* rules, which turn on two keys of one node; and per-key value rules.

use crate::keywords::{self, core_action, in_set, is_play_key, is_task_directive, VARS_PROMPT_KEYS};
use crate::parse::{self, is_word, last_key_index, Node, Span};
use crate::text::{self, contains, starts_with, str_eq, strip_prefix};
use vstd::prelude::*;

verus! {

/// Rule id, for `# noqa: invalid-placement` and for display. Everything under it is a shape that
/// ansible-core itself refuses.
pub const RULE_ID: &'static str = "invalid-placement";

/// A loop keyword whose value is discarded while its lookup still applies. ansible-core stays
/// silent on it.
pub const SHADOWED_LOOP_RULE_ID: &'static str = "shadowed-loop";

/// A `loop_control:` with no loop to control. Ansible runs the task without a murmur.
pub const DEAD_LOOP_CONTROL_RULE_ID: &'static str = "dead-loop-control";

/// `local_action` overwrites an explicit `delegate_to`, and the task quietly runs somewhere else
/// than the author wrote.
pub const DISCARDED_DELEGATE_TO_RULE_ID: &'static str = "discarded-delegate-to";

/// `import_playbook:` written inside a task list. Ansible fails at run time, with a message about
/// parameters.
pub const MISPLACED_IMPORT_PLAYBOOK_RULE_ID: &'static str = "misplaced-import-playbook";

/// A task-list entry that is not a mapping.
pub const MALFORMED_TASK_ENTRY_RULE_ID: &'static str = "malformed-task-entry";

pub const HOSTS_EMPTY: &'static str = "Hosts list cannot be empty. Please check your playbook";

pub const HOSTS_NONE: &'static str =
    "Hosts list cannot contain values of 'None'. Please check your playbook";

pub const HOSTS_SHAPE: &'static str =
    "Hosts list must be a sequence or string. Please check your playbook.";

pub const NOT_A_PLAY: &'static str =
    "playbook entries must be either valid plays or 'import_playbook' statements";

pub const LOOP_CONTROL_SHAPE: &'static str =
    "the `loop_control` value must be specified as a dictionary and cannot be a variable itself (though it can contain variables)";

pub const BLOCK_AS_HANDLER: &'static str = "Using a block as a handler is not supported.";

pub const NO_MODULE: &'static str = "no module/action detected in task.";

pub const USER_AND_REMOTE_USER: &'static str =
    "both 'user' and 'remote_user' are set for this play. The use of 'user' is deprecated, and should be removed";

pub const ACTION_AND_LOCAL_ACTION: &'static str = "action and local_action are mutually exclusive";

pub const DISCARDED_DELEGATE_TO: &'static str =
    "`local_action` already delegates to localhost, so this `delegate_to` is discarded — the task runs locally, not on the host named here. Use `delegate_to` with a plain module instead, or drop this key.";

pub const END_ROLE_HANDLER: &'static str = "Cannot execute 'end_role' from a handler";

pub const END_ROLE_OUTSIDE: &'static str = "Cannot execute 'end_role' from outside of a role";

pub const FLUSH_AS_HANDLER: &'static str = "flush_handlers cannot be used as a handler";

pub const NOT_A_MAPPING: &'static str =
    "every entry in a task list must be a mapping — a task, or a `block:`. Ansible refuses to load this file.";

pub const NOT_VARS_PROMPT_DATA: &'static str = "Invalid variable file contents.";

pub const PROMPT_WITHOUT_NAME: &'static str = "Invalid vars_prompt data structure, missing 'name' key";

pub const IMPORT_PLAYBOOK_IN_TASKS: &'static str =
    "`import_playbook` is only valid as a top-level playbook entry. Here it is parsed as a module and fails at run time. Use `import_tasks:` to pull in a task file, or move this out of the task list.";

#[derive(Debug, Clone, Copy, PartialEq, Eq, Structural)]
pub enum Tier {
    Error,
    Warning,
}

#[derive(Debug, Clone)]
pub struct Problem {
    /// The node the fault is anchored on: the offending key, entry or value.
    pub span: Span,
    pub tier: Tier,
    pub message: String,
    /// Which rule fired.
    pub rule: &'static str,
}

/// What a [`Problem`] says.
pub struct ProblemModel {
    pub span: Span,
    pub tier: Tier,
    pub message: Seq<char>,
    pub rule: Seq<char>,
}

impl Problem {
    pub open spec fn view(&self) -> ProblemModel {
        ProblemModel {
            span: self.span,
            tier: self.tier,
            message: self.message@,
            rule: self.rule@,
        }
    }
}

/// What a list of problems says.
pub open spec fn models(v: Seq<Problem>) -> Seq<ProblemModel> {
    Seq::new(v.len(), |i: int| v[i].view())
}

/// A shape that ansible-core refuses.
pub open spec fn fault(span: Span, message: Seq<char>) -> ProblemModel {
    ProblemModel { span, tier: Tier::Error, message, rule: RULE_ID@ }
}

/// A problem of its own rule.
pub open spec fn finding(
    span: Span,
    tier: Tier,
    message: Seq<char>,
    rule: Seq<char>,
) -> ProblemModel {
    ProblemModel { span, tier, message, rule }
}

/// The list of an optional problem.
pub open spec fn one_or_none(p: Option<ProblemModel>) -> Seq<ProblemModel> {
    match p {
        Some(p) => seq![p],
        None => Seq::empty(),
    }
}

fn emit(out: &mut Vec<Problem>, span: Span, tier: Tier, message: String, rule: &'static str)
    ensures
        models(final(out)@) == models(old(out)@).push(finding(span, tier, message@, rule@)),
{
    out.push(Problem { span, tier, message, rule });
    assert(models(out@) =~= models(old(out)@).push(finding(span, tier, message@, rule@)));
}

fn error(out: &mut Vec<Problem>, span: Span, message: String)
    ensures
        models(final(out)@) == models(old(out)@).push(fault(span, message@)),
{
    emit(out, span, Tier::Error, message, RULE_ID);
}

/// Where a statement sits. Every position rule turns on this and nothing else.
#[derive(Debug, Clone, Copy, PartialEq, Eq, Structural)]
pub enum Pos {
    /// A play's own `pre_tasks:`, `tasks:` or `post_tasks:`. Provably outside any role.
    PlayTasks,
    /// A standalone task file. It could be a role's tasks, its handlers, or an include target,
    /// so the rules that turn on that stay quiet here.
    Standalone,
    /// A top-level entry of `handlers:`. A block here loads.
    HandlerEntry,
    /// Inside a handler's `block:`, `rescue:` or `always:`.
    HandlerBody,
}

impl Pos {
    /// What the children of a node at this position are. Only the handler boundary moves.
    pub open spec fn below(self) -> Pos {
        match self {
            Pos::PlayTasks => Pos::PlayTasks,
            Pos::Standalone => Pos::Standalone,
            Pos::HandlerEntry | Pos::HandlerBody => Pos::HandlerBody,
        }
    }

    /// Is this a handler, or inside one?
    pub open spec fn in_handlers(self) -> bool {
        self == Pos::HandlerEntry || self == Pos::HandlerBody
    }

    fn inside(self) -> (r: Pos)
        ensures
            r == self.below(),
    {
        match self {
            Pos::PlayTasks => Pos::PlayTasks,
            Pos::Standalone => Pos::Standalone,
            Pos::HandlerEntry => Pos::HandlerBody,
            Pos::HandlerBody => Pos::HandlerBody,
        }
    }
}

/// Does the key of this entry name the action?
pub open spec fn names_action(entry: (Node, Node), action: Seq<char>) -> bool {
    entry.0.word() is Some && keywords::action_named(entry.0.word()->0) == action
}

/// The last of the first `n` entries that names the action.
pub open spec fn last_action(entries: Seq<(Node, Node)>, action: Seq<char>, n: int) -> Option<int>
    decreases n,
{
    if n <= 0 || n > entries.len() {
        None
    } else if names_action(entries[n - 1], action) {
        Some(n - 1)
    } else {
        last_action(entries, action, n - 1)
    }
}

/// The last entry of a node that names the action.
pub open spec fn action_of(node: Node, action: Seq<char>) -> Option<(Node, Node)> {
    match last_action(node.pairs(), action, node.pairs().len() as int) {
        Some(i) => Some(node.pairs()[i]),
        None => None,
    }
}

/// The `meta:` entry of a node, where its value is `word`.
pub open spec fn meta_of(node: Node, word: Seq<char>) -> Option<(Node, Node)> {
    match action_of(node, "meta"@) {
        Some(e) => if e.1.word() == Some(word) {
            Some(e)
        } else {
            None
        },
        None => None,
    }
}

/// What ansible-core refuses purely because of where a statement sits: the first of these rows
/// that applies.
pub open spec fn refusal(node: Node, pos: Pos, is_block: bool) -> Option<ProblemModel> {
    let handlers = pos.in_handlers();
    if pos == Pos::HandlerBody && is_block {
        Some(fault(node.at(), BLOCK_AS_HANDLER@))
    } else if handlers && action_of(node, "include_role"@) is Some {
        let e = action_of(node, "include_role"@)->0;
        Some(fault(e.0.at(), as_a_handler(e.0.word()->0)))
    } else if handlers && action_of(node, "import_role"@) is Some {
        let e = action_of(node, "import_role"@)->0;
        Some(fault(e.0.at(), as_a_handler(e.0.word()->0)))
    } else if handlers && meta_of(node, "end_role"@) is Some {
        Some(fault((meta_of(node, "end_role"@)->0).0.at(), END_ROLE_HANDLER@))
    } else if handlers && meta_of(node, "flush_handlers"@) is Some {
        Some(fault((meta_of(node, "flush_handlers"@)->0).0.at(), FLUSH_AS_HANDLER@))
    } else if pos == Pos::PlayTasks && meta_of(node, "end_role"@) is Some {
        Some(fault((meta_of(node, "end_role"@)->0).0.at(), END_ROLE_OUTSIDE@))
    } else if action_of(node, "import_playbook"@) is Some {
        Some(
            finding(
                (action_of(node, "import_playbook"@)->0).0.at(),
                Tier::Error,
                IMPORT_PLAYBOOK_IN_TASKS@,
                MISPLACED_IMPORT_PLAYBOOK_RULE_ID@,
            ),
        )
    } else {
        None
    }
}

/// The message on a role include in a handler, with the action as written.
pub open spec fn as_a_handler(written: Seq<char>) -> Seq<char> {
    "Using '"@ + written + "' as a handler is not supported."@
}

/// The last entry naming this action.
fn action_entry<'a>(node: &'a Node, action: &str) -> (r: Option<&'a (Node, Node)>)
    ensures
        r is Some == action_of(*node, action@) is Some,
        r is Some ==> *r->0 == action_of(*node, action@)->0 && (r->0).0.word() is Some,
{
    let entries = node.entries();
    let mut n: usize = entries.len();
    while n > 0
        invariant
            entries@ == node.pairs(),
            n <= entries@.len(),
            last_action(entries@, action@, n as int) == last_action(
                entries@,
                action@,
                entries@.len() as int,
            ),
        decreases n,
    {
        let entry = &entries[n - 1];
        if let Some(key) = entry.0.as_str() {
            if str_eq(core_action(key), action) {
                return Some(entry);
            }
        }
        n -= 1;
    }
    None
}

/// The `meta:` entry, where its value is `word`.
fn meta_entry<'a>(node: &'a Node, word: &str) -> (r: Option<&'a (Node, Node)>)
    ensures
        r is Some == meta_of(*node, word@) is Some,
        r is Some ==> *r->0 == meta_of(*node, word@)->0,
{
    match action_entry(node, "meta") {
        Some(e) => if is_word(&e.1, word) {
            Some(e)
        } else {
            None
        },
        None => None,
    }
}

/// The message on a role include in a handler.
fn handler_message(e: &(Node, Node)) -> (r: String)
    requires
        e.0.word() is Some,
    ensures
        r@ == as_a_handler(e.0.word()->0),
{
    let mut message = "Using '".to_owned();
    if let Some(written) = e.0.as_str() {
        message.append(written);
    }
    message.append("' as a handler is not supported.");
    message
}

/// The position rules. Ansible raises on the first thing it refuses and stops loading, so this
/// reports one fault per statement and the caller does not recurse past it.
fn refused_here(node: &Node, pos: Pos, is_block: bool, out: &mut Vec<Problem>) -> (r: bool)
    ensures
        r == refusal(*node, pos, is_block) is Some,
        models(final(out)@) == models(old(out)@) + one_or_none(refusal(*node, pos, is_block)),
{
    let handlers = matches!(pos, Pos::HandlerEntry | Pos::HandlerBody);
    if matches!(pos, Pos::HandlerBody) && is_block {
        error(out, node.span(), BLOCK_AS_HANDLER.to_owned());
        return true;
    }
    if handlers {
        if let Some(e) = action_entry(node, "include_role") {
            error(out, e.0.span(), handler_message(e));
            return true;
        }
        if let Some(e) = action_entry(node, "import_role") {
            error(out, e.0.span(), handler_message(e));
            return true;
        }
        if let Some(e) = meta_entry(node, "end_role") {
            error(out, e.0.span(), END_ROLE_HANDLER.to_owned());
            return true;
        }
        if let Some(e) = meta_entry(node, "flush_handlers") {
            error(out, e.0.span(), FLUSH_AS_HANDLER.to_owned());
            return true;
        }
    }
    if matches!(pos, Pos::PlayTasks) {
        if let Some(e) = meta_entry(node, "end_role") {
            error(out, e.0.span(), END_ROLE_OUTSIDE.to_owned());
            return true;
        }
    }
    if let Some(e) = action_entry(node, "import_playbook") {
        emit(
            out,
            e.0.span(),
            Tier::Error,
            IMPORT_PLAYBOOK_IN_TASKS.to_owned(),
            MISPLACED_IMPORT_PLAYBOOK_RULE_ID,
        );
        return true;
    }
    assert(models(out@) + Seq::empty() =~= models(out@));
    false
}

/// The span of the last key of that name.
pub open spec fn key_at(node: Node, name: Seq<char>) -> Option<Span> {
    match parse::last_key(node.pairs(), name, node.pairs().len() as int) {
        Some(i) => Some(node.pairs()[i].0.at()),
        None => None,
    }
}

/// The span of a node's key, for anchoring: the last of that name, which is the one Ansible
/// keeps.
fn key_span(node: &Node, name: &str) -> (r: Option<Span>)
    ensures
        r == key_at(*node, name@),
{
    let entries = node.entries();
    match last_key_index(entries, name) {
        Some(i) => Some(entries[i].0.span()),
        None => None,
    }
}

/// `rescue:` or `always:` with tasks, on a node whose `block:` is absent or empty. A `block:`
/// with no value at all is refused elsewhere. `rescue` is reported before `always`.
pub open spec fn bodiless(node: Node) -> Option<ProblemModel> {
    let block = node.value_of("block"@);
    if block is Some && (block->0 is Null || block->0.elems().len() > 0) {
        None
    } else if handles(node, "rescue"@) {
        Some(fault(key_at(node, "rescue"@)->0, needs_block("rescue"@)))
    } else if handles(node, "always"@) {
        Some(fault(key_at(node, "always"@)->0, needs_block("always"@)))
    } else {
        None
    }
}

/// Does the node list tasks under `key`?
pub open spec fn handles(node: Node, key: Seq<char>) -> bool {
    node.value_of(key) is Some && node.value_of(key)->0.elems().len() > 0
}

pub open spec fn needs_block(key: Seq<char>) -> Seq<char> {
    "'"@ + key + "' keyword cannot be used without 'block'"@
}

fn needs_block_message(key: &str) -> (r: String)
    ensures
        r@ == needs_block(key@),
{
    let mut message = "'".to_owned();
    message.append(key);
    message.append("' keyword cannot be used without 'block'");
    message
}

fn list_is_empty(node: &Node) -> (r: bool)
    ensures
        r == (node.elems().len() == 0),
{
    node.items().len() == 0
}

fn rescue_without_block(node: &Node, out: &mut Vec<Problem>)
    ensures
        models(final(out)@) == models(old(out)@) + one_or_none(bodiless(*node)),
{
    assert(models(out@) + Seq::empty() =~= models(out@));
    if let Some(block) = node.get("block") {
        if matches!(block, Node::Null { .. }) || !list_is_empty(block) {
            return ;
        }
    }
    if let Some(value) = node.get("rescue") {
        if !list_is_empty(value) {
            if let Some(span) = key_span(node, "rescue") {
                error(out, span, needs_block_message("rescue"));
            }
            return ;
        }
    }
    if let Some(value) = node.get("always") {
        if !list_is_empty(value) {
            if let Some(span) = key_span(node, "always") {
                error(out, span, needs_block_message("always"));
            }
        }
    }
}

/// Is this the key of a loop?
pub open spec fn loop_key(key: Seq<char>) -> bool {
    key == "loop"@ || text::begins_with(key, "with_"@)
}

/// The key of the first loop, from entry `i` on, that would leave the task's loop set. A loop
/// with no value sets nothing.
pub open spec fn live_loop_of(entries: Seq<(Node, Node)>, i: int) -> Option<Span>
    decreases entries.len() - i,
{
    if i < 0 || i >= entries.len() {
        None
    } else if entries[i].0.word() is Some && loop_key(entries[i].0.word()->0) && !(
    entries[i].1 is Null) {
        Some(entries[i].0.at())
    } else {
        live_loop_of(entries, i + 1)
    }
}

/// The span of a loop key that would leave the task's loop set.
fn live_loop(node: &Node) -> (r: Option<Span>)
    ensures
        r == live_loop_of(node.pairs(), 0),
{
    let entries = node.entries();
    let n: usize = entries.len();
    let mut i: usize = 0;
    while i < n
        invariant
            entries@ == node.pairs(),
            i <= n == entries@.len(),
            live_loop_of(entries@, 0) == live_loop_of(entries@, i as int),
        decreases n - i,
    {
        let entry = &entries[i];
        if let Some(key) = entry.0.as_str() {
            if (str_eq(key, "loop") || starts_with(key, "with_")) && !matches!(
                entry.1,
                Node::Null { .. }
            ) {
                return Some(entry.0.span());
            }
        }
        i += 1;
    }
    None
}

/// The words among the first `n` keys, each in backquotes, with commas between.
pub open spec fn quoted_keys(entries: Seq<(Node, Node)>, n: int) -> Seq<char>
    decreases n,
{
    if n <= 0 {
        Seq::empty()
    } else if entries[n - 1].0.word() is Some {
        let before = quoted_keys(entries, n - 1);
        let sep = if word_count(entries, n - 1) > 0 {
            ", "@
        } else {
            ""@
        };
        before + sep + "`"@ + entries[n - 1].0.word()->0 + "`"@
    } else {
        quoted_keys(entries, n - 1)
    }
}

/// How many of the first `n` keys are words.
pub open spec fn word_count(entries: Seq<(Node, Node)>, n: int) -> nat
    decreases n,
{
    if n <= 0 {
        0
    } else {
        word_count(entries, n - 1) + if entries[n - 1].0.word() is Some { 1nat } else { 0nat }
    }
}

/// A `loop_control:` that is no mapping is refused. One with keys, on a task with no loop, is
/// inert.
pub open spec fn loop_control_problem(node: Node) -> Option<ProblemModel> {
    match node.value_of("loop_control"@) {
        None => None,
        Some(lc) => {
            let anchor = key_at(node, "loop_control"@)->0;
            let entries = lc.pairs();
            let n = entries.len() as int;
            if !(lc is Mapping) {
                Some(fault(anchor, LOOP_CONTROL_SHAPE@))
            } else if live_loop_of(node.pairs(), 0) is Some || word_count(entries, n) == 0 {
                None
            } else {
                let verb = if word_count(entries, n) == 1 {
                    "has"@
                } else {
                    "have"@
                };
                Some(
                    finding(
                        anchor,
                        Tier::Warning,
                        dead_loop_control(quoted_keys(entries, n), verb),
                        DEAD_LOOP_CONTROL_RULE_ID@,
                    ),
                )
            }
        },
    }
}

pub open spec fn dead_loop_control(list: Seq<char>, verb: Seq<char>) -> Seq<char> {
    "`loop_control:` has no loop to control — this "@
        + "task has no `loop:` and no `with_*`, so "@ + list
        + " "@ + verb
        + " no effect. Ansible runs this silently. Add the loop, or delete the block."@
}

/// The keys of a mapping, each in backquotes, and how many there are.
fn quote_keys(entries: &[(Node, Node)]) -> (r: (String, usize))
    ensures
        r.0@ == quoted_keys(entries@, entries@.len() as int),
        r.1 == word_count(entries@, entries@.len() as int),
{
    let n: usize = entries.len();
    let mut list = String::new();
    let mut count: usize = 0;
    let mut i: usize = 0;
    proof {
        reveal_strlit("");
    }
    while i < n
        invariant
            i <= n == entries@.len(),
            count <= i,
            list@ == quoted_keys(entries@, i as int),
            count == word_count(entries@, i as int),
            ""@ =~= Seq::<char>::empty(),
        decreases n - i,
    {
        if let Some(key) = entries[i].0.as_str() {
            if count > 0 {
                list.append(", ");
            } else {
                assert(list@ + ""@ =~= list@);
            }
            list.append("`");
            list.append(key);
            list.append("`");
            count += 1;
        }
        i += 1;
    }
    (list, count)
}

/// Returns whether a fatal fault was reported. The warning on an inert `loop_control:`
/// suppresses nothing: Ansible loads that task without complaint.
fn loop_control_checks(node: &Node, out: &mut Vec<Problem>) -> (r: bool)
    ensures
        models(final(out)@) == models(old(out)@) + one_or_none(loop_control_problem(*node)),
        r == (loop_control_problem(*node) is Some && loop_control_problem(*node)->0.tier
            == Tier::Error),
{
    assert(models(out@) + Seq::empty() =~= models(out@));
    let lc = match node.get("loop_control") {
        Some(lc) => lc,
        None => return false,
    };
    let anchor = match key_span(node, "loop_control") {
        Some(anchor) => anchor,
        None => return false,
    };
    if !matches!(lc, Node::Mapping { .. }) {
        error(out, anchor, LOOP_CONTROL_SHAPE.to_owned());
        return true;
    }
    if live_loop(node).is_some() {
        return false;
    }
    let (list, count) = quote_keys(lc.entries());
    if count == 0 {
        return false;
    }
    let mut message = "`loop_control:` has no loop to control — this ".to_owned();
    message.append("task has no `loop:` and no `with_*`, so ");
    message.append(list.as_str());
    message.append(" ");
    message.append(
        if count == 1 {
            "has"
        } else {
            "have"
        },
    );
    message.append(" no effect. Ansible runs this silently. Add the loop, or delete the block.");
    emit(out, anchor, Tier::Warning, message, DEAD_LOOP_CONTROL_RULE_ID);
    false
}

/// The loops of a task, read in written order from entry `i`. `set` says whether an earlier
/// entry set the loop, and `shadow` is the last `with_*` before it. The first fault comes back,
/// and whether it is fatal.
pub open spec fn loops_of(
    entries: Seq<(Node, Node)>,
    i: int,
    set: bool,
    shadow: Option<(Seq<char>, Span)>,
) -> Option<ProblemModel>
    decreases entries.len() - i,
{
    if i < 0 || i >= entries.len() {
        None
    } else {
        let (k, v) = entries[i];
        if k.word() == Some("loop"@) {
            if v is Null {
                loops_of(entries, i + 1, set, shadow)
            } else if shadow is Some {
                Some(shadowed((shadow->0).0, (shadow->0).1))
            } else {
                loops_of(entries, i + 1, true, shadow)
            }
        } else if k.word() is Some && text::begins_with(k.word()->0, "with_"@) {
            let key = k.word()->0;
            let lookup = key.subrange("with_"@.len() as int, key.len() as int);
            if set {
                Some(fault(k.at(), "duplicate loop in task: "@ + lookup))
            } else if v is Null {
                Some(fault(k.at(), "you must specify a value when using "@ + key))
            } else {
                loops_of(entries, i + 1, true, Some((lookup, k.at())))
            }
        } else {
            loops_of(entries, i + 1, set, shadow)
        }
    }
}

/// The warning on a `with_*` whose value a later `loop:` discards.
pub open spec fn shadowed(lookup: Seq<char>, span: Span) -> ProblemModel {
    finding(
        span,
        Tier::Warning,
        "`with_"@ + lookup
            + ":` is overridden by the `loop:` below it — its value is discarded, but the '"@
            + lookup + "' lookup it registered is not, so this "@ + "task loops with '"@ + lookup
            + "' over the `loop:` value and iterates differently from the same `loop:` written alone. Ansible accepts this silently (it is fatal in the other order). Delete one of the two keywords."@,
        SHADOWED_LOOP_RULE_ID@,
    )
}

/// Ansible records two things for a `with_*`, the lookup and its value, and a later `loop:`
/// overwrites only the value.
fn shadowed_loop(lookup: &str, span: Span, out: &mut Vec<Problem>)
    ensures
        models(final(out)@) == models(old(out)@).push(shadowed(lookup@, span)),
{
    let mut message = "`with_".to_owned();
    message.append(lookup);
    message.append(
        ":` is overridden by the `loop:` below it — its value is discarded, but the '",
    );
    message.append(lookup);
    message.append("' lookup it registered is not, so this ");
    message.append("task loops with '");
    message.append(lookup);
    message.append(
        "' over the `loop:` value and iterates differently from the same `loop:` written alone. Ansible accepts this silently (it is fatal in the other order). Delete one of the two keywords.",
    );
    emit(out, span, Tier::Warning, message, SHADOWED_LOOP_RULE_ID);
}

/// A second loop on one task. `loop:` then `with_items:` is fatal, while `with_items:` then
/// `loop:` runs, with the wrong lookup. Returns whether a fatal fault was reported.
fn duplicate_loop(node: &Node, out: &mut Vec<Problem>) -> (r: bool)
    ensures
        models(final(out)@) == models(old(out)@) + one_or_none(
            loops_of(node.pairs(), 0, false, None),
        ),
        r == (loops_of(node.pairs(), 0, false, None) is Some && loops_of(
            node.pairs(),
            0,
            false,
            None,
        )->0.tier == Tier::Error),
{
    let ghost before = models(out@);
    let entries = node.entries();
    let n: usize = entries.len();
    let mut loop_set = false;
    let mut shadowable: Option<(&str, Span)> = None;
    let ghost mut shadow: Option<(Seq<char>, Span)> = None;
    let mut i: usize = 0;
    assert(before + Seq::empty() =~= before);
    while i < n
        invariant
            entries@ == node.pairs(),
            i <= n == entries@.len(),
            models(out@) == before,
            before == models(old(out)@),
            shadowable is Some == shadow is Some,
            shadowable is Some ==> shadow == Some(((shadowable->0).0@, (shadowable->0).1)),
            loops_of(entries@, 0, false, None) == loops_of(entries@, i as int, loop_set, shadow),
        decreases n - i,
    {
        let entry = &entries[i];
        if let Some(key) = entry.0.as_str() {
            if str_eq(key, "loop") {
                if !matches!(entry.1, Node::Null { .. }) {
                    if let Some((lookup, span)) = shadowable {
                        shadowed_loop(lookup, span, out);
                        assert(before.push(shadowed(lookup@, span)) =~= before + seq![
                            shadowed(lookup@, span),
                        ]);
                        return false;
                    }
                    loop_set = true;
                }
            } else if let Some(lookup) = strip_prefix(key, "with_") {
                if loop_set {
                    let mut message = "duplicate loop in task: ".to_owned();
                    message.append(lookup);
                    error(out, entry.0.span(), message);
                    return true;
                }
                if matches!(entry.1, Node::Null { .. }) {
                    let mut message = "you must specify a value when using ".to_owned();
                    message.append(key);
                    error(out, entry.0.span(), message);
                    return true;
                }
                loop_set = true;
                shadowable = Some((lookup, entry.0.span()));
                proof {
                    shadow = Some((lookup@, entry.0.at()));
                }
            }
        }
        i += 1;
    }
    false
}

/// The first import that a key names, from entry `i` on: it and the dynamic statement to use in
/// its place.
pub open spec fn import_named(entries: Seq<(Node, Node)>, i: int) -> Option<(Seq<char>, Seq<char>)>
    decreases entries.len() - i,
{
    if i < 0 || i >= entries.len() {
        None
    } else if names_action(entries[i], "import_tasks"@) {
        Some(("import_tasks"@, "include_tasks"@))
    } else if names_action(entries[i], "import_role"@) {
        Some(("import_role"@, "include_role"@))
    } else {
        import_named(entries, i + 1)
    }
}

/// A loop on an import: imports are expanded before any loop could iterate.
pub open spec fn import_loop(node: Node) -> Option<ProblemModel> {
    match import_named(node.pairs(), 0) {
        None => None,
        Some((action, replacement)) => match live_loop_of(node.pairs(), 0) {
            None => None,
            Some(key) => Some(
                fault(
                    key,
                    "You cannot use loops on '"@ + action + "' statements. You should use '"@
                        + replacement + "' instead."@,
                ),
            ),
        },
    }
}

fn find_import(node: &Node) -> (r: Option<(&'static str, &'static str)>)
    ensures
        r is Some == import_named(node.pairs(), 0) is Some,
        r is Some ==> import_named(node.pairs(), 0) == Some(((r->0).0@, (r->0).1@)),
{
    let entries = node.entries();
    let n: usize = entries.len();
    let mut i: usize = 0;
    while i < n
        invariant
            entries@ == node.pairs(),
            i <= n == entries@.len(),
            import_named(entries@, 0) == import_named(entries@, i as int),
        decreases n - i,
    {
        if let Some(key) = entries[i].0.as_str() {
            let action = core_action(key);
            if str_eq(action, "import_tasks") {
                return Some(("import_tasks", "include_tasks"));
            }
            if str_eq(action, "import_role") {
                return Some(("import_role", "include_role"));
            }
        }
        i += 1;
    }
    None
}

fn loop_on_import(node: &Node, out: &mut Vec<Problem>)
    ensures
        models(final(out)@) == models(old(out)@) + one_or_none(import_loop(*node)),
{
    assert(models(out@) + Seq::empty() =~= models(out@));
    if let Some((action, replacement)) = find_import(node) {
        if let Some(key) = live_loop(node) {
            let mut message = "You cannot use loops on '".to_owned();
            message.append(action);
            message.append("' statements. You should use '");
            message.append(replacement);
            message.append("' instead.");
            error(out, key, message);
        }
    }
}

/// Which kind of node a pair of exclusive keys is checked on.
#[derive(Debug, Clone, Copy, PartialEq, Eq, Structural)]
pub enum On {
    Play,
    Task,
}

/// Does the node have the key with a value, and the other key too?
pub open spec fn both(node: Node, trigger: Seq<char>, other: Seq<char>) -> bool {
    node.value_of(trigger) is Some && !(node.value_of(trigger)->0 is Null) && node.value_of(
        other,
    ) is Some
}

/// Two keys that cannot both sit on one node. On a play, `user` beside `remote_user`, whatever
/// their values. On a task, `local_action` with a value beside `action`, and beside
/// `delegate_to`; the second is a warning.
pub open spec fn exclusions_of(node: Node, on: On) -> Seq<ProblemModel> {
    match on {
        On::Play => if node.value_of("user"@) is Some && node.value_of("remote_user"@) is Some {
            seq![fault(key_at(node, "user"@)->0, USER_AND_REMOTE_USER@)]
        } else {
            Seq::empty()
        },
        On::Task => {
            let first = if both(node, "local_action"@, "action"@) {
                seq![fault(key_at(node, "local_action"@)->0, ACTION_AND_LOCAL_ACTION@)]
            } else {
                Seq::empty()
            };
            let second = if both(node, "local_action"@, "delegate_to"@) {
                seq![
                    finding(
                        key_at(node, "delegate_to"@)->0,
                        Tier::Warning,
                        DISCARDED_DELEGATE_TO@,
                        DISCARDED_DELEGATE_TO_RULE_ID@,
                    ),
                ]
            } else {
                Seq::empty()
            };
            first + second
        },
    }
}

/// Is one of the exclusions of a node fatal?
pub open spec fn excluded(node: Node, on: On) -> bool {
    match on {
        On::Play => node.value_of("user"@) is Some && node.value_of("remote_user"@) is Some,
        On::Task => both(node, "local_action"@, "action"@),
    }
}

fn has_value(node: &Node, key: &str) -> (r: bool)
    ensures
        r == (node.value_of(key@) is Some && !(node.value_of(key@)->0 is Null)),
{
    match node.get(key) {
        Some(v) => !matches!(v, Node::Null { .. }),
        None => false,
    }
}

/// Returns whether a fatal exclusion was reported, which suppresses the rules after it.
fn exclusions(node: &Node, on: On, out: &mut Vec<Problem>) -> (r: bool)
    ensures
        models(final(out)@) == models(old(out)@) + exclusions_of(*node, on),
        r == excluded(*node, on),
{
    let ghost before = models(out@);
    let mut fatal = false;
    match on {
        On::Play => {
            if node.get("user").is_some() && node.get("remote_user").is_some() {
                if let Some(span) = key_span(node, "user") {
                    error(out, span, USER_AND_REMOTE_USER.to_owned());
                    fatal = true;
                }
            }
        },
        On::Task => {
            let trigger = has_value(node, "local_action");
            if trigger && node.get("action").is_some() {
                if let Some(span) = key_span(node, "local_action") {
                    error(out, span, ACTION_AND_LOCAL_ACTION.to_owned());
                    fatal = true;
                }
            }
            if trigger && node.get("delegate_to").is_some() {
                if let Some(span) = key_span(node, "delegate_to") {
                    emit(
                        out,
                        span,
                        Tier::Warning,
                        DISCARDED_DELEGATE_TO.to_owned(),
                        DISCARDED_DELEGATE_TO_RULE_ID,
                    );
                }
            }
        },
    }
    assert(models(out@) =~= before + exclusions_of(*node, on));
    fatal
}

/// Can this key be a module name? Everything that is no directive and not `static` can; a dotted
/// key is never a directive.
pub open spec fn candidate(entry: (Node, Node)) -> bool {
    &&& entry.0.word() is Some
    &&& {
        let key = entry.0.word()->0;
        key != "static"@ && (text::occurs(key, "."@) || !keywords::task_directive(key))
    }
}

/// The first entry from `i` on whose key can be a module name.
pub open spec fn next_candidate(entries: Seq<(Node, Node)>, i: int) -> Option<int>
    decreases entries.len() - i,
{
    if i < 0 || i >= entries.len() {
        None
    } else if candidate(entries[i]) {
        Some(i)
    } else {
        next_candidate(entries, i + 1)
    }
}

/// What is wrong with the module of a task: there is none, or there are two. `action:` and
/// `local_action:` name the module too. Where the first candidate holds a list, Ansible fails on
/// that before it sees the second.
pub open spec fn walk(node: Node) -> Option<ProblemModel> {
    let entries = node.pairs();
    match next_candidate(entries, 0) {
        None => if node.value_of("action"@) is Some || node.value_of("local_action"@) is Some {
            None
        } else {
            Some(fault(node.at(), NO_MODULE@))
        },
        Some(a) => match next_candidate(entries, a + 1) {
            None => None,
            Some(b) => if entries[a].1 is Sequence {
                None
            } else {
                Some(
                    fault(
                        entries[b].0.at(),
                        "conflicting action statements: "@ + entries[a].0.word()->0 + ", "@
                            + entries[b].0.word()->0,
                    ),
                )
            },
        },
    }
}

/// The first entry from `from` on whose key can be a module name.
pub fn action_candidate(entries: &[(Node, Node)], from: usize) -> (r: Option<usize>)
    ensures
        r is Some == next_candidate(entries@, from as int) is Some,
        r is Some ==> next_candidate(entries@, from as int) == Some(r->0 as int) && r->0
            < entries@.len() && candidate(entries@[r->0 as int]),
{
    let n: usize = entries.len();
    let mut i: usize = from;
    while i < n
        invariant
            n == entries@.len(),
            next_candidate(entries@, from as int) == next_candidate(entries@, i as int),
        decreases n - i,
    {
        if let Some(key) = entries[i].0.as_str() {
            if !str_eq(key, "static") && (contains(key, ".") || !is_task_directive(key)) {
                return Some(i);
            }
        }
        i += 1;
    }
    None
}

fn action_walk(node: &Node, out: &mut Vec<Problem>) -> (r: bool)
    ensures
        models(final(out)@) == models(old(out)@) + one_or_none(walk(*node)),
        r == walk(*node) is Some,
{
    assert(models(out@) + Seq::empty() =~= models(out@));
    let entries = node.entries();
    let n: usize = entries.len();
    match action_candidate(entries, 0) {
        None => {
            if node.get("action").is_some() || node.get("local_action").is_some() {
                return false;
            }
            error(out, node.span(), NO_MODULE.to_owned());
            true
        },
        Some(a) => match action_candidate(entries, a + 1) {
            None => false,
            Some(b) => {
                if matches!(entries[a].1, Node::Sequence { .. }) {
                    return false;
                }
                let mut message = "conflicting action statements: ".to_owned();
                if let Some(first) = entries[a].0.as_str() {
                    message.append(first);
                }
                message.append(", ");
                if let Some(second) = entries[b].0.as_str() {
                    message.append(second);
                }
                error(out, entries[b].0.span(), message);
                true
            },
        },
    }
}

/// Everything that is wrong with a task, in the order in which Ansible raises. A fatal fault hides
/// the ones after it; a warning hides nothing.
pub open spec fn task_problems(node: Node) -> Seq<ProblemModel> {
    let a = exclusions_of(node, On::Task);
    let b = a + one_or_none(walk(node));
    let loops = loops_of(node.pairs(), 0, false, None);
    let c = b + one_or_none(loops);
    let control = loop_control_problem(node);
    let d = c + one_or_none(control);
    if excluded(node, On::Task) {
        a
    } else if walk(node) is Some {
        b
    } else if loops is Some && loops->0.tier == Tier::Error {
        c
    } else if control is Some && control->0.tier == Tier::Error {
        d
    } else {
        d + one_or_none(import_loop(node))
    }
}

fn task(node: &Node, out: &mut Vec<Problem>)
    ensures
        models(final(out)@) == models(old(out)@) + task_problems(*node),
{
    let ghost m = models(out@);
    let ghost a = exclusions_of(*node, On::Task);
    let ghost b = a + one_or_none(walk(*node));
    let ghost c = b + one_or_none(loops_of(node.pairs(), 0, false, None));
    let ghost d = c + one_or_none(loop_control_problem(*node));
    if exclusions(node, On::Task, out) {
        return ;
    }
    if action_walk(node, out) {
        assert((m + a) + one_or_none(walk(*node)) =~= m + b);
        return ;
    }
    assert((m + a) + one_or_none(walk(*node)) =~= m + b);
    if duplicate_loop(node, out) {
        assert(models(out@) =~= m + c);
        return ;
    }
    assert(models(out@) =~= m + c);
    if loop_control_checks(node, out) {
        assert(models(out@) =~= m + d);
        return ;
    }
    assert(models(out@) =~= m + d);
    loop_on_import(node, out);
    assert(models(out@) =~= m + (d + one_or_none(import_loop(*node))));
}

/// A node with one of the three task-holding keys is a block, though a malformed one where
/// `block` is not among them.
pub open spec fn block_shaped(node: Node) -> bool {
    node.value_of("block"@) is Some || node.value_of("rescue"@) is Some || node.value_of(
        "always"@,
    ) is Some
}

/// The tasks that a node lists under a key.
pub open spec fn listed_under(node: Node, key: Seq<char>) -> Seq<Node> {
    match node.value_of(key) {
        Some(v) => v.elems(),
        None => Seq::empty(),
    }
}

/// What lies under a key of a node is smaller than the node.
pub proof fn listed_under_is_smaller(node: Node, key: Seq<char>)
    ensures
        listed_under(node, key).len() > 0 ==> decreases_to!(node => listed_under(node, key)),
{
    let entries = node.pairs();
    parse::last_key_is_last(entries, key, entries.len() as int);
    if let Some(i) = parse::last_key(entries, key, entries.len() as int) {
        if let Node::Mapping { entries: held, .. } = node {
            assert(decreases_to!(node => held));
            assert(decreases_to!(held => held@));
            assert(decreases_to!(held@ => held@[i]));
            let v = held@[i].1;
            assert(decreases_to!(held@[i] => v));
            if let Node::Sequence { items, .. } = v {
                assert(decreases_to!(v => items));
                assert(decreases_to!(items => items@));
            }
        }
    }
}

/// Every problem in one entry of a task list.
pub open spec fn stmt_problems(node: Node, pos: Pos) -> Seq<ProblemModel>
    decreases node, 1int,
{
    match node {
        Node::Null { .. } | Node::Other { .. } => Seq::empty(),
        Node::Mapping { .. } => {
            let is_block = block_shaped(node);
            let refused = refusal(node, pos, is_block);
            if refused is Some {
                seq![refused->0]
            } else if !is_block {
                task_problems(node)
            } else {
                one_or_none(bodiless(node)) + held_problems(node, "block"@, pos.below())
                    + held_problems(node, "rescue"@, pos.below()) + held_problems(
                    node,
                    "always"@,
                    pos.below(),
                )
            }
        },
        _ => seq![
            finding(node.at(), Tier::Error, NOT_A_MAPPING@, MALFORMED_TASK_ENTRY_RULE_ID@),
        ],
    }
}

/// Every problem in the tasks that a node lists under a key.
pub open spec fn held_problems(node: Node, key: Seq<char>, pos: Pos) -> Seq<ProblemModel>
    decreases node, 0int,
{
    let items = listed_under(node, key);
    if items.len() == 0 {
        Seq::empty()
    } else {
        proof {
            listed_under_is_smaller(node, key);
        }
        list_problems(items, items.len() as int, pos)
    }
}

/// Every problem in the first `n` entries of a task list.
pub open spec fn list_problems(items: Seq<Node>, n: int, pos: Pos) -> Seq<ProblemModel>
    decreases items, n,
{
    if n <= 0 || n > items.len() {
        Seq::empty()
    } else {
        list_problems(items, n - 1, pos) + stmt_problems(items[n - 1], pos)
    }
}

/// The tasks that a node lists under a key.
pub fn held<'a>(node: &'a Node, key: &str) -> (r: &'a [Node])
    ensures
        r@ == listed_under(*node, key@),
{
    match node.get(key) {
        Some(v) => v.items(),
        None => &[],
    }
}

/// One entry of a task list: a block, whose three task-holding keys recurse, or a task.
///
/// Position rules come first: each of them raises before the statement is loaded at all.
fn stmt(node: &Node, pos: Pos, out: &mut Vec<Problem>)
    ensures
        models(final(out)@) == models(old(out)@) + stmt_problems(*node, pos),
    decreases node, 1int,
{
    let ghost m = models(out@);
    match node {
        Node::Mapping { .. } => {},
        // A bare `-` is dropped before anything inspects it, and an alias stands for whatever its
        // anchor holds.
        Node::Null { .. } | Node::Other { .. } => {
            assert(m + Seq::empty() =~= m);
            return ;
        },
        _ => {
            emit(
                out,
                node.span(),
                Tier::Error,
                NOT_A_MAPPING.to_owned(),
                MALFORMED_TASK_ENTRY_RULE_ID,
            );
            assert(models(out@) =~= m + stmt_problems(*node, pos));
            return ;
        },
    }
    let is_block = node.get("block").is_some() || node.get("rescue").is_some() || node.get(
        "always",
    ).is_some();
    if refused_here(node, pos, is_block, out) {
        return ;
    }
    assert(m + Seq::empty() =~= m);
    if !is_block {
        task(node, out);
        return ;
    }
    let below = pos.inside();
    rescue_without_block(node, out);
    stmts_under(node, "block", below, out);
    stmts_under(node, "rescue", below, out);
    stmts_under(node, "always", below, out);
    assert(models(out@) =~= m + stmt_problems(*node, pos));
}

/// The tasks that a node lists under a key.
fn stmts_under(node: &Node, key: &str, pos: Pos, out: &mut Vec<Problem>)
    ensures
        models(final(out)@) == models(old(out)@) + held_problems(*node, key@, pos),
    decreases node, 0int,
{
    let ghost m = models(out@);
    let items = held(node, key);
    assert(m + Seq::empty() =~= m);
    if items.len() > 0 {
        proof {
            listed_under_is_smaller(*node, key@);
        }
        stmts(items, pos, out);
    }
}

/// The entries of a task list, in order.
fn stmts(items: &[Node], pos: Pos, out: &mut Vec<Problem>)
    ensures
        models(final(out)@) == models(old(out)@) + list_problems(items@, items@.len() as int, pos),
    decreases items@, items@.len(),
{
    let ghost m = models(out@);
    let n: usize = items.len();
    let mut i: usize = 0;
    assert(m + Seq::empty() =~= m);
    while i < n
        invariant
            i <= n == items@.len(),
            models(out@) == m + list_problems(items@, i as int, pos),
        decreases n - i,
    {
        assert(decreases_to!(items@ => items@[i as int]));
        stmt(&items[i], pos, out);
        i += 1;
        assert(models(out@) =~= m + list_problems(items@, i as int, pos));
    }
}

/// Does the node have that key?
pub open spec fn has(node: Node, key: Seq<char>) -> bool {
    node.value_of(key) is Some
}

/// The spellings of `import_playbook` that the node holds, in alphabetical order, with commas
/// between.
pub open spec fn playbook_spellings(node: Node) -> Seq<char> {
    let b = has(node, "ansible.builtin.import_playbook"@);
    let l = has(node, "ansible.legacy.import_playbook"@);
    let bare = has(node, "import_playbook"@);
    let first = if b {
        "ansible.builtin.import_playbook"@
    } else {
        ""@
    };
    let second = if l {
        (if b {
            ", "@
        } else {
            ""@
        }) + "ansible.legacy.import_playbook"@
    } else {
        ""@
    };
    let third = if bare {
        (if b || l {
            ", "@
        } else {
            ""@
        }) + "import_playbook"@
    } else {
        ""@
    };
    first + second + third
}

/// Two spellings of `import_playbook` on one entry. Repeating one spelling is no conflict.
pub open spec fn spelling_conflict(node: Node) -> Option<ProblemModel> {
    let b = has(node, "ansible.builtin.import_playbook"@);
    let l = has(node, "ansible.legacy.import_playbook"@);
    let bare = has(node, "import_playbook"@);
    if (b && l) || (b && bare) || (l && bare) {
        match action_of(node, "import_playbook"@) {
            Some(e) => Some(
                fault(
                    e.0.at(),
                    "Found conflicting import_playbook actions: "@ + playbook_spellings(node),
                ),
            ),
            None => None,
        }
    } else {
        None
    }
}

fn conflicting_import_playbook(node: &Node, out: &mut Vec<Problem>)
    ensures
        models(final(out)@) == models(old(out)@) + one_or_none(spelling_conflict(*node)),
{
    assert(models(out@) + Seq::empty() =~= models(out@));
    let b = node.get("ansible.builtin.import_playbook").is_some();
    let l = node.get("ansible.legacy.import_playbook").is_some();
    let bare = node.get("import_playbook").is_some();
    if !((b && l) || (b && bare) || (l && bare)) {
        return ;
    }
    // Anchored on the last of them: the first is the one a reader takes as intended.
    if let Some(e) = action_entry(node, "import_playbook") {
        let mut names = String::new();
        if b {
            names.append("ansible.builtin.import_playbook");
        }
        if l {
            if b {
                names.append(", ");
            }
            names.append("ansible.legacy.import_playbook");
        }
        if bare {
            if b || l {
                names.append(", ");
            }
            names.append("import_playbook");
        }
        proof {
            reveal_strlit("");
            assert(names@ =~= playbook_spellings(*node));
        }
        let mut message = "Found conflicting import_playbook actions: ".to_owned();
        message.append(names.as_str());
        error(out, e.0.span(), message);
    }
}

/// What is wrong with one entry of a `hosts:` list. The entry is quoted as it stands in the
/// source.
pub open spec fn host_fault(item: Node, src: Seq<char>) -> Option<ProblemModel> {
    match item {
        Node::Null { .. } => Some(fault(item.at(), HOSTS_NONE@)),
        Node::Sequence { .. } | Node::Mapping { .. } => Some(
            fault(
                item.at(),
                "Hosts list contains an invalid host value: '"@ + parse::text_between(
                    src,
                    item.at().start as int,
                    item.at().end as int,
                ) + "'"@,
            ),
        ),
        _ => None,
    }
}

/// What is wrong with the first `n` entries of a `hosts:` list.
pub open spec fn host_faults(items: Seq<Node>, n: int, src: Seq<char>) -> Seq<ProblemModel>
    decreases n,
{
    if n <= 0 || n > items.len() {
        Seq::empty()
    } else {
        host_faults(items, n - 1, src) + one_or_none(host_fault(items[n - 1], src))
    }
}

/// What is wrong with a `hosts:` value. Numbers pass: a tree of plain scalars does not tell `42`
/// from `"42"`.
pub open spec fn hosts_problems(value: Node, src: Seq<char>) -> Seq<ProblemModel> {
    match value {
        Node::Null { span } => seq![fault(span, HOSTS_EMPTY@)],
        Node::Scalar { value, span } => if value@.len() == 0 {
            seq![fault(span, HOSTS_EMPTY@)]
        } else {
            Seq::empty()
        },
        Node::Sequence { items, span } => if items@.len() == 0 {
            seq![fault(span, HOSTS_EMPTY@)]
        } else {
            host_faults(items@, items@.len() as int, src)
        },
        Node::Mapping { span, .. } => seq![fault(span, HOSTS_SHAPE@)],
        Node::Other { .. } => Seq::empty(),
    }
}

fn host(item: &Node, src: &str, out: &mut Vec<Problem>)
    ensures
        models(final(out)@) == models(old(out)@) + one_or_none(host_fault(*item, src@)),
{
    assert(models(out@) + Seq::empty() =~= models(out@));
    match item {
        Node::Null { .. } => error(out, item.span(), HOSTS_NONE.to_owned()),
        Node::Sequence { .. } | Node::Mapping { .. } => {
            let mut message = "Hosts list contains an invalid host value: '".to_owned();
            message.append(item.span().slice(src));
            message.append("'");
            error(out, item.span(), message);
        },
        _ => {},
    }
}

fn hosts(value: &Node, src: &str, out: &mut Vec<Problem>)
    ensures
        models(final(out)@) == models(old(out)@) + hosts_problems(*value, src@),
{
    let ghost m = models(out@);
    assert(m + Seq::empty() =~= m);
    match value {
        Node::Null { span } => {
            error(out, *span, HOSTS_EMPTY.to_owned());
            assert(models(out@) =~= m + hosts_problems(*value, src@));
        },
        Node::Scalar { value: s, span } => {
            if s.as_str().is_empty() {
                error(out, *span, HOSTS_EMPTY.to_owned());
                assert(models(out@) =~= m + hosts_problems(*value, src@));
            }
        },
        Node::Sequence { items, span } => {
            if items.len() == 0 {
                error(out, *span, HOSTS_EMPTY.to_owned());
                assert(models(out@) =~= m + hosts_problems(*value, src@));
            } else {
                let n: usize = items.len();
                let mut i: usize = 0;
                while i < n
                    invariant
                        i <= n == items@.len(),
                        models(out@) == m + host_faults(items@, i as int, src@),
                    decreases n - i,
                {
                    host(&items[i], src, out);
                    i += 1;
                    assert(models(out@) =~= m + host_faults(items@, i as int, src@));
                }
            }
        },
        Node::Mapping { span, .. } => {
            error(out, *span, HOSTS_SHAPE.to_owned());
            assert(models(out@) =~= m + hosts_problems(*value, src@));
        },
        Node::Other { .. } => {},
    }
}

/// The keys among the first `n` that a `vars_prompt:` entry does not take.
pub open spec fn prompt_keys(entries: Seq<(Node, Node)>, n: int) -> Seq<ProblemModel>
    decreases n,
{
    if n <= 0 || n > entries.len() {
        Seq::empty()
    } else {
        let k = entries[n - 1].0;
        let before = prompt_keys(entries, n - 1);
        if k.word() is Some && !keywords::listed(VARS_PROMPT_KEYS@, k.word()->0) {
            before.push(
                fault(
                    k.at(),
                    "Invalid vars_prompt data structure, found unsupported key '"@ + k.word()->0
                        + "'"@,
                ),
            )
        } else {
            before
        }
    }
}

/// What is wrong with one `vars_prompt:` entry. A null entry is fatal here, unlike in a task
/// list.
pub open spec fn prompt_entry(item: Node) -> Seq<ProblemModel> {
    match item {
        Node::Mapping { entries, .. } => {
            let first = if has(item, "name"@) {
                Seq::empty()
            } else {
                seq![fault(item.at(), PROMPT_WITHOUT_NAME@)]
            };
            first + prompt_keys(entries@, entries@.len() as int)
        },
        Node::Other { .. } => Seq::empty(),
        _ => seq![fault(item.at(), NOT_VARS_PROMPT_DATA@)],
    }
}

/// What is wrong with the first `n` entries of a `vars_prompt:` list.
pub open spec fn prompt_entries(items: Seq<Node>, n: int) -> Seq<ProblemModel>
    decreases n,
{
    if n <= 0 || n > items.len() {
        Seq::empty()
    } else {
        prompt_entries(items, n - 1) + prompt_entry(items[n - 1])
    }
}

/// What is wrong with a `vars_prompt:` value. A lone mapping counts as a list of one.
pub open spec fn prompt_problems(value: Node) -> Seq<ProblemModel> {
    match value {
        Node::Null { .. } => Seq::empty(),
        Node::Sequence { items, .. } => prompt_entries(items@, items@.len() as int),
        other => prompt_entry(other),
    }
}

fn prompt(item: &Node, out: &mut Vec<Problem>)
    ensures
        models(final(out)@) == models(old(out)@) + prompt_entry(*item),
{
    let ghost m = models(out@);
    match item {
        Node::Mapping { .. } => {},
        Node::Other { .. } => {
            assert(m + Seq::empty() =~= m);
            return ;
        },
        _ => {
            error(out, item.span(), NOT_VARS_PROMPT_DATA.to_owned());
            assert(models(out@) =~= m + prompt_entry(*item));
            return ;
        },
    }
    if item.get("name").is_none() {
        error(out, item.span(), PROMPT_WITHOUT_NAME.to_owned());
    }
    let ghost first = models(out@);
    let entries = item.entries();
    let n: usize = entries.len();
    let mut i: usize = 0;
    assert(first + Seq::empty() =~= first);
    while i < n
        invariant
            i <= n == entries@.len(),
            models(out@) == first + prompt_keys(entries@, i as int),
        decreases n - i,
    {
        if let Some(key) = entries[i].0.as_str() {
            if !in_set(&VARS_PROMPT_KEYS, key) {
                let mut message =
                    "Invalid vars_prompt data structure, found unsupported key '".to_owned();
                message.append(key);
                message.append("'");
                error(out, entries[i].0.span(), message);
            }
        }
        i += 1;
        assert(models(out@) =~= first + prompt_keys(entries@, i as int));
    }
    assert(models(out@) =~= m + prompt_entry(*item));
}

fn vars_prompt(value: &Node, out: &mut Vec<Problem>)
    ensures
        models(final(out)@) == models(old(out)@) + prompt_problems(*value),
{
    let ghost m = models(out@);
    assert(m + Seq::empty() =~= m);
    match value {
        Node::Null { .. } => {},
        Node::Sequence { items, .. } => {
            let n: usize = items.len();
            let mut i: usize = 0;
            while i < n
                invariant
                    i <= n == items@.len(),
                    models(out@) == m + prompt_entries(items@, i as int),
                decreases n - i,
            {
                prompt(&items[i], out);
                i += 1;
                assert(models(out@) =~= m + prompt_entries(items@, i as int));
            }
        },
        _ => prompt(value, out),
    }
}

/// Every problem in a play. An `import_playbook:` entry is no play, and has one rule of its own.
pub open spec fn play_problems(node: Node, src: Seq<char>) -> Seq<ProblemModel> {
    if action_of(node, "import_playbook"@) is Some {
        one_or_none(spelling_conflict(node))
    } else {
        let hosts = match node.value_of("hosts"@) {
            Some(v) => hosts_problems(v, src),
            None => Seq::empty(),
        };
        let prompts = match node.value_of("vars_prompt"@) {
            Some(v) => prompt_problems(v),
            None => Seq::empty(),
        };
        exclusions_of(node, On::Play) + hosts + prompts + held_problems(
            node,
            "pre_tasks"@,
            Pos::PlayTasks,
        ) + held_problems(node, "tasks"@, Pos::PlayTasks) + held_problems(
            node,
            "post_tasks"@,
            Pos::PlayTasks,
        ) + held_problems(node, "handlers"@, Pos::HandlerEntry)
    }
}

fn play(node: &Node, src: &str, out: &mut Vec<Problem>)
    ensures
        models(final(out)@) == models(old(out)@) + play_problems(*node, src@),
{
    let ghost m = models(out@);
    if action_entry(node, "import_playbook").is_some() {
        conflicting_import_playbook(node, out);
        return ;
    }
    let ghost hosts_found = match node.value_of("hosts"@) {
        Some(v) => hosts_problems(v, src@),
        None => Seq::empty(),
    };
    let ghost prompts_found = match node.value_of("vars_prompt"@) {
        Some(v) => prompt_problems(v),
        None => Seq::empty(),
    };
    let ghost a = exclusions_of(*node, On::Play);
    let ghost b = a + hosts_found;
    let ghost c = b + prompts_found;
    let ghost d = c + held_problems(*node, "pre_tasks"@, Pos::PlayTasks);
    let ghost e = d + held_problems(*node, "tasks"@, Pos::PlayTasks);
    let ghost f = e + held_problems(*node, "post_tasks"@, Pos::PlayTasks);
    exclusions(node, On::Play, out);
    if let Some(value) = node.get("hosts") {
        hosts(value, src, out);
    } else {
        assert(m + a + Seq::empty() =~= m + a);
    }
    proof {
        assoc(m, a, hosts_found);
    }
    if let Some(prompts) = node.get("vars_prompt") {
        vars_prompt(prompts, out);
    } else {
        assert(m + b + Seq::empty() =~= m + b);
    }
    proof {
        assoc(m, b, prompts_found);
    }
    stmts_under(node, "pre_tasks", Pos::PlayTasks, out);
    proof {
        assoc(m, c, held_problems(*node, "pre_tasks"@, Pos::PlayTasks));
    }
    stmts_under(node, "tasks", Pos::PlayTasks, out);
    proof {
        assoc(m, d, held_problems(*node, "tasks"@, Pos::PlayTasks));
    }
    stmts_under(node, "post_tasks", Pos::PlayTasks, out);
    proof {
        assoc(m, e, held_problems(*node, "post_tasks"@, Pos::PlayTasks));
    }
    stmts_under(node, "handlers", Pos::HandlerEntry, out);
    proof {
        assoc(m, f, held_problems(*node, "handlers"@, Pos::HandlerEntry));
    }
}

proof fn assoc(a: Seq<ProblemModel>, b: Seq<ProblemModel>, c: Seq<ProblemModel>)
    ensures
        (a + b) + c == a + (b + c),
{
    assert((a + b) + c =~= a + (b + c));
}

/// Every problem in the first `n` entries of a playbook.
pub open spec fn playbook_problems(items: Seq<Node>, n: int, src: Seq<char>) -> Seq<ProblemModel>
    decreases n,
{
    if n <= 0 || n > items.len() {
        Seq::empty()
    } else {
        playbook_problems(items, n - 1, src) + match items[n - 1] {
            Node::Mapping { .. } => play_problems(items[n - 1], src),
            _ => seq![fault(items[n - 1].at(), NOT_A_PLAY@)],
        }
    }
}

/// Does an entry look like a play?
pub open spec fn play_like(item: Node) -> bool {
    exists|j: int|
        0 <= j < item.pairs().len() && (#[trigger] item.pairs()[j]).0.word() is Some
            && keywords::play_key(item.pairs()[j].0.word()->0)
}

/// Does any entry of a list look like a play?
pub open spec fn has_play(items: Seq<Node>) -> bool {
    exists|i: int| 0 <= i < items.len() && play_like(#[trigger] items[i])
}

/// The first sequence from index `i` on: the document that is looked at.
pub open spec fn first_sequence(nodes: Seq<Node>, i: int) -> Option<Node>
    decreases nodes.len() - i,
{
    if i < 0 || i >= nodes.len() {
        None
    } else if nodes[i] is Sequence {
        Some(nodes[i])
    } else {
        first_sequence(nodes, i + 1)
    }
}

/// Every placement problem in a file.
pub open spec fn problems_of(nodes: Seq<Node>, src: Seq<char>) -> Seq<ProblemModel> {
    match first_sequence(nodes, 0) {
        None => Seq::empty(),
        Some(seq) => {
            let items = seq.elems();
            if has_play(items) {
                playbook_problems(items, items.len() as int, src)
            } else {
                list_problems(items, items.len() as int, Pos::Standalone)
            }
        },
    }
}

fn looks_like_play(item: &Node) -> (r: bool)
    ensures
        r == play_like(*item),
{
    let entries = item.entries();
    let n: usize = entries.len();
    let mut i: usize = 0;
    while i < n
        invariant
            entries@ == item.pairs(),
            i <= n == entries@.len(),
            forall|j: int|
                0 <= j < i ==> !((#[trigger] entries@[j]).0.word() is Some && keywords::play_key(
                    entries@[j].0.word()->0,
                )),
        decreases n - i,
    {
        if let Some(key) = entries[i].0.as_str() {
            if is_play_key(key) {
                return true;
            }
        }
        i += 1;
    }
    false
}

pub fn any_play(items: &[Node]) -> (r: bool)
    ensures
        r == has_play(items@),
{
    let mut i: usize = 0;
    while i < items.len()
        invariant
            i <= items@.len(),
            forall|j: int| 0 <= j < i ==> !play_like(#[trigger] items@[j]),
        decreases items@.len() - i,
    {
        if looks_like_play(&items[i]) {
            return true;
        }
        i += 1;
    }
    false
}

/// Every placement problem in the file. `src` is the document text, needed only to quote a bad
/// `hosts:` entry back at the author.
///
/// The play-shaped rules apply only to playbooks; the task-shaped ones run in both, since a
/// role's tasks are loaded the same way as those of a play.
pub fn problems(nodes: &[Node], src: &str) -> (r: Vec<Problem>)
    ensures
        models(r@) == problems_of(nodes@, src@),
{
    let mut out: Vec<Problem> = Vec::new();
    let count: usize = nodes.len();
    let mut k: usize = 0;
    assert(models(out@) =~= Seq::empty());
    while k < count
        invariant
            k <= count == nodes@.len(),
            first_sequence(nodes@, 0) == first_sequence(nodes@, k as int),
            models(out@) == Seq::<ProblemModel>::empty(),
        decreases count - k,
    {
        if matches!(nodes[k], Node::Sequence { .. }) {
            let items = nodes[k].items();
            if !any_play(items) {
                stmts(items, Pos::Standalone, &mut out);
                assert(models(out@) =~= problems_of(nodes@, src@));
                return out;
            }
            let n: usize = items.len();
            let mut i: usize = 0;
            while i < n
                invariant
                    i <= n == items@.len(),
                    models(out@) == playbook_problems(items@, i as int, src@),
                decreases n - i,
            {
                match &items[i] {
                    Node::Mapping { .. } => play(&items[i], src, &mut out),
                    _ => error(&mut out, items[i].span(), NOT_A_PLAY.to_owned()),
                }
                i += 1;
                assert(models(out@) =~= playbook_problems(items@, i as int, src@));
            }
            return out;
        }
        k += 1;
    }
    out
}

/// A task gets at most one error: Ansible raises on the first fault and stops, and everything
/// else that is reported beside it is a warning.
pub proof fn one_error_per_task(node: Node, i: int, j: int)
    requires
        0 <= i < j < task_problems(node).len(),
    ensures
        task_problems(node)[i].tier == Tier::Warning || task_problems(node)[j].tier
            == Tier::Warning,
{
}

/// In a standalone task file no rule fires that turns on roles or handlers: a statement is
/// refused for its place only where it is an `import_playbook:`.
pub proof fn standalone_refuses_only_import_playbook(node: Node, is_block: bool)
    ensures
        refusal(node, Pos::Standalone, is_block) is Some <==> action_of(
            node,
            "import_playbook"@,
        ) is Some,
        refusal(node, Pos::Standalone, is_block) is Some ==> refusal(
            node,
            Pos::Standalone,
            is_block,
        )->0.rule == MISPLACED_IMPORT_PLAYBOOK_RULE_ID@,
{
}

/// A statement that is refused for its place is reported once, however many blocks nest below it.
pub proof fn a_refused_statement_is_reported_once(node: Node, pos: Pos)
    requires
        node is Mapping,
        refusal(node, pos, block_shaped(node)) is Some,
    ensures
        stmt_problems(node, pos) == seq![refusal(node, pos, block_shaped(node))->0],
{
}

} // verus!
