//! Ansible keyword schema: which keys are *directives* (Ansible-owned) as opposed to the
//! *module* on a task, and which keys are legal in each playbook context.
//!
//! The sets follow the attribute declarations of ansible-core: every attribute of a class and of
//! its mixins, under its name *and* its alias, which is why `async`, `async_val` and `loop_with`
//! are all legal on a task.
//!
//! Two audiences with opposite error costs share this file:
//!
//! - **Module detection** (`is_task_directive` and friends) errs toward accepting too much: a
//!   directive that is missing would be misread as a task's module.
//! - **Validation** ([`legal_key`]) is *exact* per context: both a missing and an extra name is a
//!   wrong diagnostic.

use crate::text::{self, starts_with, str_eq, strip_prefix};
use vstd::prelude::*;

verus! {

/// Inherited by every playbook object.
pub const BASE: [&'static str; 22] = [
    "any_errors_fatal",
    "become",
    "become_exe",
    "become_flags",
    "become_method",
    "become_user",
    "check_mode",
    "connection",
    "debugger",
    "diff",
    "environment",
    "ignore_errors",
    "ignore_unreachable",
    "module_defaults",
    "name",
    "no_log",
    "port",
    "remote_user",
    "run_once",
    "throttle",
    "timeout",
    "vars",
];

/// Objects that take a condition.
pub const CONDITIONAL: [&'static str; 1] = ["when"];

/// Objects that take tags.
pub const TAGGABLE: [&'static str; 1] = ["tags"];

/// Objects that name collections to search.
pub const COLLECTION_SEARCH: [&'static str; 1] = ["collections"];

/// Objects that can be delegated.
pub const DELEGATABLE: [&'static str; 2] = ["delegate_to", "delegate_facts"];

/// Objects that notify handlers.
pub const NOTIFIABLE: [&'static str; 1] = ["notify"];

/// Keys of a play. A play takes tags and collections, but no `when:`, `notify:` or `delegate_to:`.
pub const PLAY_OWN: [&'static str; 18] = [
    "fact_path",
    "force_handlers",
    "gather_facts",
    "gather_subset",
    "gather_timeout",
    "handlers",
    "hosts",
    "max_fail_percentage",
    "order",
    "post_tasks",
    "pre_tasks",
    "roles",
    "serial",
    "strategy",
    "tasks",
    "validate_argspec",
    "vars_files",
    "vars_prompt",
];

/// Keys of a block.
pub const BLOCK_OWN: [&'static str; 3] = ["always", "block", "rescue"];

/// Keys of a task. `async` is an alias of `async_val`, and both are accepted; `local_action` is
/// no attribute, the argument parser takes it.
pub const TASK_OWN: [&'static str; 14] = [
    "action",
    "args",
    "async",
    "async_val",
    "changed_when",
    "delay",
    "failed_when",
    "loop",
    "loop_control",
    "loop_with",
    "poll",
    "register",
    "retries",
    "until",
];

/// What a handler takes beyond a task.
pub const HANDLER_OWN: [&'static str; 1] = ["listen"];

/// Keys of `meta/main.yml`.
pub const ROLE_METADATA_OWN: [&'static str; 4] = ["allow_duplicates", "argument_specs", "dependencies", "galaxy_info"];

/// Task-level keys on `include_tasks` and `include_role`: a smaller set than that of a task.
pub const DYNAMIC_INCLUDE: [&'static str; 16] = [
    "action",
    "args",
    "collections",
    "debugger",
    "ignore_errors",
    "loop",
    "loop_control",
    "loop_with",
    "name",
    "no_log",
    "register",
    "run_once",
    "tags",
    "timeout",
    "vars",
    "when",
];

/// Keys under `loop_control:`; none of the common keywords are legal there.
pub const LOOP_CONTROL_KEYS: [&'static str; 7] = [
    "break_when",
    "extended",
    "extended_allitems",
    "index_var",
    "label",
    "loop_var",
    "pause",
];

/// Arguments of `include_tasks` and `import_tasks`. A closed set; `apply` is fatal on
/// `import_tasks`.
pub const TASK_INCLUDE_ARGS: [&'static str; 2] = ["apply", "file"];

/// Arguments of `include_role` and `import_role`. A closed set.
pub const ROLE_INCLUDE_KEYS: [&'static str; 11] = [
    "allow_duplicates",
    "apply",
    "defaults_from",
    "handlers_from",
    "name",
    "public",
    "rescuable",
    "role",
    "rolespec_validate",
    "tasks_from",
    "vars_from",
];

/// Tag names that are reserved for `--tags` and `--skip-tags`.
pub const RESERVED_TAGS: [&'static str; 3] = ["all", "tagged", "untagged"];

/// Keys of one `vars_prompt:` entry. A closed set.
pub const VARS_PROMPT_KEYS: [&'static str; 9] = [
    "confirm",
    "default",
    "encrypt",
    "name",
    "private",
    "prompt",
    "salt",
    "salt_size",
    "unsafe",
];

/// Play-level keys whose value is an ordered list of tasks and blocks.
pub const PLAY_TASK_CONTAINERS: [&'static str; 4] = ["pre_tasks", "tasks", "post_tasks", "handlers"];

/// Block-level keys whose value is an ordered list of tasks and blocks.
pub const BLOCK_TASK_CONTAINERS: [&'static str; 3] = ["block", "rescue", "always"];

/// A place a YAML key can appear, each with its own legal keyword set.
#[derive(Debug, Clone, Copy, PartialEq, Eq, Structural)]
pub enum KeyContext {
    Play,
    Block,
    Task,
    Handler,
    /// A task whose action is `include_tasks` or `include_role`.
    DynamicInclude,
    /// A dynamic include in handler position: the restricted set plus `listen`.
    DynamicHandlerInclude,
    /// `meta/main.yml`.
    RoleMetadata,
    /// The mapping under `loop_control:`.
    LoopControl,
}

/// Is `key` one of the words of a table?
pub open spec fn listed(table: Seq<&'static str>, key: Seq<char>) -> bool {
    exists|i: int| 0 <= i < table.len() && (#[trigger] table[i])@ == key
}

/// The mixins of everything that runs: a condition, tags, collections, delegation, handlers.
pub open spec fn runnable_mixins() -> Seq<&'static str> {
    BASE@ + CONDITIONAL@ + TAGGABLE@ + COLLECTION_SEARCH@ + DELEGATABLE@ + NOTIFIABLE@
}

/// Every key that is legal in a context. `user` on a play is a legacy spelling of `remote_user`
/// that is taken before the attributes are checked.
pub open spec fn vocabulary(ctx: KeyContext) -> Seq<&'static str> {
    match ctx {
        KeyContext::Play => BASE@ + TAGGABLE@ + COLLECTION_SEARCH@ + PLAY_OWN@ + seq!["user"],
        KeyContext::Block => runnable_mixins() + BLOCK_OWN@,
        KeyContext::Task => runnable_mixins() + TASK_OWN@,
        KeyContext::Handler => runnable_mixins() + TASK_OWN@ + HANDLER_OWN@,
        KeyContext::DynamicInclude => DYNAMIC_INCLUDE@,
        KeyContext::DynamicHandlerInclude => DYNAMIC_INCLUDE@ + HANDLER_OWN@,
        KeyContext::RoleMetadata => BASE@ + COLLECTION_SEARCH@ + ROLE_METADATA_OWN@,
        KeyContext::LoopControl => LOOP_CONTROL_KEYS@,
    }
}

/// Is `key` one of the words of a table?
pub fn in_set(table: &[&'static str], key: &str) -> (r: bool)
    ensures
        r == listed(table@, key@),
{
    let mut i: usize = 0;
    while i < table.len()
        invariant
            i <= table@.len(),
            forall|j: int| 0 <= j < i ==> (#[trigger] table@[j])@ != key@,
        decreases table@.len() - i,
    {
        if str_eq(table[i], key) {
            return true;
        }
        i += 1;
    }
    false
}

fn add_all(out: &mut Vec<&'static str>, table: &[&'static str])
    ensures
        final(out)@ == old(out)@ + table@,
{
    let ghost before = out@;
    let mut i: usize = 0;
    while i < table.len()
        invariant
            i <= table@.len(),
            out@ == before + table@.subrange(0, i as int),
        decreases table@.len() - i,
    {
        out.push(table[i]);
        i += 1;
        assert(table@.subrange(0, i as int) =~= table@.subrange(0, i - 1).push(table@[i - 1]));
    }
    assert(table@.subrange(0, table@.len() as int) =~= table@);
}

/// The tables whose union is the legal vocabulary of everything that runs.
fn add_runnable(out: &mut Vec<&'static str>)
    ensures
        final(out)@ == old(out)@ + runnable_mixins(),
{
    let ghost before = out@;
    add_all(out, &BASE);
    add_all(out, &CONDITIONAL);
    add_all(out, &TAGGABLE);
    add_all(out, &COLLECTION_SEARCH);
    add_all(out, &DELEGATABLE);
    add_all(out, &NOTIFIABLE);
    assert(out@ =~= before + runnable_mixins());
}

/// Every key that [`legal_key`] accepts in `ctx`, unsorted.
pub fn legal_keys(ctx: KeyContext) -> (r: Vec<&'static str>)
    ensures
        r@ == vocabulary(ctx),
{
    let mut out: Vec<&'static str> = Vec::new();
    match ctx {
        KeyContext::Play => {
            add_all(&mut out, &BASE);
            add_all(&mut out, &TAGGABLE);
            add_all(&mut out, &COLLECTION_SEARCH);
            add_all(&mut out, &PLAY_OWN);
            out.push("user");
        },
        KeyContext::Block => {
            add_runnable(&mut out);
            add_all(&mut out, &BLOCK_OWN);
        },
        KeyContext::Task => {
            add_runnable(&mut out);
            add_all(&mut out, &TASK_OWN);
        },
        KeyContext::Handler => {
            add_runnable(&mut out);
            add_all(&mut out, &TASK_OWN);
            add_all(&mut out, &HANDLER_OWN);
        },
        KeyContext::DynamicInclude => {
            add_all(&mut out, &DYNAMIC_INCLUDE);
        },
        KeyContext::DynamicHandlerInclude => {
            add_all(&mut out, &DYNAMIC_INCLUDE);
            add_all(&mut out, &HANDLER_OWN);
        },
        KeyContext::RoleMetadata => {
            add_all(&mut out, &BASE);
            add_all(&mut out, &COLLECTION_SEARCH);
            add_all(&mut out, &ROLE_METADATA_OWN);
        },
        KeyContext::LoopControl => {
            add_all(&mut out, &LOOP_CONTROL_KEYS);
        },
    }
    assert(out@ =~= vocabulary(ctx));
    out
}

/// Is `key` accepted by ansible-core in this context? Exact.
///
/// The module key on a task and `local_action`/`with_*` are *not* in these sets: the argument
/// parser takes them before validation, so callers must leave them out first.
pub fn legal_key(ctx: KeyContext, key: &str) -> (r: bool)
    ensures
        r == listed(vocabulary(ctx), key@),
{
    in_set(&legal_keys(ctx), key)
}

/// The action that a task key names. A bare key and the two spellings under
/// `ansible.builtin.` and `ansible.legacy.` name the same core action; any other key is whole.
pub open spec fn action_named(key: Seq<char>) -> Seq<char> {
    if text::begins_with(key, "ansible.builtin."@) {
        key.subrange("ansible.builtin."@.len() as int, key.len() as int)
    } else if text::begins_with(key, "ansible.legacy."@) {
        key.subrange("ansible.legacy."@.len() as int, key.len() as int)
    } else {
        key
    }
}

/// The action name of a task key, for exactly the spellings Ansible recognises as core: bare,
/// `ansible.builtin.`- or `ansible.legacy.`-prefixed. Any other dotted key comes back whole, so
/// it never equals a bare action name.
pub fn core_action(key: &str) -> (r: &str)
    ensures
        r@ == action_named(key@),
{
    match strip_prefix(key, "ansible.builtin.") {
        Some(rest) => rest,
        None => match strip_prefix(key, "ansible.legacy.") {
            Some(rest) => rest,
            None => key,
        },
    }
}

/// Is the word a directive on a task?
pub open spec fn task_directive(key: Seq<char>) -> bool {
    ||| text::begins_with(key, "with_"@)
    ||| key == "local_action"@
    ||| listed(vocabulary(KeyContext::Handler), key)
}

/// Is `key` an Ansible directive on a task (as opposed to the module)? `key` is the bare key:
/// directives are never fully qualified, so a dotted key is always the module. Every `with_*`
/// loop counts as a directive.
pub fn is_task_directive(key: &str) -> (r: bool)
    ensures
        r == task_directive(key@),
{
    starts_with(key, "with_") || str_eq(key, "local_action") || legal_key(KeyContext::Handler, key)
}

/// Is `key` a directive on a play? Lenient: the whole task vocabulary is accepted too.
pub fn is_play_directive(key: &str) -> (r: bool)
    ensures
        r == (listed(vocabulary(KeyContext::Play), key@) || task_directive(key@)),
{
    legal_key(KeyContext::Play, key) || is_task_directive(key)
}

/// Is `key` a directive on a block?
pub fn is_block_directive(key: &str) -> (r: bool)
    ensures
        r == (listed(vocabulary(KeyContext::Block), key@) || listed(BLOCK_OWN@, key@)),
{
    legal_key(KeyContext::Block, key) || in_set(&BLOCK_OWN, key)
}

/// Does this key make its mapping an entry of a playbook?
pub open spec fn play_key(key: Seq<char>) -> bool {
    key == "hosts"@ || action_named(key) == "import_playbook"@
}

/// Does this key make its mapping an entry of a playbook? Plays are the only nodes with
/// `hosts:`, and `import_playbook:` entries sit beside them.
pub fn is_play_key(key: &str) -> (r: bool)
    ensures
        r == play_key(key@),
{
    str_eq(key, "hosts") || str_eq(core_action(key), "import_playbook")
}

/// Does a mapping with these keys look like a play?
pub fn is_play(keys: &[&str]) -> (r: bool)
    ensures
        r == (exists|i: int| 0 <= i < keys@.len() && play_key((#[trigger] keys@[i])@)),
{
    let mut i: usize = 0;
    while i < keys.len()
        invariant
            i <= keys@.len(),
            forall|j: int| 0 <= j < i ==> !play_key((#[trigger] keys@[j])@),
        decreases keys@.len() - i,
    {
        if is_play_key(keys[i]) {
            return true;
        }
        i += 1;
    }
    false
}

/// Every key that is legal on a task is legal on a handler, and a handler takes `listen`
/// besides.
pub proof fn handler_extends_task(key: Seq<char>)
    ensures
        listed(vocabulary(KeyContext::Handler), key) <==> (listed(
            vocabulary(KeyContext::Task),
            key,
        ) || listed(HANDLER_OWN@, key)),
{
    let t = vocabulary(KeyContext::Task);
    let h = vocabulary(KeyContext::Handler);
    assert(h =~= t + HANDLER_OWN@);
    if listed(t, key) {
        let i = choose|i: int| 0 <= i < t.len() && (#[trigger] t[i])@ == key;
        assert(h[i]@ == key);
    }
    if listed(HANDLER_OWN@, key) {
        let i = choose|i: int| 0 <= i < HANDLER_OWN@.len() && (#[trigger] HANDLER_OWN@[i])@ == key;
        assert(h[t.len() + i]@ == key);
    }
    if listed(h, key) {
        let i = choose|i: int| 0 <= i < h.len() && (#[trigger] h[i])@ == key;
        if i < t.len() {
            assert(t[i]@ == key);
        } else {
            assert(HANDLER_OWN@[i - t.len()]@ == key);
        }
    }
}

/// Every key that is legal on a handler is a task directive: what validation accepts, module
/// detection never takes for a module.
pub proof fn legal_keys_are_directives(key: Seq<char>)
    ensures
        listed(vocabulary(KeyContext::Task), key) ==> task_directive(key),
        listed(vocabulary(KeyContext::Handler), key) ==> task_directive(key),
{
    handler_extends_task(key);
}

/// The three spellings of a core action, and nothing else, name it.
pub proof fn spellings_of_an_action(key: Seq<char>, action: Seq<char>)
    requires
        !text::begins_with(action, "ansible.builtin."@),
        !text::begins_with(action, "ansible.legacy."@),
    ensures
        action_named(key) == action <==> (key == action || key == "ansible.builtin."@ + action
            || key == "ansible.legacy."@ + action),
{
    reveal_strlit("ansible.builtin.");
    reveal_strlit("ansible.legacy.");
    let b = "ansible.builtin."@;
    let l = "ansible.legacy."@;
    assert((b + action).subrange(0, b.len() as int) =~= b);
    assert((b + action).subrange(b.len() as int, (b + action).len() as int) =~= action);
    assert((l + action).subrange(0, l.len() as int) =~= l);
    assert((l + action).subrange(l.len() as int, (l + action).len() as int) =~= action);
    assert((l + action)[8] == 'l');
    if text::begins_with(l + action, b) {
        assert((l + action).subrange(0, b.len() as int)[8] == b[8]);
    }
    if text::begins_with(key, b) {
        assert(key =~= b + key.subrange(b.len() as int, key.len() as int));
    } else if text::begins_with(key, l) {
        assert(key =~= l + key.subrange(l.len() as int, key.len() as int));
    }
}

} // verus!
