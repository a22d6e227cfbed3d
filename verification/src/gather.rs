//! What the references of a play and of its tasks are: those of every task in every list, in the
//! order in which they are written, whatever key the list stands under.

use vstd::prelude::*;

use crate::ast::{self, ActionModel};
use crate::keywords;
use crate::parse::{self, Node, Span};
use crate::placement;
use crate::references::{self, RefModel, ReferenceKind};
use crate::text;

verus! {

// ------------------------------------------------------------------ what stands under a key

/// Is the key of an entry this word?
pub open spec fn named(entry: (Node, Node), key: Seq<char>) -> bool {
    match entry.0 {
        Node::Scalar { value, .. } => value@ == key,
        _ => false,
    }
}

/// Does a mapping hold the value under the key? The last entry of that key counts.
pub open spec fn holds(node: Node, key: Seq<char>, v: Node) -> bool {
    match node {
        Node::Mapping { entries, .. } => exists|i: int|
            0 <= i < entries@.len() && named(#[trigger] entries@[i], key) && entries@[i].1 == v
                && forall|j: int| i < j < entries@.len() ==> !named(#[trigger] entries@[j], key),
        _ => false,
    }
}

/// Does a mapping have the key?
pub open spec fn with_key(node: Node, key: Seq<char>) -> bool {
    match node {
        Node::Mapping { entries, .. } => exists|i: int|
            0 <= i < entries@.len() && named(#[trigger] entries@[i], key),
        _ => false,
    }
}

/// Is the node a list of these?
pub open spec fn is_list(v: Node, of: Seq<Node>) -> bool {
    match v {
        Node::Sequence { items, .. } => items@ == of,
        _ => false,
    }
}

/// Does a mapping list these under the key?
pub open spec fn lists(node: Node, key: Seq<char>, of: Seq<Node>) -> bool {
    exists|v: Node| #[trigger] holds(node, key, v) && is_list(v, of)
}

/// These are the entries under the key, none where the key is not there.
pub open spec fn tasks_of(node: Node, key: Seq<char>, of: Seq<Node>) -> bool {
    lists(node, key, of) || (!with_key(node, key) && of.len() == 0)
}

/// Do two mappings hold the same under the key?
pub open spec fn alike(a: Node, b: Node, key: Seq<char>) -> bool {
    (!with_key(a, key) && !with_key(b, key)) || exists|v: Node| #[trigger]
        holds(a, key, v) && holds(b, key, v)
}

pub proof fn held_value(node: Node, key: Seq<char>)
    ensures
        forall|v: Node| #[trigger] holds(node, key, v) ==> node.value_of(key) == Some(v),
        !with_key(node, key) ==> node.value_of(key) is None,
        with_key(node, key) ==> node.value_of(key) is Some && holds(
            node,
            key,
            node.value_of(key)->0,
        ),
{
    let entries = node.pairs();
    parse::last_key_is_last(entries, key, entries.len() as int);
    assert forall|i: int| 0 <= i < entries.len() implies named(#[trigger] entries[i], key)
        == parse::keyed(entries[i], key) by {}
    if let Some(k) = parse::last_key(entries, key, entries.len() as int) {
        assert(named(entries[k], key));
        assert forall|j: int| k < j < entries.len() implies !named(#[trigger] entries[j], key) by {
            assert(!parse::keyed(entries[j], key));
        }
    } else {
        assert forall|j: int| 0 <= j < entries.len() implies !named(#[trigger] entries[j], key) by {
            assert(!parse::keyed(entries[j], key));
        }
    }
    assert forall|v: Node| #[trigger] holds(node, key, v) implies node.value_of(key) == Some(v) by {
        let i = choose|i: int|
            0 <= i < entries.len() && named(#[trigger] entries[i], key) && entries[i].1 == v
                && forall|j: int| i < j < entries.len() ==> !named(#[trigger] entries[j], key);
        let k = parse::last_key(entries, key, entries.len() as int)->0;
        assert(parse::keyed(entries[i], key));
        if k < i {
            assert(!parse::keyed(entries[i], key));
        }
        if i < k {
            assert(!named(entries[k], key));
        }
    }
}

pub proof fn listed_is(node: Node, key: Seq<char>, of: Seq<Node>)
    requires
        tasks_of(node, key, of),
    ensures
        placement::listed_under(node, key) == of,
{
    held_value(node, key);
    if lists(node, key, of) {
        let v = choose|v: Node| #[trigger] holds(node, key, v) && is_list(v, of);
        assert(node.value_of(key) == Some(v));
    } else {
        assert(of =~= Seq::empty());
    }
}

// ------------------------------------------------------------------ the references of a list

/// The references of tasks, one after the other.
pub open spec fn of_tasks(items: Seq<Node>) -> Seq<RefModel>
    decreases items.len(),
{
    if items.len() == 0 {
        Seq::empty()
    } else {
        references::stmt_refs(items[0]) + of_tasks(items.subrange(1, items.len() as int))
    }
}

proof fn of_tasks_ends(items: Seq<Node>)
    requires
        items.len() > 0,
    ensures
        of_tasks(items) == of_tasks(items.drop_last()) + references::stmt_refs(items.last()),
    decreases items.len(),
{
    let rest = items.subrange(1, items.len() as int);
    if items.len() == 1 {
        assert(rest =~= Seq::empty());
        assert(items.drop_last() =~= Seq::empty());
        assert(of_tasks(rest) == Seq::<RefModel>::empty());
        assert(of_tasks(items) == references::stmt_refs(items[0]) + of_tasks(rest));
        assert(of_tasks(items) =~= of_tasks(items.drop_last()) + references::stmt_refs(
            items.last(),
        ));
    } else {
        of_tasks_ends(rest);
        assert(rest.drop_last() =~= items.drop_last().subrange(1, items.len() - 1));
        assert(rest.last() == items.last());
        assert(of_tasks(items) =~= of_tasks(items.drop_last()) + references::stmt_refs(
            items.last(),
        ));
    }
}

pub proof fn list_is_of_tasks(items: Seq<Node>, n: int)
    requires
        0 <= n <= items.len(),
    ensures
        references::list_refs(items, n) == of_tasks(items.subrange(0, n)),
    decreases n,
{
    let part = items.subrange(0, n);
    if n == 0 {
        assert(part =~= Seq::empty());
    } else {
        list_is_of_tasks(items, n - 1);
        of_tasks_ends(part);
        assert(part.drop_last() =~= items.subrange(0, n - 1));
        reveal_with_fuel(references::list_refs, 2);
        reveal_with_fuel(references::stmt_refs, 2);
    }
}

pub proof fn held_is_of_tasks(node: Node, key: Seq<char>, of: Seq<Node>)
    requires
        tasks_of(node, key, of),
    ensures
        references::held_refs(node, key) == of_tasks(of),
{
    listed_is(node, key, of);
    list_is_of_tasks(of, of.len() as int);
    assert(of.subrange(0, of.len() as int) =~= of);
    reveal_with_fuel(references::held_refs, 2);
    reveal_with_fuel(references::list_refs, 2);
}

/// Every reference of a task is among those of its list.
proof fn one_of_tasks(items: Seq<Node>, i: int)
    requires
        0 <= i < items.len(),
    ensures
        forall|r: RefModel| #[trigger]
            references::stmt_refs(items[i]).contains(r) ==> of_tasks(items).contains(r),
    decreases items.len(),
{
    let rest = items.subrange(1, items.len() as int);
    assert forall|r: RefModel| #[trigger]
        references::stmt_refs(items[i]).contains(r) implies of_tasks(items).contains(r) by {
        if i == 0 {
            in_first(references::stmt_refs(items[0]), of_tasks(rest), r);
        } else {
            assert(rest[i - 1] == items[i]);
            one_of_tasks(rest, i - 1);
            in_second(references::stmt_refs(items[0]), of_tasks(rest), r);
        }
    }
}

pub proof fn in_first(a: Seq<RefModel>, b: Seq<RefModel>, r: RefModel)
    requires
        a.contains(r),
    ensures
        (a + b).contains(r),
{
    let k = choose|k: int| 0 <= k < a.len() && a[k] == r;
    assert((a + b)[k] == r);
}

pub proof fn in_second(a: Seq<RefModel>, b: Seq<RefModel>, r: RefModel)
    requires
        b.contains(r),
    ensures
        (a + b).contains(r),
{
    let k = choose|k: int| 0 <= k < b.len() && b[k] == r;
    assert((a + b)[a.len() + k] == r);
}

// ------------------------------------------------------------------ plays

/// Do two plays have the same name, roles and files of variables?
pub open spec fn same_but_tasks(a: Node, b: Node) -> bool {
    alike(a, b, "name"@) && alike(a, b, "roles"@) && alike(a, b, "vars_files"@)
}

proof fn alike_value(a: Node, b: Node, key: Seq<char>)
    requires
        alike(a, b, key),
    ensures
        a.value_of(key) == b.value_of(key),
{
    held_value(a, key);
    held_value(b, key);
    if with_key(a, key) || with_key(b, key) {
        let v = choose|v: Node| #[trigger] holds(a, key, v) && holds(b, key, v);
        assert(holds(a, key, v) && holds(b, key, v));
    }
}

/// Does the play list no tasks at all?
pub open spec fn idle(node: Node) -> bool {
    !with_key(node, "pre_tasks"@) && !with_key(node, "tasks"@) && !with_key(node, "post_tasks"@) && !with_key(
        node,
        "handlers"@,
    )
}

/// The references of a play are those that it would have without tasks, and behind them those of
/// the tasks under `pre_tasks`, `tasks`, `post_tasks` and `handlers`.
pub proof fn a_play_gathers_its_tasks(
    node: Node,
    bare: Node,
    pre: Seq<Node>,
    main: Seq<Node>,
    post: Seq<Node>,
    handlers: Seq<Node>,
)
    requires
        same_but_tasks(node, bare),
        idle(bare),
        tasks_of(node, "pre_tasks"@, pre),
        tasks_of(node, "tasks"@, main),
        tasks_of(node, "post_tasks"@, post),
        tasks_of(node, "handlers"@, handlers),
    ensures
        references::play_refs(node) == references::play_refs(bare) + of_tasks(pre) + of_tasks(main)
            + of_tasks(post) + of_tasks(handlers),
{
    alike_value(node, bare, "name"@);
    alike_value(node, bare, "roles"@);
    alike_value(node, bare, "vars_files"@);
    held_is_of_tasks(node, "pre_tasks"@, pre);
    held_is_of_tasks(node, "tasks"@, main);
    held_is_of_tasks(node, "post_tasks"@, post);
    held_is_of_tasks(node, "handlers"@, handlers);
    let none = Seq::<Node>::empty();
    held_is_of_tasks(bare, "pre_tasks"@, none);
    held_is_of_tasks(bare, "tasks"@, none);
    held_is_of_tasks(bare, "post_tasks"@, none);
    held_is_of_tasks(bare, "handlers"@, none);
    let nothing = Seq::<RefModel>::empty();
    assert(of_tasks(none) == nothing);
    let play = ast::word_under(node, "name"@);
    let roles = placement::listed_under(node, "roles"@);
    let head = references::role_entries(roles, roles.len() as int, play) + references::vars_files(
        node.value_of("vars_files"@),
        play,
    );
    assert(references::play_refs(bare) == head + nothing + nothing + nothing + nothing);
    assert(head + nothing + nothing + nothing + nothing =~= head);
}

/// A list of tasks gives the same references under each of the keys for tasks.
pub proof fn tasks_may_move(a: Node, b: Node, from: Seq<char>, to: Seq<char>, of: Seq<Node>)
    requires
        task_key(from),
        task_key(to),
        same_but_tasks(a, b),
        lists(a, from, of),
        lists(b, to, of),
        forall|key: Seq<char>| #[trigger] task_key(key) && key != from ==> !with_key(a, key),
        forall|key: Seq<char>| #[trigger] task_key(key) && key != to ==> !with_key(b, key),
    ensures
        references::play_refs(a) == references::play_refs(b),
{
    task_keys_differ();
    assert(task_key("pre_tasks"@) && task_key("tasks"@) && task_key("post_tasks"@) && task_key(
        "handlers"@,
    ));
    alike_value(a, b, "name"@);
    alike_value(a, b, "roles"@);
    alike_value(a, b, "vars_files"@);
    one_list(a, from, of);
    one_list(b, to, of);
}

/// The keys under which a play lists tasks.
pub open spec fn task_key(key: Seq<char>) -> bool {
    key == "pre_tasks"@ || key == "tasks"@ || key == "post_tasks"@ || key == "handlers"@
}

pub proof fn task_keys_differ()
    ensures
        "pre_tasks"@ != "tasks"@,
        "pre_tasks"@ != "post_tasks"@,
        "pre_tasks"@ != "handlers"@,
        "tasks"@ != "post_tasks"@,
        "tasks"@ != "handlers"@,
        "post_tasks"@ != "handlers"@,
{
    reveal_strlit("pre_tasks");
    reveal_strlit("tasks");
    reveal_strlit("post_tasks");
    reveal_strlit("handlers");
    assert("pre_tasks"@.len() == 9 && "tasks"@.len() == 5 && "post_tasks"@.len() == 10);
    assert("handlers"@.len() == 8);
}

/// The references of a play with one list.
proof fn one_list(node: Node, key: Seq<char>, of: Seq<Node>)
    requires
        task_key(key),
        lists(node, key, of),
        forall|k: Seq<char>| #[trigger] task_key(k) && k != key ==> !with_key(node, k),
    ensures
        ({
            let play = ast::word_under(node, "name"@);
            let roles = placement::listed_under(node, "roles"@);
            references::play_refs(node) == references::role_entries(
                roles,
                roles.len() as int,
                play,
            ) + references::vars_files(node.value_of("vars_files"@), play) + of_tasks(of)
        }),
{
    task_keys_differ();
    let none = Seq::<Node>::empty();
    let nothing = Seq::<RefModel>::empty();
    assert(of_tasks(none) == nothing);
    held_is_of_tasks(node, key, of);
    assert(task_key("pre_tasks"@) && task_key("tasks"@) && task_key("post_tasks"@) && task_key(
        "handlers"@,
    ));
    if key != "pre_tasks"@ {
        held_is_of_tasks(node, "pre_tasks"@, none);
    }
    if key != "tasks"@ {
        held_is_of_tasks(node, "tasks"@, none);
    }
    if key != "post_tasks"@ {
        held_is_of_tasks(node, "post_tasks"@, none);
    }
    if key != "handlers"@ {
        held_is_of_tasks(node, "handlers"@, none);
    }
    let play = ast::word_under(node, "name"@);
    let roles = placement::listed_under(node, "roles"@);
    let head = references::role_entries(roles, roles.len() as int, play) + references::vars_files(
        node.value_of("vars_files"@),
        play,
    );
    assert(references::play_refs(node) =~= head + of_tasks(of));
}

// ------------------------------------------------------------------ blocks

/// Is the node a block: does it have one of the three keys that hold tasks?
pub open spec fn is_block(node: Node) -> bool {
    with_key(node, "block"@) || with_key(node, "rescue"@) || with_key(node, "always"@)
}

/// The references of a block are those of its tasks, then those of `rescue`, then those of
/// `always`.
pub proof fn a_block_gathers_its_tasks(
    node: Node,
    body: Seq<Node>,
    rescue: Seq<Node>,
    always: Seq<Node>,
)
    requires
        is_block(node),
        tasks_of(node, "block"@, body),
        tasks_of(node, "rescue"@, rescue),
        tasks_of(node, "always"@, always),
    ensures
        references::stmt_refs(node) == of_tasks(body) + of_tasks(rescue) + of_tasks(always),
{
    held_value(node, "block"@);
    held_value(node, "rescue"@);
    held_value(node, "always"@);
    held_is_of_tasks(node, "block"@, body);
    held_is_of_tasks(node, "rescue"@, rescue);
    held_is_of_tasks(node, "always"@, always);
    reveal_with_fuel(references::stmt_refs, 2);
    reveal_with_fuel(references::held_refs, 2);
}

/// A mapping that is no block is a task.
pub proof fn other_mappings_are_tasks(node: Node)
    requires
        node is Mapping,
        !is_block(node),
    ensures
        references::stmt_refs(node) == references::task_refs(node),
{
    held_value(node, "block"@);
    held_value(node, "rescue"@);
    held_value(node, "always"@);
    reveal_with_fuel(references::stmt_refs, 2);
}

/// Does the node hold the task, in blocks at most `n` deep?
pub open spec fn within(node: Node, task: Node, n: nat) -> bool
    decreases n,
{
    ||| node == task
    ||| n > 0 && exists|key: Seq<char>, items: Seq<Node>, i: int|
        (key == "block"@ || key == "rescue"@ || key == "always"@) && #[trigger] lists(
            node,
            key,
            items,
        ) && 0 <= i < items.len() && within(#[trigger] items[i], task, (n - 1) as nat)
}

pub proof fn listed_key(node: Node, key: Seq<char>, of: Seq<Node>)
    requires
        lists(node, key, of),
    ensures
        with_key(node, key),
        node is Mapping,
{
    let v = choose|v: Node| #[trigger] holds(node, key, v) && is_list(v, of);
    assert(holds(node, key, v));
}

/// Every reference of a task inside of blocks is a reference of the outermost block.
pub proof fn a_task_in_blocks_is_heard(node: Node, task: Node, n: nat, r: RefModel)
    requires
        within(node, task, n),
        references::stmt_refs(task).contains(r),
    ensures
        references::stmt_refs(node).contains(r),
    decreases n,
{
    if node != task {
        let (key, items, i) = choose|key: Seq<char>, items: Seq<Node>, i: int|
            (key == "block"@ || key == "rescue"@ || key == "always"@) && #[trigger] lists(
                node,
                key,
                items,
            ) && 0 <= i < items.len() && within(#[trigger] items[i], task, (n - 1) as nat);
        a_task_in_blocks_is_heard(items[i], task, (n - 1) as nat, r);
        one_of_tasks(items, i);
        held_is_of_tasks(node, key, items);
        listed_key(node, key, items);
        held_value(node, "block"@);
        held_value(node, "rescue"@);
        held_value(node, "always"@);
        let a = references::held_refs(node, "block"@);
        let b = references::held_refs(node, "rescue"@);
        let c = references::held_refs(node, "always"@);
        if key == "block"@ {
            in_first(a, b, r);
            in_first(a + b, c, r);
        } else if key == "rescue"@ {
            in_second(a, b, r);
            in_first(a + b, c, r);
        } else {
            in_second(a + b, c, r);
        }
        reveal_with_fuel(references::stmt_refs, 2);
        reveal_with_fuel(references::held_refs, 2);
    }
}

/// Every reference of every task of a play is a reference of the play, whichever of the four keys
/// lists the task and however deep in blocks it stands.
pub proof fn every_task_of_a_play_is_heard(
    node: Node,
    key: Seq<char>,
    items: Seq<Node>,
    i: int,
    task: Node,
    n: nat,
    r: RefModel,
)
    requires
        task_key(key),
        lists(node, key, items),
        0 <= i < items.len(),
        within(items[i], task, n),
        references::stmt_refs(task).contains(r),
    ensures
        references::play_refs(node).contains(r),
{
    a_task_in_blocks_is_heard(items[i], task, n, r);
    one_of_tasks(items, i);
    held_is_of_tasks(node, key, items);
    let play = ast::word_under(node, "name"@);
    let roles = placement::listed_under(node, "roles"@);
    let head = references::role_entries(roles, roles.len() as int, play) + references::vars_files(
        node.value_of("vars_files"@),
        play,
    );
    let a = references::held_refs(node, "pre_tasks"@);
    let b = references::held_refs(node, "tasks"@);
    let c = references::held_refs(node, "post_tasks"@);
    let d = references::held_refs(node, "handlers"@);
    if key == "pre_tasks"@ {
        in_second(head, a, r);
        in_first(head + a, b, r);
        in_first(head + a + b, c, r);
        in_first(head + a + b + c, d, r);
    } else if key == "tasks"@ {
        in_second(head + a, b, r);
        in_first(head + a + b, c, r);
        in_first(head + a + b + c, d, r);
    } else if key == "post_tasks"@ {
        in_second(head + a + b, c, r);
        in_first(head + a + b + c, d, r);
    } else {
        in_second(head + a + b + c, d, r);
    }
}

} // verus!
