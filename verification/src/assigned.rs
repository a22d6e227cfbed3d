//! Which names a file assigns while it runs: the facts and the results that any of its tasks sets.

use vstd::prelude::*;

use crate::ast::{self, ActionModel};
use crate::gather;
use crate::mutation;
use crate::parse::Node;
use crate::placement;
use crate::references::ReferenceKind;
use crate::targets;

verus! {

/// A `set_fact` assigns each of its keys but `cacheable`, and nothing else does so, other than a
/// `register` with the name that it holds.
pub proof fn a_task_assigns_facts_and_results(node: Node, a: ActionModel, name: Seq<char>)
    requires
        ast::action_of(node) == Some(a),
    ensures
        mutation::task_assigns(node, name) <==> {
            ||| targets::calls(a.name, "set_fact"@) && name != "cacheable"@ && gather::with_key(
                a.args,
                name,
            )
            ||| exists|v: Node| #[trigger]
                gather::holds(node, "register"@, v) && v is Scalar && v->value@ == name
        },
{
    reveal_strlit("set_fact");
    assert("set_fact"@.len() == 8 && "set_fact"@[0] == 's');
    action_is(a.name);
    gather::held_value(node, "register"@);
    let entries = a.args.pairs();
    assert forall|i: int| 0 <= i < entries.len() implies gather::named(#[trigger] entries[i], name)
        == (entries[i].0.word() == Some(name)) by {}
    if gather::with_key(a.args, name) {
        let i = choose|i: int|
            0 <= i < entries.len() && gather::named(#[trigger] entries[i], name);
        assert(entries[i].0.word() == Some(name));
    }
    if ast::word_under(node, "register"@) == Some(name) {
        let v = node.value_of("register"@)->0;
        assert(gather::with_key(node, "register"@));
        assert(gather::holds(node, "register"@, v));
    }
}

proof fn action_is(key: Seq<char>)
    ensures
        crate::keywords::action_named(key) == "set_fact"@ <==> targets::calls(key, "set_fact"@),
{
    reveal_strlit("set_fact");
    reveal_strlit("ansible.builtin.");
    reveal_strlit("ansible.legacy.");
    let a = "set_fact"@;
    assert(a.len() == 8 && "ansible.builtin."@.len() == 16 && "ansible.legacy."@.len() == 15);
    crate::keywords::spellings_of_an_action(key, a);
}

proof fn one_of_list(items: Seq<Node>, n: int, i: int, name: Seq<char>)
    requires
        0 <= i < n <= items.len(),
        mutation::stmt_assigns(items[i], name),
    ensures
        mutation::list_assigns(items, n, name),
    decreases n,
{
    if i < n - 1 {
        one_of_list(items, n - 1, i, name);
    }
    reveal_with_fuel(mutation::list_assigns, 2);
    reveal_with_fuel(mutation::stmt_assigns, 2);
}

proof fn one_of_held(node: Node, key: Seq<char>, items: Seq<Node>, i: int, name: Seq<char>)
    requires
        gather::lists(node, key, items),
        0 <= i < items.len(),
        mutation::stmt_assigns(items[i], name),
    ensures
        mutation::held_assigns(node, key, name),
{
    gather::listed_is(node, key, items);
    one_of_list(items, items.len() as int, i, name);
    reveal_with_fuel(mutation::held_assigns, 2);
    reveal_with_fuel(mutation::list_assigns, 2);
}

/// What a task in blocks assigns, the outermost block assigns.
pub proof fn a_block_assigns_what_its_tasks_do(node: Node, task: Node, n: nat, name: Seq<char>)
    requires
        gather::within(node, task, n),
        mutation::stmt_assigns(task, name),
    ensures
        mutation::stmt_assigns(node, name),
    decreases n,
{
    if node != task {
        let (key, items, i) = choose|key: Seq<char>, items: Seq<Node>, i: int|
            (key == "block"@ || key == "rescue"@ || key == "always"@) && #[trigger] gather::lists(
                node,
                key,
                items,
            ) && 0 <= i < items.len() && gather::within(#[trigger] items[i], task, (n - 1) as nat);
        a_block_assigns_what_its_tasks_do(items[i], task, (n - 1) as nat, name);
        one_of_held(node, key, items, i, name);
        gather::listed_key(node, key, items);
        gather::held_value(node, "block"@);
        gather::held_value(node, "rescue"@);
        gather::held_value(node, "always"@);
        reveal_with_fuel(mutation::stmt_assigns, 2);
        reveal_with_fuel(mutation::held_assigns, 2);
    }
}

/// What a task of a play assigns, the play assigns, whichever of the four keys lists the task.
pub proof fn a_play_assigns_what_its_tasks_do(
    node: Node,
    key: Seq<char>,
    items: Seq<Node>,
    i: int,
    task: Node,
    n: nat,
    name: Seq<char>,
)
    requires
        gather::task_key(key),
        gather::lists(node, key, items),
        ast::imported(node) is None,
        0 <= i < items.len(),
        gather::within(items[i], task, n),
        mutation::stmt_assigns(task, name),
    ensures
        mutation::item_assigns(node, name),
{
    a_block_assigns_what_its_tasks_do(items[i], task, n, name);
    one_of_held(node, key, items, i, name);
    gather::listed_key(node, key, items);
}

/// What an entry of a playbook assigns, the file assigns; and so with the tasks of a file of tasks.
pub proof fn a_file_assigns_what_its_entries_do(
    nodes: Seq<Node>,
    items: Seq<Node>,
    i: int,
    name: Seq<char>,
)
    requires
        nodes.len() > 0,
        gather::is_list(nodes[0], items),
        0 <= i < items.len(),
        if placement::has_play(items) {
            mutation::item_assigns(items[i], name)
        } else {
            mutation::stmt_assigns(items[i], name)
        },
    ensures
        mutation::assigns(nodes, name),
{
    reveal_with_fuel(placement::first_sequence, 2);
    if placement::has_play(items) {
        one_of_items(items, items.len() as int, i, name);
    } else {
        one_of_list(items, items.len() as int, i, name);
    }
}

proof fn one_of_items(items: Seq<Node>, n: int, i: int, name: Seq<char>)
    requires
        0 <= i < n <= items.len(),
        mutation::item_assigns(items[i], name),
    ensures
        mutation::items_assign(items, n, name),
    decreases n,
{
    if i < n - 1 {
        one_of_items(items, n - 1, i, name);
    }
}

/// Roles, task files and playbooks are walked for assignments; files of variables, templates and
/// modules are not.
pub proof fn what_is_walked(kind: ReferenceKind)
    ensures
        mutation::follows(kind) <==> !(kind is Module || kind is IncludeVars || kind
            is IncludeVarsDir || kind is TemplateSrc || kind is VarsFiles),
{
}

} // verus!
