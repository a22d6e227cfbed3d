//! What is wrong with a play and with its tasks: which entries are refused, by the keys that they
//! have and by the place where they stand.

use vstd::prelude::*;

use crate::gather;
use crate::keywords;
use crate::parse::{self, Node, Span};
use crate::placement::{self, On, Pos, ProblemModel, Tier};
use crate::targets;
use crate::text;

verus! {

// ------------------------------------------------------------------ keys

/// Does the key of the entry name the action, bare or behind a prefix of the core?
pub open spec fn names(entry: (Node, Node), action: Seq<char>) -> bool {
    match entry.0 {
        Node::Scalar { value, .. } => targets::calls(value@, action),
        _ => false,
    }
}

/// Does a mapping have a key that names the action?
pub open spec fn acts(node: Node, action: Seq<char>) -> bool {
    exists|i: int| 0 <= i < node.pairs().len() && names(#[trigger] node.pairs()[i], action)
}

/// Does the mapping hold this word under the action? The last entry of it counts.
pub open spec fn acts_on(node: Node, action: Seq<char>, word: Seq<char>) -> bool {
    exists|i: int|
        0 <= i < node.pairs().len() && names(#[trigger] node.pairs()[i], action)
            && node.pairs()[i].1 is Scalar && node.pairs()[i].1->value@ == word && forall|j: int|
            i < j < node.pairs().len() ==> !names(#[trigger] node.pairs()[j], action)
}

proof fn same_names(entry: (Node, Node), action: Seq<char>)
    requires
        action.len() > 0,
        action[0] != 'a',
    ensures
        names(entry, action) == placement::names_action(entry, action),
{
    if let Node::Scalar { value, .. } = entry.0 {
        let key = value@;
        let b = "ansible.builtin."@;
        let l = "ansible.legacy."@;
        if targets::calls(key, action) {
            targets::core_is_bare(key, action);
        } else if text::begins_with(key, b) {
            assert(key =~= b + key.subrange(b.len() as int, key.len() as int));
        } else if text::begins_with(key, l) {
            assert(key =~= l + key.subrange(l.len() as int, key.len() as int));
        }
    }
}

proof fn last_action_is_last(entries: Seq<(Node, Node)>, action: Seq<char>, n: int)
    requires
        0 <= n <= entries.len(),
    ensures
        match placement::last_action(entries, action, n) {
            Some(k) => 0 <= k < n && placement::names_action(entries[k], action) && forall|j: int|
                k < j < n ==> !#[trigger] placement::names_action(entries[j], action),
            None => forall|j: int|
                0 <= j < n ==> !#[trigger] placement::names_action(entries[j], action),
        },
    decreases n,
{
    if n > 0 && !placement::names_action(entries[n - 1], action) {
        last_action_is_last(entries, action, n - 1);
    }
}

proof fn action_found(node: Node, action: Seq<char>)
    requires
        action.len() > 0,
        action[0] != 'a',
    ensures
        acts(node, action) == placement::action_of(node, action) is Some,
        forall|word: Seq<char>| #[trigger]
            acts_on(node, action, word) == (placement::action_of(node, action) is Some && (
            placement::action_of(node, action)->0).1.word() == Some(word)),
{
    let entries = node.pairs();
    let n = entries.len() as int;
    assert forall|i: int| 0 <= i < n implies names(#[trigger] entries[i], action)
        == placement::names_action(entries[i], action) by {
        same_names(entries[i], action);
    }
    last_action_is_last(entries, action, n);
    match placement::last_action(entries, action, n) {
        Some(k) => {
            assert(names(entries[k], action));
            assert forall|j: int| k < j < n implies !names(#[trigger] entries[j], action) by {
                assert(!placement::names_action(entries[j], action));
            }
            assert forall|word: Seq<char>| #[trigger]
                acts_on(node, action, word) implies entries[k].1.word() == Some(word) by {
                let i = choose|i: int|
                    0 <= i < n && names(#[trigger] entries[i], action) && entries[i].1 is Scalar
                        && entries[i].1->value@ == word && forall|j: int|
                        i < j < n ==> !names(#[trigger] entries[j], action);
                if i < k {
                    assert(!names(entries[k], action));
                }
                if k < i {
                    assert(!placement::names_action(entries[i], action));
                }
            }
        },
        None => {
            assert forall|j: int| 0 <= j < n implies !names(#[trigger] entries[j], action) by {
                assert(!placement::names_action(entries[j], action));
            }
        },
    }
}

// ------------------------------------------------------------------ by place

/// Is the place a handler, or in one?
pub open spec fn handler(pos: Pos) -> bool {
    pos == Pos::HandlerEntry || pos == Pos::HandlerBody
}

/// What may not stand at a place: a block inside of a handler; in handlers the role includes,
/// `end_role` and `flush_handlers`; among the tasks of a play `end_role`; and an `import_playbook`
/// in every list of tasks.
pub open spec fn out_of_place(node: Node, pos: Pos) -> bool {
    ||| pos == Pos::HandlerBody && gather::is_block(node)
    ||| handler(pos) && acts(node, "include_role"@)
    ||| handler(pos) && acts(node, "import_role"@)
    ||| handler(pos) && acts_on(node, "meta"@, "end_role"@)
    ||| handler(pos) && acts_on(node, "meta"@, "flush_handlers"@)
    ||| pos == Pos::PlayTasks && acts_on(node, "meta"@, "end_role"@)
    ||| acts(node, "import_playbook"@)
}

/// A statement out of its place is one error, and nothing else is said of it. In its place, no
/// rule of places speaks.
pub proof fn a_statement_out_of_place_is_refused(node: Node, pos: Pos)
    requires
        node is Mapping,
    ensures
        out_of_place(node, pos) <==> placement::refusal(node, pos, gather::is_block(node)) is Some,
        out_of_place(node, pos) ==> placement::stmt_problems(node, pos).len() == 1
            && placement::stmt_problems(node, pos)[0].tier == Tier::Error,
        !out_of_place(node, pos) && !gather::is_block(node) ==> placement::stmt_problems(node, pos)
            == placement::task_problems(node),
{
    gather::held_value(node, "block"@);
    gather::held_value(node, "rescue"@);
    gather::held_value(node, "always"@);
    targets::actions_differ();
    reveal_strlit("meta");
    assert("meta"@.len() == 4 && "meta"@[0] == 'm');
    action_found(node, "include_role"@);
    action_found(node, "import_role"@);
    action_found(node, "import_playbook"@);
    action_found(node, "meta"@);
    assert(gather::is_block(node) == placement::block_shaped(node));
    assert(acts_on(node, "meta"@, "end_role"@) == placement::meta_of(node, "end_role"@) is Some);
    assert(acts_on(node, "meta"@, "flush_handlers"@) == placement::meta_of(
        node,
        "flush_handlers"@,
    ) is Some);
    reveal_with_fuel(placement::stmt_problems, 2);
}

/// An entry of a task list that is neither a mapping nor left out is one error.
pub proof fn an_entry_must_be_a_mapping(node: Node, pos: Pos)
    ensures
        node is Scalar || node is Sequence ==> placement::stmt_problems(node, pos).len() == 1
            && placement::stmt_problems(node, pos)[0].tier == Tier::Error
            && placement::stmt_problems(node, pos)[0].span == node.at(),
        node is Null || node is Other ==> placement::stmt_problems(node, pos).len() == 0,
{
    reveal_with_fuel(placement::stmt_problems, 2);
}

// ------------------------------------------------------------------ every task is looked at

proof fn in_first(a: Seq<ProblemModel>, b: Seq<ProblemModel>, p: ProblemModel)
    requires
        a.contains(p),
    ensures
        (a + b).contains(p),
{
    let k = choose|k: int| 0 <= k < a.len() && a[k] == p;
    assert((a + b)[k] == p);
}

proof fn in_second(a: Seq<ProblemModel>, b: Seq<ProblemModel>, p: ProblemModel)
    requires
        b.contains(p),
    ensures
        (a + b).contains(p),
{
    let k = choose|k: int| 0 <= k < b.len() && b[k] == p;
    assert((a + b)[a.len() + k] == p);
}

proof fn one_of_list(items: Seq<Node>, n: int, i: int, pos: Pos, p: ProblemModel)
    requires
        0 <= i < n <= items.len(),
        placement::stmt_problems(items[i], pos).contains(p),
    ensures
        placement::list_problems(items, n, pos).contains(p),
    decreases n,
{
    let before = placement::list_problems(items, n - 1, pos);
    let last = placement::stmt_problems(items[n - 1], pos);
    if i < n - 1 {
        one_of_list(items, n - 1, i, pos, p);
        in_first(before, last, p);
    } else {
        in_second(before, last, p);
    }
    reveal_with_fuel(placement::list_problems, 2);
    reveal_with_fuel(placement::stmt_problems, 2);
    assert(placement::list_problems(items, n, pos) == before + last);
}

proof fn one_of_held(node: Node, key: Seq<char>, items: Seq<Node>, i: int, pos: Pos, p: ProblemModel)
    requires
        gather::lists(node, key, items),
        0 <= i < items.len(),
        placement::stmt_problems(items[i], pos).contains(p),
    ensures
        placement::held_problems(node, key, pos).contains(p),
{
    gather::listed_is(node, key, items);
    one_of_list(items, items.len() as int, i, pos, p);
    reveal_with_fuel(placement::held_problems, 2);
    reveal_with_fuel(placement::list_problems, 2);
}

/// What is wrong with a task of a block is wrong with the block. Below a handler, it is looked at
/// as inside of a handler; elsewhere its place is that of the block.
pub proof fn every_task_of_a_block_is_checked(
    node: Node,
    pos: Pos,
    key: Seq<char>,
    items: Seq<Node>,
    i: int,
    p: ProblemModel,
)
    requires
        !out_of_place(node, pos),
        key == "block"@ || key == "rescue"@ || key == "always"@,
        gather::lists(node, key, items),
        0 <= i < items.len(),
        placement::stmt_problems(
            items[i],
            if handler(pos) {
                Pos::HandlerBody
            } else {
                pos
            },
        ).contains(p),
    ensures
        placement::stmt_problems(node, pos).contains(p),
{
    gather::listed_key(node, key, items);
    a_statement_out_of_place_is_refused(node, pos);
    gather::held_value(node, "block"@);
    gather::held_value(node, "rescue"@);
    gather::held_value(node, "always"@);
    let below = pos.below();
    one_of_held(node, key, items, i, below, p);
    let z = placement::one_or_none(placement::bodiless(node));
    let a = placement::held_problems(node, "block"@, below);
    let b = placement::held_problems(node, "rescue"@, below);
    let c = placement::held_problems(node, "always"@, below);
    if key == "block"@ {
        in_second(z, a, p);
        in_first(z + a, b, p);
        in_first(z + a + b, c, p);
    } else if key == "rescue"@ {
        in_second(z + a, b, p);
        in_first(z + a + b, c, p);
    } else {
        in_second(z + a + b, c, p);
    }
    reveal_with_fuel(placement::stmt_problems, 2);
    reveal_with_fuel(placement::held_problems, 2);
    assert(placement::stmt_problems(node, pos) == z + a + b + c);
}

/// What is wrong with a task of a play is wrong with the play, whichever of the four keys lists
/// it. Under `handlers` it is looked at as a handler.
pub proof fn every_task_of_a_play_is_checked(
    node: Node,
    src: Seq<char>,
    key: Seq<char>,
    items: Seq<Node>,
    i: int,
    p: ProblemModel,
)
    requires
        gather::task_key(key),
        gather::lists(node, key, items),
        0 <= i < items.len(),
        !acts(node, "import_playbook"@),
        placement::stmt_problems(
            items[i],
            if key == "handlers"@ {
                Pos::HandlerEntry
            } else {
                Pos::PlayTasks
            },
        ).contains(p),
    ensures
        placement::play_problems(node, src).contains(p),
{
    targets::actions_differ();
    gather::task_keys_differ();
    action_found(node, "import_playbook"@);
    let pos = if key == "handlers"@ {
        Pos::HandlerEntry
    } else {
        Pos::PlayTasks
    };
    one_of_held(node, key, items, i, pos, p);
    let hosts = match node.value_of("hosts"@) {
        Some(v) => placement::hosts_problems(v, src),
        None => Seq::empty(),
    };
    let prompts = match node.value_of("vars_prompt"@) {
        Some(v) => placement::prompt_problems(v),
        None => Seq::empty(),
    };
    let z = placement::exclusions_of(node, On::Play) + hosts + prompts;
    let a = placement::held_problems(node, "pre_tasks"@, Pos::PlayTasks);
    let b = placement::held_problems(node, "tasks"@, Pos::PlayTasks);
    let c = placement::held_problems(node, "post_tasks"@, Pos::PlayTasks);
    let d = placement::held_problems(node, "handlers"@, Pos::HandlerEntry);
    if key == "pre_tasks"@ {
        in_second(z, a, p);
        in_first(z + a, b, p);
        in_first(z + a + b, c, p);
        in_first(z + a + b + c, d, p);
    } else if key == "tasks"@ {
        in_second(z + a, b, p);
        in_first(z + a + b, c, p);
        in_first(z + a + b + c, d, p);
    } else if key == "post_tasks"@ {
        in_second(z + a + b, c, p);
        in_first(z + a + b + c, d, p);
    } else {
        in_second(z + a + b + c, d, p);
    }
}

/// Is something of this tier said at the place?
pub open spec fn said(of: Seq<ProblemModel>, tier: Tier, span: Span) -> bool {
    exists|i: int| 0 <= i < of.len() && (#[trigger] of[i]).tier == tier && of[i].span == span
}

/// An entry of a playbook that is no mapping is an error, and what is wrong with a play is wrong
/// with the playbook.
pub proof fn every_play_is_checked(items: Seq<Node>, n: int, i: int, src: Seq<char>)
    requires
        0 <= i < n <= items.len(),
    ensures
        !(items[i] is Mapping) ==> said(
            placement::playbook_problems(items, n, src),
            Tier::Error,
            items[i].at(),
        ),
        items[i] is Mapping ==> forall|p: ProblemModel| #[trigger]
            placement::play_problems(items[i], src).contains(p)
                ==> placement::playbook_problems(items, n, src).contains(p),
    decreases n,
{
    let before = placement::playbook_problems(items, n - 1, src);
    let all = placement::playbook_problems(items, n, src);
    if i < n - 1 {
        every_play_is_checked(items, n - 1, i, src);
        if !(items[i] is Mapping) {
            let k = choose|k: int|
                0 <= k < before.len() && (#[trigger] before[k]).tier == Tier::Error
                    && before[k].span == items[i].at();
            assert(all[k] == before[k]);
        }
        assert forall|p: ProblemModel| before.contains(p) implies #[trigger] all.contains(p) by {
            let k = choose|k: int| 0 <= k < before.len() && before[k] == p;
            assert(all[k] == p);
        }
    } else if items[i] is Mapping {
        assert forall|p: ProblemModel| #[trigger]
            placement::play_problems(items[i], src).contains(p) implies all.contains(p) by {
            in_second(before, placement::play_problems(items[i], src), p);
        }
    } else {
        assert(all[before.len() as int].span == items[i].at());
    }
}

// ------------------------------------------------------------------ plays

/// A play with `user` and `remote_user` is in error; with one of them it is not.
pub proof fn user_and_remote_user_exclude_each_other(node: Node)
    ensures
        ({
            let of = placement::exclusions_of(node, On::Play);
            if gather::with_key(node, "user"@) && gather::with_key(node, "remote_user"@) {
                of.len() == 1 && of[0].tier == Tier::Error
            } else {
                of.len() == 0
            }
        }),
{
    gather::held_value(node, "user"@);
    gather::held_value(node, "remote_user"@);
}

/// The hosts of a play are a text or a list of texts, neither of them empty. Anything else is an
/// error, at the value or at the entry of the list.
pub proof fn hosts_are_named(value: Node, src: Seq<char>)
    ensures
        value is Scalar && value->value@.len() > 0 ==> placement::hosts_problems(value, src).len()
            == 0,
        value is Null || value is Mapping || (value is Scalar && value->value@.len() == 0) || (
        value is Sequence && value.elems().len() == 0) ==> said(
            placement::hosts_problems(value, src),
            Tier::Error,
            value.at(),
        ),
        value is Sequence && (forall|i: int|
            0 <= i < value.elems().len() ==> (#[trigger] value.elems()[i]) is Scalar)
            && value.elems().len() > 0 ==> placement::hosts_problems(value, src).len() == 0,
        forall|i: int|
            0 <= i < value.elems().len() && ((#[trigger] value.elems()[i]) is Null
                || value.elems()[i] is Mapping || value.elems()[i] is Sequence) ==> said(
                placement::hosts_problems(value, src),
                Tier::Error,
                value.elems()[i].at(),
            ),
{
    let of = placement::hosts_problems(value, src);
    let items = value.elems();
    if value is Sequence && items.len() > 0 {
        assert(of == placement::host_faults(items, items.len() as int, src));
        hosts_listed(items, items.len() as int, src);
    } else if of.len() > 0 {
        assert(of[0].span == value.at());
    }
}

proof fn hosts_listed(items: Seq<Node>, n: int, src: Seq<char>)
    requires
        0 <= n <= items.len(),
    ensures
        (forall|i: int| 0 <= i < n ==> (#[trigger] items[i]) is Scalar) ==> placement::host_faults(
            items,
            n,
            src,
        ).len() == 0,
        forall|i: int|
            0 <= i < n && ((#[trigger] items[i]) is Null || items[i] is Mapping
                || items[i] is Sequence) ==> said(
                placement::host_faults(items, n, src),
                Tier::Error,
                items[i].at(),
            ),
    decreases n,
{
    if n > 0 {
        hosts_listed(items, n - 1, src);
        let before = placement::host_faults(items, n - 1, src);
        let all = placement::host_faults(items, n, src);
        assert forall|i: int|
            0 <= i < n && ((#[trigger] items[i]) is Null || items[i] is Mapping
                || items[i] is Sequence) implies said(all, Tier::Error, items[i].at()) by {
            if i < n - 1 {
                let k = choose|k: int|
                    0 <= k < before.len() && (#[trigger] before[k]).tier == Tier::Error
                        && before[k].span == items[i].at();
                assert(all[k] == before[k]);
            } else {
                assert(all[before.len() as int].span == items[i].at());
            }
        }
        if forall|i: int| 0 <= i < n ==> (#[trigger] items[i]) is Scalar {
            assert(items[n - 1] is Scalar);
        }
    }
}

// ------------------------------------------------------------------ tasks

/// Does a mapping hold something other than nothing under the key?
pub open spec fn given(node: Node, key: Seq<char>) -> bool {
    exists|v: Node| #[trigger] gather::holds(node, key, v) && !(v is Null)
}

proof fn given_value(node: Node, key: Seq<char>)
    ensures
        given(node, key) == (node.value_of(key) is Some && !(node.value_of(key)->0 is Null)),
{
    gather::held_value(node, key);
    if node.value_of(key) is Some {
        assert(gather::with_key(node, key));
        assert(gather::holds(node, key, node.value_of(key)->0));
    }
}

/// A task with `action` and a `local_action` is that one error. A `delegate_to` beside a
/// `local_action` is a warning.
pub proof fn a_local_action_stands_alone(node: Node)
    ensures
        given(node, "local_action"@) && gather::with_key(node, "action"@) ==> {
            let of = placement::task_problems(node);
            of.len() >= 1 && of[0].tier == Tier::Error && (!gather::with_key(node, "delegate_to"@)
                ==> of.len() == 1)
        },
        given(node, "local_action"@) && gather::with_key(node, "delegate_to"@) ==> exists|i: int|
            0 <= i < placement::task_problems(node).len() && (
            #[trigger] placement::task_problems(node)[i]).tier == Tier::Warning,
        !given(node, "local_action"@) ==> placement::exclusions_of(node, On::Task).len() == 0,
{
    given_value(node, "local_action"@);
    gather::held_value(node, "action"@);
    gather::held_value(node, "delegate_to"@);
    let a = placement::exclusions_of(node, On::Task);
    let of = placement::task_problems(node);
    if given(node, "local_action"@) && gather::with_key(node, "delegate_to"@) {
        let k = a.len() - 1;
        assert(a[k].tier == Tier::Warning);
        assert(of[k] == a[k]);
    }
}

/// Is the entry a loop that is set: `loop` or `with_...`, with a value?
pub open spec fn live(entry: (Node, Node)) -> bool {
    targets::loops(entry) && !(entry.1 is Null)
}

proof fn live_found(entries: Seq<(Node, Node)>, i: int)
    requires
        0 <= i,
    ensures
        match placement::live_loop_of(entries, i) {
            Some(span) => exists|k: int|
                i <= k < entries.len() && live(#[trigger] entries[k]) && entries[k].0.at() == span,
            None => forall|k: int| i <= k < entries.len() ==> !live(#[trigger] entries[k]),
        },
    decreases entries.len() - i,
{
    reveal_strlit("with_");
    if i < entries.len() {
        live_found(entries, i + 1);
        assert(targets::loops(entries[i]) == (entries[i].0.word() is Some && placement::loop_key(
            entries[i].0.word()->0,
        )));
        if live(entries[i]) {
            assert(entries[i].0.at() == entries[i].0.at());
        }
    }
}

/// A `loop_control` that is no mapping is an error. One that is a mapping with a word among its
/// keys is a warning where the task has no loop, and nothing where it has one.
pub proof fn loop_control_needs_a_loop(node: Node, v: Node)
    requires
        gather::holds(node, "loop_control"@, v),
    ensures
        ({
            let p = placement::loop_control_problem(node);
            let looped = exists|k: int| 0 <= k < node.pairs().len() && live(#[trigger] node.pairs()[k]);
            let worded = exists|k: int| 0 <= k < v.pairs().len() && (#[trigger] v.pairs()[k]).0
                is Scalar;
            &&& !(v is Mapping) ==> p is Some && p->0.tier == Tier::Error
            &&& v is Mapping && !looped && worded ==> p is Some && p->0.tier == Tier::Warning
            &&& v is Mapping && (looped || !worded) ==> p is None
        }),
{
    gather::held_value(node, "loop_control"@);
    live_found(node.pairs(), 0);
    words_counted(v.pairs(), v.pairs().len() as int);
}

proof fn words_counted(entries: Seq<(Node, Node)>, n: int)
    requires
        0 <= n <= entries.len(),
    ensures
        placement::word_count(entries, n) > 0 <==> exists|k: int|
            0 <= k < n && (#[trigger] entries[k]).0 is Scalar,
    decreases n,
{
    if n > 0 {
        words_counted(entries, n - 1);
        if entries[n - 1].0 is Scalar {
            assert(entries[n - 1].0 is Scalar);
        }
    }
}

/// A loop on `import_tasks` or `import_role` is an error at the key of a loop; without a loop, or
/// on a task that imports nothing, it is none.
pub proof fn an_import_takes_no_loop(node: Node)
    ensures
        ({
            let p = placement::import_loop(node);
            let looped = exists|k: int| 0 <= k < node.pairs().len() && live(#[trigger] node.pairs()[k]);
            let imports = acts(node, "import_tasks"@) || acts(node, "import_role"@);
            &&& p is Some <==> looped && imports
            &&& p is Some ==> p->0.tier == Tier::Error && exists|k: int|
                0 <= k < node.pairs().len() && live(#[trigger] node.pairs()[k])
                    && node.pairs()[k].0.at() == p->0.span
        }),
{
    live_found(node.pairs(), 0);
    import_found(node.pairs(), 0);
    let entries = node.pairs();
    targets::actions_differ();
    assert forall|k: int| 0 <= k < entries.len() implies names(
        #[trigger] entries[k],
        "import_tasks"@,
    ) == placement::names_action(entries[k], "import_tasks"@) && names(
        entries[k],
        "import_role"@,
    ) == placement::names_action(entries[k], "import_role"@) by {
        same_names(entries[k], "import_tasks"@);
        same_names(entries[k], "import_role"@);
    }
    if placement::import_named(entries, 0) is Some {
        let k = choose|k: int|
            0 <= k < entries.len() && (placement::names_action(
                #[trigger] entries[k],
                "import_tasks"@,
            ) || placement::names_action(entries[k], "import_role"@));
        assert(names(entries[k], "import_tasks"@) || names(entries[k], "import_role"@));
    }
}

proof fn import_found(entries: Seq<(Node, Node)>, i: int)
    requires
        0 <= i,
    ensures
        placement::import_named(entries, i) is Some <==> exists|k: int|
            i <= k < entries.len() && (placement::names_action(
                #[trigger] entries[k],
                "import_tasks"@,
            ) || placement::names_action(entries[k], "import_role"@)),
    decreases entries.len() - i,
{
    if i < entries.len() {
        import_found(entries, i + 1);
        if placement::names_action(entries[i], "import_tasks"@) || placement::names_action(
            entries[i],
            "import_role"@,
        ) {
            assert(entries[i] == entries[i]);
        }
    }
}

/// Is this a `with_...` key?
pub open spec fn looks_up(entry: (Node, Node)) -> bool {
    match entry.0 {
        Node::Scalar { value, .. } => value@.len() >= 5 && value@.subrange(0, 5) == "with_"@,
        _ => false,
    }
}

/// One loop on a task is in order. A `with_...` behind another loop that has a value is an error,
/// and so is a `with_...` without a value. A `loop` behind a `with_...` is a warning, at the
/// latter.
pub proof fn a_task_has_one_loop(entries: Seq<(Node, Node)>, i: int, j: int)
    requires
        0 <= i < j < entries.len(),
        forall|k: int|
            0 <= k < entries.len() && k != i && k != j ==> !targets::loops(#[trigger] entries[k]),
    ensures
        ({
            let p = placement::loops_of(entries, 0, false, None);
            let a = entries[i];
            let b = entries[j];
            &&& live(a) && looks_up(b) ==> p is Some && p->0.tier == Tier::Error && p->0.span
                == b.0.at()
            &&& looks_up(a) && a.1 is Null ==> p is Some && p->0.tier == Tier::Error && p->0.span
                == a.0.at()
            &&& looks_up(a) && live(a) && gather::named(b, "loop"@) && live(b) ==> p is Some
                && p->0.tier == Tier::Warning && p->0.span == a.0.at()
            &&& live(a) && !targets::loops(b) ==> p is None
            &&& !targets::loops(a) && !targets::loops(b) ==> p is None
        }),
{
    reveal_strlit("with_");
    reveal_strlit("loop");
    assert("loop"@.len() == 4 && "with_"@.len() == 5);
    no_loops_between(entries, 0, i, false, None);
    let set = live(entries[i]);
    let shadow: Option<(Seq<char>, Span)> = if looks_up(entries[i]) {
        let key = entries[i].0.word()->0;
        Some((key.subrange("with_"@.len() as int, key.len() as int), entries[i].0.at()))
    } else {
        None
    };
    reveal_with_fuel(placement::loops_of, 2);
    if set || !targets::loops(entries[i]) {
        no_loops_between(entries, i + 1, j, set, shadow);
        no_loops_between(entries, j + 1, entries.len() as int, set, shadow);
        no_loops_between(entries, j + 1, entries.len() as int, true, shadow);
    }
}

proof fn no_loops_between(
    entries: Seq<(Node, Node)>,
    from: int,
    to: int,
    set: bool,
    shadow: Option<(Seq<char>, Span)>,
)
    requires
        0 <= from <= to <= entries.len(),
        forall|k: int| from <= k < to ==> !targets::loops(#[trigger] entries[k]),
    ensures
        placement::loops_of(entries, from, set, shadow) == placement::loops_of(
            entries,
            to,
            set,
            shadow,
        ),
    decreases to - from,
{
    reveal_strlit("with_");
    if from < to {
        assert(!targets::loops(entries[from]));
        no_loops_between(entries, from + 1, to, set, shadow);
    }
}

/// Can the key of the entry be a module: a word other than `static` that has a dot in it, or is
/// no directive of tasks?
pub open spec fn modular(entry: (Node, Node)) -> bool {
    match entry.0 {
        Node::Scalar { value, .. } => value@ != "static"@ && ((exists|k: int|
            0 <= k < value@.len() && #[trigger] value@[k] == '.') || !keywords::task_directive(
            value@,
        )),
        _ => false,
    }
}

proof fn modular_is_candidate(entry: (Node, Node))
    ensures
        modular(entry) == placement::candidate(entry),
{
    if let Node::Scalar { value, .. } = entry.0 {
        let key = value@;
        reveal_strlit(".");
        text::find_from_is_first(key, "."@, 0);
        if let Some(k) = text::find_from(key, "."@, 0) {
            assert(key.subrange(k, k + 1)[0] == key[k]);
        }
        if exists|k: int| 0 <= k < key.len() && #[trigger] key[k] == '.' {
            let k = choose|k: int| 0 <= k < key.len() && #[trigger] key[k] == '.';
            assert(key.subrange(k, k + 1) =~= "."@);
            assert(text::stands_at(key, "."@, k));
        }
    }
}

proof fn candidate_found(entries: Seq<(Node, Node)>, i: int)
    requires
        0 <= i,
    ensures
        match placement::next_candidate(entries, i) {
            Some(k) => i <= k < entries.len() && modular(entries[k]) && forall|j: int|
                i <= j < k ==> !modular(#[trigger] entries[j]),
            None => forall|j: int| i <= j < entries.len() ==> !modular(#[trigger] entries[j]),
        },
    decreases entries.len() - i,
{
    if i < entries.len() {
        modular_is_candidate(entries[i]);
        candidate_found(entries, i + 1);
    }
}

/// A task without a module, an `action` and a `local_action` is an error. One module is in order;
/// a second one is an error at its key, unless the first holds a list.
pub proof fn a_task_has_one_module(node: Node, a: int)
    ensures
        ({
            let entries = node.pairs();
            let p = placement::walk(node);
            &&& (forall|j: int| 0 <= j < entries.len() ==> !modular(#[trigger] entries[j])) ==> (
            p is Some <==> !gather::with_key(node, "action"@) && !gather::with_key(
                node,
                "local_action"@,
            ))
            &&& 0 <= a < entries.len() && modular(entries[a]) && (forall|j: int|
                0 <= j < entries.len() && j != a ==> !modular(#[trigger] entries[j])) ==> p is None
            &&& 0 <= a < entries.len() && modular(entries[a]) && (forall|j: int|
                0 <= j < a ==> !modular(#[trigger] entries[j])) && !(entries[a].1 is Sequence)
                && (exists|j: int| a < j < entries.len() && modular(#[trigger] entries[j])) ==> p
                is Some && p->0.tier == Tier::Error
            &&& p is Some ==> p->0.tier == Tier::Error
        }),
{
    let entries = node.pairs();
    gather::held_value(node, "action"@);
    gather::held_value(node, "local_action"@);
    candidate_found(entries, 0);
    if let Some(k) = placement::next_candidate(entries, 0) {
        candidate_found(entries, k + 1);
    }
}

} // verus!
