//! Which variables a playbook changes while it runs.
//!
//! A `when:` on `import_playbook` is copied onto every task of the imported playbook and evaluated
//! for each. If that playbook sets a variable that the condition reads, the condition turns midway:
//! what comes before the `set_fact` runs, and what comes after it is skipped.

use crate::ast::{self, find_action, push_text, word_of};
use crate::fs::{self, is_among, Fs, Source};
use crate::keywords::{self, core_action};
use crate::parse::Node;
use crate::paths::{self, is_path_among, parent};
use crate::placement::{self, any_play, held};
use crate::references::{self, extract, RefModel, ReferenceKind};
use crate::resolve::{self, resolve_in, CtxModel};
use crate::splitter;
use crate::text::str_eq;
use vstd::prelude::*;

verus! {

// ------------------------------------------------------------ what is assigned

/// Is the name among the first `n` keys? `cacheable` is an option of `set_fact`, no fact.
pub open spec fn sets(entries: Seq<(Node, Node)>, n: int, name: Seq<char>) -> bool {
    name != "cacheable"@ && exists|i: int|
        0 <= i < n && (#[trigger] entries[i]).0.word() == Some(name)
}

/// Does the task assign the name: by `set_fact`, or by `register`?
pub open spec fn task_assigns(node: Node, name: Seq<char>) -> bool {
    ||| ast::action_of(node) matches Some(a) && keywords::action_named(a.name) == "set_fact"@ && sets(
        a.args.pairs(),
        a.args.pairs().len() as int,
        name,
    )
    ||| ast::word_under(node, "register"@) == Some(name)
}

/// Does an entry of a task list assign the name? A block holds more of them.
pub open spec fn stmt_assigns(node: Node, name: Seq<char>) -> bool
    decreases node, 1int,
{
    if !(node is Mapping) {
        false
    } else if placement::block_shaped(node) {
        held_assigns(node, "block"@, name) || held_assigns(node, "rescue"@, name) || held_assigns(
            node,
            "always"@,
            name,
        )
    } else {
        task_assigns(node, name)
    }
}

/// Do the tasks that a node lists under a key assign the name?
pub open spec fn held_assigns(node: Node, key: Seq<char>, name: Seq<char>) -> bool
    decreases node, 0int,
{
    let items = placement::listed_under(node, key);
    if items.len() == 0 {
        false
    } else {
        proof {
            placement::listed_under_is_smaller(node, key);
        }
        list_assigns(items, items.len() as int, name)
    }
}

/// Do the first `n` entries of a task list assign the name?
pub open spec fn list_assigns(items: Seq<Node>, n: int, name: Seq<char>) -> bool
    decreases items, n,
{
    if n <= 0 || n > items.len() {
        false
    } else {
        list_assigns(items, n - 1, name) || stmt_assigns(items[n - 1], name)
    }
}

/// Does an entry of a playbook assign the name, in its tasks or handlers? Its `vars:` do not count:
/// they are bound before the tasks run.
pub open spec fn item_assigns(item: Node, name: Seq<char>) -> bool {
    &&& item is Mapping
    &&& ast::imported(item) is None
    &&& held_assigns(item, "pre_tasks"@, name) || held_assigns(item, "tasks"@, name)
        || held_assigns(item, "post_tasks"@, name) || held_assigns(item, "handlers"@, name)
}

pub open spec fn items_assign(items: Seq<Node>, n: int, name: Seq<char>) -> bool
    decreases n,
{
    if n <= 0 || n > items.len() {
        false
    } else {
        items_assign(items, n - 1, name) || item_assigns(items[n - 1], name)
    }
}

/// Does the file assign the name?
pub open spec fn assigns(nodes: Seq<Node>, name: Seq<char>) -> bool {
    match placement::first_sequence(nodes, 0) {
        Some(seq) => {
            let items = seq.elems();
            if placement::has_play(items) {
                items_assign(items, items.len() as int, name)
            } else {
                list_assigns(items, items.len() as int, name)
            }
        },
        None => false,
    }
}

// ------------------------------------------------------------ where a file leads

/// Can a reference of this kind carry a `set_fact` into the run?
pub open spec fn follows(kind: ReferenceKind) -> bool {
    kind is Role || kind is IncludeTasks || kind is ImportTasks || kind is TasksFrom
        || kind is ImportPlaybook
}

/// The files that one target stands for. A role stands for every task file that it has, since
/// `tasks_from` reaches the others.
pub open spec fn stands_for<F: Fs>(fs: &F, kind: ReferenceKind, target: Seq<char>) -> Seq<
    Seq<char>,
> {
    if kind is Role {
        match paths::parent_of(target) {
            Some(dir) => fs.yaml_below(dir),
            None => seq![target],
        }
    } else {
        seq![target]
    }
}

/// The files that the first `n` targets stand for.
pub open spec fn all_stand_for<F: Fs>(
    fs: &F,
    kind: ReferenceKind,
    targets: Seq<Seq<char>>,
    n: int,
) -> Seq<Seq<char>>
    decreases n,
{
    if n <= 0 || n > targets.len() {
        Seq::empty()
    } else {
        all_stand_for(fs, kind, targets, n - 1) + stands_for(fs, kind, targets[n - 1])
    }
}

/// The files that a reference leads to.
pub open spec fn ref_leads<F: Fs>(fs: &F, r: RefModel, ctx: CtxModel) -> Seq<Seq<char>> {
    if follows(r.kind) {
        let targets = resolve::resolved(fs, r, ctx).targets;
        all_stand_for(fs, r.kind, targets, targets.len() as int)
    } else {
        Seq::empty()
    }
}

/// The files that the first `n` references lead to.
pub open spec fn refs_lead<F: Fs>(fs: &F, refs: Seq<RefModel>, n: int, ctx: CtxModel) -> Seq<
    Seq<char>,
>
    decreases n,
{
    if n <= 0 || n > refs.len() {
        Seq::empty()
    } else {
        refs_lead(fs, refs, n - 1, ctx) + ref_leads(fs, refs[n - 1], ctx)
    }
}

/// The files that the file at a path leads to.
#[verifier::opaque]
pub open spec fn leads<F: Fs>(fs: &F, p: Seq<char>) -> Seq<Seq<char>> {
    match fs.parsed(p) {
        Some(source) => {
            let refs = references::refs_of(source.nodes@);
            refs_lead(fs, refs, refs.len() as int, source.ctx.view())
        },
        None => Seq::empty(),
    }
}

/// Does the file at a path assign the name?
pub open spec fn file_assigns<F: Fs>(fs: &F, p: Seq<char>, name: Seq<char>) -> bool {
    match fs.parsed(p) {
        Some(source) => assigns(source.nodes@, name),
        None => false,
    }
}

/// Do two paths settle on the same file?
pub open spec fn same_file<F: Fs>(fs: &F, p: Seq<char>, q: Seq<char>) -> bool {
    match (fs.settled(p), fs.settled(q)) {
        (Some(a), Some(b)) => paths::same_path(a, b),
        _ => false,
    }
}

/// Is the file that a path settles on among those that were walked?
pub open spec fn is_walked<F: Fs>(fs: &F, walked: Seq<Seq<char>>, p: Seq<char>) -> bool {
    exists|k: int| 0 <= k < walked.len() && same_file(fs, #[trigger] walked[k], p)
}

/// The files that are walked once those in `pending` are, behind those that were. A path that is
/// nowhere, or whose file was walked, is passed by. What a file leads to is walked, in its order,
/// before what stood behind the file. There are no more files than the file system knows.
pub open spec fn walk_from<F: Fs>(
    fs: &F,
    pending: Seq<Seq<char>>,
    walked: Seq<Seq<char>>,
) -> Seq<Seq<char>>
    decreases fs.known().len() + 1 - walked.len(), pending.len(),
{
    if pending.len() == 0 || walked.len() > fs.known().len() {
        walked
    } else {
        let p = pending.first();
        let rest = pending.drop_first();
        if fs.settled(p) is None || is_walked(fs, walked, p) {
            walk_from(fs, rest, walked)
        } else {
            walk_from(fs, leads(fs, p) + rest, walked.push(p))
        }
    }
}

/// The files that are walked from a playbook, in order.
pub open spec fn walk<F: Fs>(fs: &F, start: Seq<char>) -> Seq<Seq<char>> {
    walk_from(fs, seq![start], Seq::empty())
}

/// Does one of the first `n` walked files lead to this path?
pub open spec fn is_led_to<F: Fs>(fs: &F, walked: Seq<Seq<char>>, n: int, p: Seq<char>) -> bool {
    exists|k: int| 0 <= k < n && fs::among(leads(fs, #[trigger] walked[k]), p)
}

/// Does a walk from a playbook reach what there is to reach? It begins there; every file is walked
/// once, though it has many spellings; every other one was led to by one that was walked before it;
/// and nothing that exists and is led to is left out.
pub open spec fn is_complete<F: Fs>(fs: &F, start: Seq<char>, walked: Seq<Seq<char>>) -> bool {
    &&& forall|i: int| 0 <= i < walked.len() ==> fs.settled(#[trigger] walked[i]) is Some
    &&& forall|i: int, j: int|
        0 <= i < j < walked.len() ==> !same_file(fs, #[trigger] walked[i], #[trigger] walked[j])
    &&& fs.settled(start) is None ==> walked.len() == 0
    &&& fs.settled(start) is Some ==> walked.len() > 0 && walked[0] == start
    &&& forall|i: int|
        0 < i < walked.len() ==> is_led_to(fs, walked, i, #[trigger] walked[i])
    &&& forall|p: Seq<char>|
        fs.settled(p) is Some && #[trigger] is_led_to(fs, walked, walked.len() as int, p)
            ==> is_walked(fs, walked, p)
}

/// Does one of the walked files assign the name?
pub open spec fn walk_assigns<F: Fs>(fs: &F, walked: Seq<Seq<char>>, name: Seq<char>) -> bool {
    exists|i: int| 0 <= i < walked.len() && file_assigns(fs, #[trigger] walked[i], name)
}

// ------------------------------------------------------------------ the functions

/// Is the name held?
pub open spec fn holds(v: Seq<String>, name: Seq<char>) -> bool {
    fs::among(splitter::texts(v), name)
}

fn insert(out: &mut Vec<String>, name: &str)
    requires
        splitter::texts(old(out)@).no_duplicates(),
    ensures
        splitter::texts(final(out)@).no_duplicates(),
        forall|s: Seq<char>| #[trigger]
            holds(final(out)@, s) <==> holds(old(out)@, s) || s == name@,
{
    let ghost before = splitter::texts(out@);
    if is_among(out, name) {
        return ;
    }
    out.push(name.to_owned());
    let ghost after = splitter::texts(out@);
    assert(after =~= before.push(name@));
    assert forall|s: Seq<char>| #[trigger]
        holds(out@, s) <==> holds(old(out)@, s) || s == name@ by {
        if fs::among(before, s) {
            let i = choose|i: int| 0 <= i < before.len() && #[trigger] before[i] == s;
            assert(after[i] == s);
        }
        if s == name@ {
            assert(after[before.len() as int] == s);
        }
        if fs::among(after, s) && s != name@ {
            let i = choose|i: int| 0 <= i < after.len() && #[trigger] after[i] == s;
            assert(before[i] == s);
        }
    }
}

fn collect_task(node: &Node, out: &mut Vec<String>)
    requires
        splitter::texts(old(out)@).no_duplicates(),
    ensures
        splitter::texts(final(out)@).no_duplicates(),
        forall|s: Seq<char>| #[trigger]
            holds(final(out)@, s) <==> holds(old(out)@, s) || task_assigns(*node, s),
{
    let ghost first = out@;
    if let Some(a) = find_action(node) {
        if str_eq(core_action(a.name), "set_fact") {
            let entries = a.args.entries();
            let n: usize = entries.len();
            let mut i: usize = 0;
            while i < n
                invariant
                    i <= n == entries@.len(),
                    splitter::texts(out@).no_duplicates(),
                    forall|s: Seq<char>| #[trigger]
                        holds(out@, s) <==> holds(first, s) || sets(entries@, i as int, s),
                decreases n - i,
            {
                let ghost before = out@;
                let mut added = false;
                if let Some(fact) = entries[i].0.as_str() {
                    if !str_eq(fact, "cacheable") {
                        insert(out, fact);
                        added = true;
                    }
                }
                assert forall|s: Seq<char>| #[trigger]
                    holds(out@, s) <==> holds(first, s) || sets(entries@, i + 1, s) by {
                    one_key_more(entries@, i as int, s);
                    assert(holds(before, s) <==> holds(first, s) || sets(entries@, i as int, s));
                    if added {
                        assert(holds(out@, s) <==> holds(before, s) || s
                            == entries@[i as int].0.word()->0);
                    }
                }
                i += 1;
            }
        }
    }
    let ghost middle = out@;
    assert forall|s: Seq<char>| #[trigger]
        holds(middle, s) <==> holds(first, s) || (ast::action_of(*node) matches Some(a)
            && keywords::action_named(a.name) == "set_fact"@ && sets(
            a.args.pairs(),
            a.args.pairs().len() as int,
            s,
        )) by {}
    if let Some(name) = word_of(node, "register") {
        insert(out, name);
    }
    assert forall|s: Seq<char>| #[trigger]
        holds(out@, s) <==> holds(first, s) || task_assigns(*node, s) by {
        assert(holds(middle, s) ==> holds(out@, s));
    }
}

proof fn one_key_more(entries: Seq<(Node, Node)>, n: int, name: Seq<char>)
    requires
        0 <= n < entries.len(),
    ensures
        sets(entries, n + 1, name) <==> sets(entries, n, name) || (name != "cacheable"@
            && entries[n].0.word() == Some(name)),
{
    if sets(entries, n, name) {
        let i = choose|i: int| 0 <= i < n && (#[trigger] entries[i]).0.word() == Some(name);
        assert(entries[i].0.word() == Some(name) && i < n + 1);
    }
    if name != "cacheable"@ && entries[n].0.word() == Some(name) {
        assert(sets(entries, n + 1, name));
    }
}

fn collect_stmt(node: &Node, out: &mut Vec<String>)
    requires
        splitter::texts(old(out)@).no_duplicates(),
    ensures
        splitter::texts(final(out)@).no_duplicates(),
        forall|s: Seq<char>| #[trigger]
            holds(final(out)@, s) <==> holds(old(out)@, s) || stmt_assigns(*node, s),
    decreases node, 1int,
{
    if !matches!(node, Node::Mapping { .. }) {
        return ;
    }
    if node.get("block").is_none() && node.get("rescue").is_none() && node.get("always").is_none() {
        collect_task(node, out);
        return ;
    }
    let ghost first = out@;
    collect_under(node, "block", out);
    let ghost second = out@;
    collect_under(node, "rescue", out);
    let ghost third = out@;
    collect_under(node, "always", out);
    assert forall|s: Seq<char>| #[trigger]
        holds(out@, s) <==> holds(first, s) || stmt_assigns(*node, s) by {
        assert(holds(third, s) <==> holds(second, s) || held_assigns(*node, "rescue"@, s));
        assert(holds(second, s) <==> holds(first, s) || held_assigns(*node, "block"@, s));
    }
}

fn collect_under(node: &Node, key: &str, out: &mut Vec<String>)
    requires
        splitter::texts(old(out)@).no_duplicates(),
    ensures
        splitter::texts(final(out)@).no_duplicates(),
        forall|s: Seq<char>| #[trigger]
            holds(final(out)@, s) <==> holds(old(out)@, s) || held_assigns(*node, key@, s),
    decreases node, 0int,
{
    let items = held(node, key);
    if items.len() > 0 {
        proof {
            placement::listed_under_is_smaller(*node, key@);
        }
        collect_stmts(items, out);
    }
}

fn collect_stmts(items: &[Node], out: &mut Vec<String>)
    requires
        splitter::texts(old(out)@).no_duplicates(),
    ensures
        splitter::texts(final(out)@).no_duplicates(),
        forall|s: Seq<char>| #[trigger]
            holds(final(out)@, s) <==> holds(old(out)@, s) || list_assigns(
                items@,
                items@.len() as int,
                s,
            ),
    decreases items@, items@.len() + 1,
{
    let ghost first = out@;
    let n: usize = items.len();
    let mut i: usize = 0;
    while i < n
        invariant
            i <= n == items@.len(),
            splitter::texts(out@).no_duplicates(),
            forall|s: Seq<char>| #[trigger]
                holds(out@, s) <==> holds(first, s) || list_assigns(items@, i as int, s),
        decreases n - i,
    {
        let ghost before = out@;
        assert(decreases_to!(items@ => items@[i as int]));
        collect_stmt(&items[i], out);
        assert forall|s: Seq<char>| #[trigger]
            holds(out@, s) <==> holds(first, s) || list_assigns(items@, i + 1, s) by {
            assert(holds(before, s) <==> holds(first, s) || list_assigns(items@, i as int, s));
        }
        i += 1;
    }
}

fn collect_item(item: &Node, out: &mut Vec<String>)
    requires
        splitter::texts(old(out)@).no_duplicates(),
    ensures
        splitter::texts(final(out)@).no_duplicates(),
        forall|s: Seq<char>| #[trigger]
            holds(final(out)@, s) <==> holds(old(out)@, s) || item_assigns(*item, s),
{
    if !matches!(item, Node::Mapping { .. }) || ast::find_import(item).is_some() {
        return ;
    }
    let ghost first = out@;
    collect_under(item, "pre_tasks", out);
    let ghost second = out@;
    collect_under(item, "tasks", out);
    let ghost third = out@;
    collect_under(item, "post_tasks", out);
    let ghost fourth = out@;
    collect_under(item, "handlers", out);
    assert forall|s: Seq<char>| #[trigger]
        holds(out@, s) <==> holds(first, s) || item_assigns(*item, s) by {
        assert(holds(fourth, s) <==> holds(third, s) || held_assigns(*item, "post_tasks"@, s));
        assert(holds(third, s) <==> holds(second, s) || held_assigns(*item, "tasks"@, s));
        assert(holds(second, s) <==> holds(first, s) || held_assigns(*item, "pre_tasks"@, s));
    }
}

/// The keys of `set_fact:` and the values of `register:`, the two ways in which a task changes a
/// variable.
pub fn collect_assignments(nodes: &[Node], out: &mut Vec<String>)
    requires
        splitter::texts(old(out)@).no_duplicates(),
    ensures
        splitter::texts(final(out)@).no_duplicates(),
        forall|s: Seq<char>| #[trigger]
            holds(final(out)@, s) <==> holds(old(out)@, s) || assigns(nodes@, s),
{
    let ghost first = out@;
    let n: usize = nodes.len();
    let mut k: usize = 0;
    while k < n
        invariant
            k <= n == nodes@.len(),
            placement::first_sequence(nodes@, 0) == placement::first_sequence(nodes@, k as int),
            splitter::texts(out@).no_duplicates(),
            out@ == first,
            first == old(out)@,
        decreases n - k,
    {
        if matches!(nodes[k], Node::Sequence { .. }) {
            let items = nodes[k].items();
            if !any_play(items) {
                collect_stmts(items, out);
                return ;
            }
            let len: usize = items.len();
            let mut i: usize = 0;
            while i < len
                invariant
                    i <= len == items@.len(),
                    splitter::texts(out@).no_duplicates(),
                    forall|s: Seq<char>| #[trigger]
                        holds(out@, s) <==> holds(first, s) || items_assign(items@, i as int, s),
                decreases len - i,
            {
                let ghost before = out@;
                collect_item(&items[i], out);
                assert forall|s: Seq<char>| #[trigger]
                    holds(out@, s) <==> holds(first, s) || items_assign(items@, i + 1, s) by {
                    assert(holds(before, s) <==> holds(first, s) || items_assign(
                        items@,
                        i as int,
                        s,
                    ));
                }
                i += 1;
            }
            return ;
        }
        k += 1;
    }
}

fn is_followed(kind: ReferenceKind) -> (r: bool)
    ensures
        r == follows(kind),
{
    matches!(
        kind,
        ReferenceKind::Role | ReferenceKind::IncludeTasks | ReferenceKind::ImportTasks
        | ReferenceKind::TasksFrom | ReferenceKind::ImportPlaybook
    )
}

fn append_all(out: &mut Vec<String>, more: &Vec<String>)
    ensures
        splitter::texts(final(out)@) == splitter::texts(old(out)@) + splitter::texts(more@),
{
    let ghost before = splitter::texts(out@);
    let ghost all = splitter::texts(more@);
    let n: usize = more.len();
    let mut i: usize = 0;
    assert(before =~= before + all.take(0));
    while i < n
        invariant
            i <= n == more@.len(),
            all == splitter::texts(more@),
            splitter::texts(out@) == before + all.take(i as int),
        decreases n - i,
    {
        push_text(out, more[i].as_str());
        i += 1;
        assert(splitter::texts(out@) =~= before + all.take(i as int));
    }
    assert(all.take(n as int) =~= all);
}

/// The files that one target stands for.
fn push_target<F: Fs>(fs: &F, kind: ReferenceKind, target: &str, out: &mut Vec<String>)
    ensures
        splitter::texts(final(out)@) == splitter::texts(old(out)@) + stands_for(fs, kind, target@),
{
    let ghost before = splitter::texts(out@);
    if matches!(kind, ReferenceKind::Role) {
        if let Some(dir) = parent(target) {
            append_all(out, &fs.yaml_files(dir.as_str()));
            return ;
        }
    }
    push_text(out, target);
    assert(splitter::texts(out@) =~= before + seq![target@]);
}

/// The files that a file leads to.
#[verifier::spinoff_prover]
fn outgoing<F: Fs>(fs: &F, source: &Source) -> (r: Vec<String>)
    ensures
        splitter::texts(r@) == ({
            let refs = references::refs_of(source.nodes@);
            refs_lead(fs, refs, refs.len() as int, source.ctx.view())
        }),
{
    let found = extract(source.nodes.as_slice());
    let ghost model = references::models(found.refs@);
    let ghost ctx = source.ctx.view();
    let mut out: Vec<String> = Vec::new();
    let n: usize = found.refs.len();
    let mut i: usize = 0;
    assert(splitter::texts(out@) =~= Seq::empty());
    while i < n
        invariant
            i <= n == found.refs@.len(),
            model == references::models(found.refs@),
            ctx == source.ctx.view(),
            splitter::texts(out@) == refs_lead(fs, model, i as int, ctx),
        decreases n - i,
    {
        let ghost before = splitter::texts(out@);
        let r = &found.refs[i];
        assert(model[i as int] == r.view());
        if is_followed(r.kind) {
            let res = resolve_in(r, &source.ctx, fs);
            let ghost targets = res.view().targets;
            let m: usize = res.targets.len();
            let mut k: usize = 0;
            assert(before =~= before + Seq::empty());
            while k < m
                invariant
                    k <= m == res.targets@.len(),
                    targets == splitter::texts(res.targets@),
                    splitter::texts(out@) == before + all_stand_for(
                        fs,
                        r.kind,
                        targets,
                        k as int,
                    ),
                decreases m - k,
            {
                push_target(fs, r.kind, res.targets[k].as_str(), &mut out);
                k += 1;
                assert(splitter::texts(out@) =~= before + all_stand_for(
                    fs,
                    r.kind,
                    targets,
                    k as int,
                ));
            }
        }
        i += 1;
        assert(splitter::texts(out@) =~= refs_lead(fs, model, i as int, ctx));
    }
    out
}

/// What was walked, in its one spelling.
spec fn seen<F: Fs>(fs: &F, walked: Seq<Seq<char>>, visited: Seq<Seq<char>>) -> bool {
    &&& visited.len() == walked.len()
    &&& forall|i: int|
        0 <= i < walked.len() ==> fs.settled(#[trigger] walked[i]) == Some(visited[i])
    &&& forall|i: int| 0 <= i < visited.len() ==> fs::among(fs.known(), #[trigger] visited[i])
    &&& forall|i: int, j: int|
        0 <= i < j < visited.len() ==> !paths::same_path(
            #[trigger] visited[i],
            #[trigger] visited[j],
        )
}

/// What is walked cannot be more than what there is.
proof fn bounded<F: Fs>(fs: &F, walked: Seq<Seq<char>>, visited: Seq<Seq<char>>)
    requires
        seen(fs, walked, visited),
    ensures
        walked.len() <= fs.known().len(),
{
    assert forall|i: int| 0 <= i < visited.len() implies fs.known().contains(
        #[trigger] visited[i],
    ) by {
        let k = choose|k: int|
            0 <= k < fs.known().len() && #[trigger] fs.known()[k] == visited[i];
        assert(fs.known()[k] == visited[i]);
    }
    assert(visited.no_duplicates()) by {
        assert forall|i: int, j: int|
            0 <= i < visited.len() && 0 <= j < visited.len() && i != j implies visited[i]
            != visited[j] by {
            if i < j {
                assert(!paths::same_path(visited[i], visited[j]));
            } else {
                assert(!paths::same_path(visited[j], visited[i]));
            }
        }
    }
    resolve::no_more_than(visited, fs.known());
}

/// A file was walked where its one spelling is among those that were.
proof fn walked_where_visited<F: Fs>(
    fs: &F,
    walked: Seq<Seq<char>>,
    visited: Seq<Seq<char>>,
    p: Seq<char>,
)
    requires
        seen(fs, walked, visited),
        fs.settled(p) is Some,
    ensures
        is_walked(fs, walked, p) <==> paths::path_among(visited, fs.settled(p)->0),
{
    let q = fs.settled(p)->0;
    if paths::path_among(visited, q) {
        let i = choose|i: int| 0 <= i < visited.len() && paths::same_path(#[trigger] visited[i], q);
        assert(same_file(fs, walked[i], p));
    }
    if is_walked(fs, walked, p) {
        let i = choose|i: int| 0 <= i < walked.len() && same_file(fs, #[trigger] walked[i], p);
        assert(paths::same_path(visited[i], q));
    }
}

/// One file more.
proof fn one_more_seen<F: Fs>(
    fs: &F,
    walked: Seq<Seq<char>>,
    visited: Seq<Seq<char>>,
    p: Seq<char>,
)
    requires
        seen(fs, walked, visited),
        fs.settled(p) is Some,
        fs::among(fs.known(), fs.settled(p)->0),
        !paths::path_among(visited, fs.settled(p)->0),
    ensures
        seen(fs, walked.push(p), visited.push(fs.settled(p)->0)),
{
    let w = walked.push(p);
    let v = visited.push(fs.settled(p)->0);
    assert forall|i: int, j: int| 0 <= i < j < v.len() implies !paths::same_path(
        #[trigger] v[i],
        #[trigger] v[j],
    ) by {
        assert(v[i] == visited[i]);
        if j < visited.len() {
            assert(v[j] == visited[j]);
        }
    }
    assert forall|i: int| 0 <= i < w.len() implies fs.settled(#[trigger] w[i]) == Some(v[i]) by {
        if i < walked.len() {
            assert(w[i] == walked[i] && v[i] == visited[i]);
        }
    }
    assert forall|i: int| 0 <= i < v.len() implies fs::among(fs.known(), #[trigger] v[i]) by {
        if i < visited.len() {
            assert(v[i] == visited[i]);
        }
    }
}

/// The variables that a playbook assigns while it runs, through its roles and includes. To collect
/// too many is harmless: a name matters only where a condition reads it.
pub fn mutated_vars_in<F: Fs>(playbook: &str, fs: &F) -> (r: Vec<String>)
    ensures
        splitter::texts(r@).no_duplicates(),
        forall|s: Seq<char>| #[trigger]
            holds(r@, s) <==> walk_assigns(fs, walk(fs, playbook@), s),
{
    let mut out: Vec<String> = Vec::new();
    let mut visited: Vec<String> = Vec::new();
    // The next path to walk stands last.
    let mut pending: Vec<String> = Vec::new();
    push_text(&mut pending, playbook);
    let ghost all = walk(fs, playbook@);
    let ghost mut walked: Seq<Seq<char>> = Seq::empty();
    assert(splitter::texts(visited@) =~= Seq::empty());
    assert(splitter::texts(pending@).reverse() =~= seq![playbook@]);
    assert(splitter::texts(out@) =~= Seq::empty());
    while pending.len() > 0
        invariant
            seen(fs, walked, splitter::texts(visited@)),
            walk_from(fs, splitter::texts(pending@).reverse(), walked) == all,
            splitter::texts(out@).no_duplicates(),
            forall|s: Seq<char>| #[trigger] holds(out@, s) <==> walk_assigns(fs, walked, s),
        decreases fs.known().len() - walked.len(), pending@.len(),
    {
        let ghost before = splitter::texts(visited@);
        let ghost todo = splitter::texts(pending@).reverse();
        let n: usize = pending.len();
        let path = pending.remove(n - 1);
        let ghost rest = splitter::texts(pending@);
        assert(todo.first() == path@);
        assert(todo.drop_first() =~= rest.reverse());
        proof {
            bounded(fs, walked, before);
        }
        if let Some(canon) = fs.canonical(path.as_str()) {
            proof {
                walked_where_visited(fs, walked, before, path@);
            }
            if !is_path_among(&visited, canon.as_str()) {
                let ghost name = canon@;
                visited.push(canon);
                assert(splitter::texts(visited@) =~= before.push(name));
                let ghost so_far = walked;
                proof {
                    one_more_seen(fs, so_far, before, path@);
                    walked = so_far.push(path@);
                    bounded(fs, walked, splitter::texts(visited@));
                }
                if let Some(source) = fs.source(path.as_str()) {
                    let ghost held = out@;
                    collect_assignments(source.nodes.as_slice(), &mut out);
                    assert forall|s: Seq<char>| #[trigger]
                        holds(out@, s) <==> walk_assigns(fs, walked, s) by {
                        assert(holds(held, s) <==> walk_assigns(fs, so_far, s));
                        one_file_more(fs, so_far, path@, s);
                    }
                    let next = outgoing(fs, source);
                    let mut k: usize = next.len();
                    let ghost more = splitter::texts(next@);
                    assert(more == leads(fs, path@)) by {
                        reveal(leads);
                    }
                    assert(splitter::texts(pending@).reverse() =~= more.skip(k as int)
                        + rest.reverse());
                    while k > 0
                        invariant
                            k <= next@.len(),
                            more == splitter::texts(next@),
                            splitter::texts(pending@).reverse() == more.skip(k as int)
                                + rest.reverse(),
                        decreases k,
                    {
                        let ghost was = splitter::texts(pending@);
                        k -= 1;
                        push_text(&mut pending, next[k].as_str());
                        assert(splitter::texts(pending@) == was.push(more[k as int]));
                        assert(was.push(more[k as int]).reverse() =~= seq![more[k as int]]
                            + was.reverse());
                        assert(more.skip(k as int) =~= seq![more[k as int]] + more.skip(k + 1int));
                        assert(splitter::texts(pending@).reverse() =~= more.skip(k as int)
                            + rest.reverse());
                    }
                    assert(more.skip(0) =~= more);
                } else {
                    assert forall|s: Seq<char>| #[trigger]
                        holds(out@, s) <==> walk_assigns(fs, walked, s) by {
                        one_file_more(fs, so_far, path@, s);
                    }
                    assert(leads(fs, path@) == Seq::<Seq<char>>::empty()) by {
                        reveal(leads);
                    }
                    assert(leads(fs, path@) + rest.reverse() =~= rest.reverse());
                }
            }
        }
    }
    out
}

proof fn one_file_more<F: Fs>(fs: &F, walked: Seq<Seq<char>>, p: Seq<char>, s: Seq<char>)
    ensures
        walk_assigns(fs, walked.push(p), s) <==> walk_assigns(fs, walked, s) || file_assigns(
            fs,
            p,
            s,
        ),
{
    let w = walked.push(p);
    assert(w[walked.len() as int] == p);
    if walk_assigns(fs, walked, s) {
        let i = choose|i: int| 0 <= i < walked.len() && file_assigns(fs, #[trigger] walked[i], s);
        assert(file_assigns(fs, w[i], s));
    }
    if walk_assigns(fs, w, s) {
        let i = choose|i: int| 0 <= i < w.len() && file_assigns(fs, #[trigger] w[i], s);
        if i < walked.len() {
            assert(file_assigns(fs, walked[i], s));
        }
    }
}

// ----------------------------------------------------------------------- laws

/// Does every path that settles do so on a spelling that the file system knows?
pub open spec fn settles_on_what_is_known<F: Fs>(fs: &F) -> bool {
    forall|p: Seq<char>|
        (#[trigger] fs.settled(p)) is Some ==> fs::among(fs.known(), fs.settled(p)->0)
}

/// Where a walk stands: what was walked, and what is still to be.
spec fn standing<F: Fs>(
    fs: &F,
    start: Seq<char>,
    walked: Seq<Seq<char>>,
    pending: Seq<Seq<char>>,
) -> bool {
    &&& forall|i: int| 0 <= i < walked.len() ==> fs.settled(#[trigger] walked[i]) is Some
    &&& forall|i: int, j: int|
        0 <= i < j < walked.len() ==> !same_file(fs, #[trigger] walked[i], #[trigger] walked[j])
    &&& walked.len() > 0 ==> walked[0] == start
    &&& forall|i: int| 0 < i < walked.len() ==> is_led_to(fs, walked, i, #[trigger] walked[i])
    &&& forall|i: int|
        0 <= i < pending.len() ==> {
            if walked.len() == 0 {
                #[trigger] pending[i] == start
            } else {
                is_led_to(fs, walked, walked.len() as int, pending[i])
            }
        }
    &&& walked.len() == 0 ==> pending.len() <= 1
    &&& walked.len() == 0 && fs.settled(start) is Some ==> pending.len() > 0
    &&& forall|p: Seq<char>|
        fs.settled(p) is Some && #[trigger] is_led_to(fs, walked, walked.len() as int, p)
            ==> is_walked(fs, walked, p) || fs::among(pending, p)
}

/// A path that is nowhere, or was walked, is dropped.
proof fn passing_by<F: Fs>(
    fs: &F,
    start: Seq<char>,
    walked: Seq<Seq<char>>,
    pending: Seq<Seq<char>>,
)
    requires
        standing(fs, start, walked, pending),
        pending.len() > 0,
        fs.settled(pending.first()) is None || is_walked(fs, walked, pending.first()),
    ensures
        standing(fs, start, walked, pending.drop_first()),
{
    let rest = pending.drop_first();
    assert(forall|i: int| 0 <= i < rest.len() ==> #[trigger] rest[i] == pending[i + 1]);
    assert forall|i: int| 0 <= i < rest.len() implies {
        if walked.len() == 0 {
            #[trigger] rest[i] == start
        } else {
            is_led_to(fs, walked, walked.len() as int, rest[i])
        }
    } by {
        assert(rest[i] == pending[i + 1]);
    }
    assert forall|p: Seq<char>|
        fs.settled(p) is Some && #[trigger] is_led_to(fs, walked, walked.len() as int, p)
            implies is_walked(fs, walked, p) || fs::among(rest, p) by {
        if !is_walked(fs, walked, p) {
            let i = choose|i: int| 0 <= i < pending.len() && #[trigger] pending[i] == p;
            assert(rest[i - 1] == p);
        }
    }
    if walked.len() == 0 {
        assert(pending[0] == start);
    }
}

/// A path that leads to a new file is walked, and what the file leads to is walked next.
#[verifier::spinoff_prover]
proof fn stepping<F: Fs>(
    fs: &F,
    start: Seq<char>,
    walked: Seq<Seq<char>>,
    pending: Seq<Seq<char>>,
)
    requires
        standing(fs, start, walked, pending),
        pending.len() > 0,
        fs.settled(pending.first()) is Some,
        !is_walked(fs, walked, pending.first()),
    ensures
        standing(
            fs,
            start,
            walked.push(pending.first()),
            leads(fs, pending.first()) + pending.drop_first(),
        ),
{
    let first = pending.first();
    let rest = pending.drop_first();
    let more = leads(fs, first);
    let next = more + rest;
    let w = walked.push(first);
    let n = walked.len() as int;
    assert(w[n] == first);
    assert(forall|i: int| 0 <= i < n ==> #[trigger] w[i] == walked[i]);
    assert(pending[0] == first);
    assert forall|i: int, j: int| 0 <= i < j < w.len() implies !same_file(
        fs,
        #[trigger] w[i],
        #[trigger] w[j],
    ) by {
        assert(w[i] == walked[i]);
        if j < n {
            assert(w[j] == walked[j]);
        }
    }
    assert forall|i: int| 0 < i < w.len() implies is_led_to(fs, w, i, #[trigger] w[i]) by {
        let k = if i < n {
            assert(is_led_to(fs, walked, i, walked[i]));
            choose|k: int| 0 <= k < i && fs::among(leads(fs, #[trigger] walked[k]), walked[i])
        } else {
            choose|k: int| 0 <= k < n && fs::among(leads(fs, #[trigger] walked[k]), first)
        };
        assert(fs::among(leads(fs, w[k]), w[i]));
    }
    assert forall|i: int| 0 <= i < next.len() implies is_led_to(
        fs,
        w,
        w.len() as int,
        #[trigger] next[i],
    ) by {
        if i < more.len() {
            assert(more[i] == next[i]);
            assert(fs::among(leads(fs, w[n]), next[i]));
        } else {
            let j = i - more.len() + 1;
            assert(next[i] == pending[j]);
            if n == 0 {
                assert(pending.len() == 1);
            } else {
                let k = choose|k: int|
                    0 <= k < n && fs::among(leads(fs, #[trigger] walked[k]), pending[j]);
                assert(fs::among(leads(fs, w[k]), next[i]));
            }
        }
    }
    assert forall|p: Seq<char>|
        fs.settled(p) is Some && #[trigger] is_led_to(fs, w, w.len() as int, p)
            implies is_walked(fs, w, p) || fs::among(next, p) by {
        let k = choose|k: int| 0 <= k < w.len() && fs::among(leads(fs, #[trigger] w[k]), p);
        if k < n {
            assert(fs::among(leads(fs, walked[k]), p));
            assert(is_led_to(fs, walked, n, p));
            if is_walked(fs, walked, p) {
                let m = choose|m: int| 0 <= m < n && same_file(fs, #[trigger] walked[m], p);
                assert(same_file(fs, w[m], p));
            } else {
                let j = choose|j: int| 0 <= j < pending.len() && #[trigger] pending[j] == p;
                if j == 0 {
                    assert(same_file(fs, w[n], p));
                } else {
                    assert(next[more.len() + j - 1] == p);
                }
            }
        } else {
            let j = choose|j: int| 0 <= j < more.len() && #[trigger] more[j] == p;
            assert(next[j] == p);
        }
    }
}

proof fn complete_from<F: Fs>(
    fs: &F,
    start: Seq<char>,
    pending: Seq<Seq<char>>,
    walked: Seq<Seq<char>>,
)
    requires
        settles_on_what_is_known(fs),
        standing(fs, start, walked, pending),
    ensures
        is_complete(fs, start, walk_from(fs, pending, walked)),
    decreases fs.known().len() + 1 - walked.len(), pending.len(),
{
    let visited = Seq::new(walked.len(), |i: int| fs.settled(walked[i])->0);
    assert(seen(fs, walked, visited)) by {
        assert forall|i: int, j: int| 0 <= i < j < visited.len() implies !paths::same_path(
            #[trigger] visited[i],
            #[trigger] visited[j],
        ) by {
            assert(!same_file(fs, walked[i], walked[j]));
            assert(fs.settled(walked[i]) is Some && fs.settled(walked[j]) is Some);
        }
        assert forall|i: int| 0 <= i < visited.len() implies fs::among(
            fs.known(),
            #[trigger] visited[i],
        ) by {
            assert(fs.settled(walked[i]) is Some);
        }
    }
    bounded(fs, walked, visited);
    if pending.len() > 0 {
        let p = pending.first();
        if fs.settled(p) is None || is_walked(fs, walked, p) {
            passing_by(fs, start, walked, pending);
            complete_from(fs, start, pending.drop_first(), walked);
        } else {
            stepping(fs, start, walked, pending);
            complete_from(fs, start, leads(fs, p) + pending.drop_first(), walked.push(p));
        }
    } else {
        assert(forall|p: Seq<char>| !fs::among(pending, p));
    }
}

/// The walk from a playbook reaches all that there is to reach, and every file once.
pub proof fn the_walk_is_complete<F: Fs>(fs: &F, start: Seq<char>)
    requires
        settles_on_what_is_known(fs),
    ensures
        is_complete(fs, start, walk(fs, start)),
{
    let none = Seq::<Seq<char>>::empty();
    assert(forall|p: Seq<char>| !is_led_to(fs, none, 0, p));
    assert(standing(fs, start, none, seq![start]));
    complete_from(fs, start, seq![start], none);
}

proof fn walked_by_both<F: Fs>(
    fs: &F,
    start: Seq<char>,
    a: Seq<Seq<char>>,
    b: Seq<Seq<char>>,
    i: int,
)
    requires
        is_complete(fs, start, a),
        is_complete(fs, start, b),
        0 <= i < a.len(),
        forall|p: Seq<char>, q: Seq<char>|
            same_file(fs, p, q) ==> #[trigger] fs.parsed(p) == #[trigger] fs.parsed(q),
    ensures
        is_walked(fs, b, a[i]),
    decreases i,
{
    assert(fs.settled(a[i]) is Some);
    if i == 0 {
        assert(a[0] == start && b[0] == start);
        assert(same_file(fs, b[0], a[0]));
    } else {
        assert(is_led_to(fs, a, i, a[i]));
        let k = choose|k: int| 0 <= k < i && fs::among(leads(fs, #[trigger] a[k]), a[i]);
        walked_by_both(fs, start, a, b, k);
        let m = choose|m: int| 0 <= m < b.len() && same_file(fs, #[trigger] b[m], a[k]);
        assert(fs.parsed(b[m]) == fs.parsed(a[k]));
        assert(leads(fs, a[k]) == leads(fs, b[m])) by {
            reveal(leads);
        }
        assert(fs::among(leads(fs, b[m]), a[i]));
        assert(is_led_to(fs, b, b.len() as int, a[i]));
    }
}

/// Where the spellings of a path all read the same file, the order of a walk does not matter: all
/// that are complete find the same variables.
pub proof fn all_walks_find_the_same<F: Fs>(
    fs: &F,
    start: Seq<char>,
    a: Seq<Seq<char>>,
    b: Seq<Seq<char>>,
    name: Seq<char>,
)
    requires
        is_complete(fs, start, a),
        is_complete(fs, start, b),
        forall|p: Seq<char>, q: Seq<char>|
            same_file(fs, p, q) ==> #[trigger] fs.parsed(p) == #[trigger] fs.parsed(q),
    ensures
        walk_assigns(fs, a, name) == walk_assigns(fs, b, name),
{
    if walk_assigns(fs, a, name) {
        let i = choose|i: int| 0 <= i < a.len() && file_assigns(fs, #[trigger] a[i], name);
        walked_by_both(fs, start, a, b, i);
        let m = choose|m: int| 0 <= m < b.len() && same_file(fs, #[trigger] b[m], a[i]);
        assert(fs.parsed(b[m]) == fs.parsed(a[i]));
        assert(file_assigns(fs, b[m], name));
    }
    if walk_assigns(fs, b, name) {
        let i = choose|i: int| 0 <= i < b.len() && file_assigns(fs, #[trigger] b[i], name);
        walked_by_both(fs, start, b, a, i);
        let m = choose|m: int| 0 <= m < a.len() && same_file(fs, #[trigger] a[m], b[i]);
        assert(fs.parsed(a[m]) == fs.parsed(b[i]));
        assert(file_assigns(fs, a[m], name));
    }
}

} // verus!
