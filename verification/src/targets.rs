//! What each kind of task and each entry of a play refers to.

use vstd::prelude::*;

use crate::assign;
use crate::ast::{self, ActionModel};
use crate::gather;
use crate::include_vars;
use crate::jinja::lexer;
use crate::jinja::overrides::{self, Field};
use crate::jinja::template;
use crate::keywords;
use crate::parse::{self, Node, Span};
use crate::placement;
use crate::references::{self, RefModel, ReferenceKind};
use crate::search;
use crate::splitter;
use crate::text;

verus! {

/// Is the key the action, bare or behind one of the two prefixes of the core?
pub open spec fn calls(name: Seq<char>, action: Seq<char>) -> bool {
    name == action || name == "ansible.builtin."@ + action || name == "ansible.legacy."@ + action
}

/// Is the node this word, here?
pub open spec fn is_word(node: Node, word: Seq<char>, span: Span) -> bool {
    match node {
        Node::Scalar { value, span: at } => value@ == word && at == span,
        _ => false,
    }
}

/// Does a mapping hold this word under the key?
pub open spec fn holds_word(node: Node, key: Seq<char>, word: Seq<char>, span: Span) -> bool {
    exists|v: Node| #[trigger] gather::holds(node, key, v) && is_word(v, word, span)
}

/// Are these the references of one target?
pub open spec fn one(
    refs: Seq<RefModel>,
    kind: ReferenceKind,
    value: Seq<char>,
    span: Span,
) -> bool {
    refs.len() == 1 && refs[0].kind == kind && refs[0].value == value && refs[0].span == span
}

// ------------------------------------------------------------------ the names of actions

pub proof fn core_is_bare(name: Seq<char>, action: Seq<char>)
    requires
        calls(name, action),
        action.len() > 0,
        action[0] != 'a',
    ensures
        keywords::action_named(name) == action,
{
    reveal_strlit("ansible.builtin.");
    reveal_strlit("ansible.legacy.");
    let b = "ansible.builtin."@;
    let l = "ansible.legacy."@;
    assert(b.len() == 16 && l.len() == 15);
    assert(b[8] == 'b' && l[8] == 'l' && b[0] == 'a' && l[0] == 'a');
    if name == action {
        if text::begins_with(name, b) {
            assert(name.subrange(0, 16)[0] == name[0]);
        }
        if text::begins_with(name, l) {
            assert(name.subrange(0, 15)[0] == name[0]);
        }
    } else if name == b + action {
        assert(name.subrange(0, 16) =~= b);
        assert(name.subrange(16, name.len() as int) =~= action);
    } else {
        assert(name.subrange(0, 15) =~= l);
        if text::begins_with(name, b) {
            assert(name.subrange(0, 16)[8] == name[8]);
            assert(name[8] == l[8]);
        }
        assert(name.subrange(15, name.len() as int) =~= action);
    }
}

pub proof fn actions_differ()
    ensures
        "include_tasks"@ != "import_tasks"@,
        "include_tasks"@ != "import_playbook"@,
        "include_tasks"@ != "include_role"@,
        "include_tasks"@ != "import_role"@,
        "include_tasks"@ != "template"@,
        "include_tasks"@ != "include_vars"@,
        "import_tasks"@ != "import_playbook"@,
        "import_tasks"@ != "include_role"@,
        "import_tasks"@ != "import_role"@,
        "import_tasks"@ != "template"@,
        "import_tasks"@ != "include_vars"@,
        "import_playbook"@ != "include_role"@,
        "import_playbook"@ != "import_role"@,
        "import_playbook"@ != "template"@,
        "import_playbook"@ != "include_vars"@,
        "include_role"@ != "template"@,
        "include_role"@ != "include_vars"@,
        "import_role"@ != "template"@,
        "import_role"@ != "include_vars"@,
        "template"@ != "include_vars"@,
        "include_tasks"@[0] == 'i',
        "import_tasks"@[0] == 'i',
        "import_playbook"@[0] == 'i',
        "include_role"@[0] == 'i',
        "import_role"@[0] == 'i',
        "template"@[0] == 't',
        "include_vars"@[0] == 'i',
        "include_tasks"@.len() == 13,
        "import_tasks"@.len() == 12,
        "import_playbook"@.len() == 15,
        "include_role"@.len() == 12,
        "import_role"@.len() == 11,
        "template"@.len() == 8,
        "include_vars"@.len() == 12,
{
    reveal_strlit("include_tasks");
    reveal_strlit("import_tasks");
    reveal_strlit("import_playbook");
    reveal_strlit("include_role");
    reveal_strlit("import_role");
    reveal_strlit("template");
    reveal_strlit("include_vars");
    assert("include_tasks"@.len() == 13 && "import_tasks"@.len() == 12);
    assert("import_playbook"@.len() == 15 && "include_role"@.len() == 12);
    assert("import_role"@.len() == 11 && "template"@.len() == 8 && "include_vars"@.len() == 12);
    assert("import_tasks"@[1] == 'm' && "include_role"@[1] == 'n' && "include_vars"@[1] == 'n');
    assert("include_role"@[8] == 'r' && "include_vars"@[8] == 'v');
}

proof fn value_under(node: Node, key: Seq<char>, word: Seq<char>, span: Span)
    requires
        holds_word(node, key, word, span),
    ensures
        node is Mapping,
        node.value_of(key) is Some,
        is_word(node.value_of(key)->0, word, span),
{
    gather::held_value(node, key);
    let v = choose|v: Node| #[trigger] gather::holds(node, key, v) && is_word(v, word, span);
    assert(gather::holds(node, key, v));
}

// ------------------------------------------------------------------ tasks

/// `include_tasks` and `import_tasks` refer to the file that they are given, as a word or under
/// `file`; `import_playbook` to the playbook.
pub proof fn an_include_refers_to_its_file(a: ActionModel, word: Seq<char>, span: Span)
    requires
        is_word(a.args, word, span) || holds_word(a.args, "file"@, word, span),
    ensures
        calls(a.name, "include_tasks"@) ==> one(
            references::module_refs_of(a),
            ReferenceKind::IncludeTasks,
            word,
            span,
        ),
        calls(a.name, "import_tasks"@) ==> one(
            references::module_refs_of(a),
            ReferenceKind::ImportTasks,
            word,
            span,
        ),
        calls(a.name, "import_playbook"@) && is_word(a.args, word, span) ==> one(
            references::module_refs_of(a),
            ReferenceKind::ImportPlaybook,
            word,
            span,
        ),
{
    actions_differ();
    if !is_word(a.args, word, span) {
        value_under(a.args, "file"@, word, span);
    }
    if calls(a.name, "include_tasks"@) {
        core_is_bare(a.name, "include_tasks"@);
    }
    if calls(a.name, "import_tasks"@) {
        core_is_bare(a.name, "import_tasks"@);
    }
    if calls(a.name, "import_playbook"@) {
        core_is_bare(a.name, "import_playbook"@);
    }
}

/// `include_role` and `import_role` refer to the role under `name`, and behind it to the file of
/// that role under `tasks_from`.
pub proof fn a_role_is_referred_to(
    a: ActionModel,
    name: Seq<char>,
    span: Span,
    from: Seq<char>,
    from_span: Span,
)
    requires
        calls(a.name, "include_role"@) || calls(a.name, "import_role"@),
        holds_word(a.args, "name"@, name, span),
    ensures
        ({
            let refs = references::module_refs_of(a);
            &&& refs.len() >= 1 && one(refs.subrange(0, 1), ReferenceKind::Role, name, span)
            &&& refs[0].has_tasks_from <==> gather::with_key(a.args, "tasks_from"@)
            &&& !gather::with_key(a.args, "tasks_from"@) ==> refs.len() == 1
            &&& holds_word(a.args, "tasks_from"@, from, from_span) ==> refs.len() == 2 && one(
                refs.subrange(1, 2),
                ReferenceKind::TasksFrom,
                from,
                from_span,
            ) && refs[1].role == Some(name)
        }),
{
    actions_differ();
    if calls(a.name, "include_role"@) {
        core_is_bare(a.name, "include_role"@);
    } else {
        core_is_bare(a.name, "import_role"@);
    }
    value_under(a.args, "name"@, name, span);
    gather::held_value(a.args, "tasks_from"@);
    if holds_word(a.args, "tasks_from"@, from, from_span) {
        value_under(a.args, "tasks_from"@, from, from_span);
    }
}

/// A `template` refers to the file under `src`.
pub proof fn a_template_refers_to_its_source(a: ActionModel, word: Seq<char>, span: Span)
    requires
        calls(a.name, "template"@),
        holds_word(a.args, "src"@, word, span),
    ensures
        one(references::module_refs_of(a), ReferenceKind::TemplateSrc, word, span),
{
    actions_differ();
    core_is_bare(a.name, "template"@);
    value_under(a.args, "src"@, word, span);
}

/// An `include_vars` refers to the directory under `dir`; without one, to the file under `file`.
pub proof fn an_include_vars_refers_to_its_source(a: ActionModel, word: Seq<char>, span: Span)
    requires
        calls(a.name, "include_vars"@),
    ensures
        holds_word(a.args, "dir"@, word, span) ==> one(
            references::module_refs_of(a),
            ReferenceKind::IncludeVarsDir,
            word,
            span,
        ),
        holds_word(a.args, "file"@, word, span) && !gather::with_key(a.args, "dir"@) ==> one(
            references::module_refs_of(a),
            ReferenceKind::IncludeVars,
            word,
            span,
        ),
{
    actions_differ();
    core_is_bare(a.name, "include_vars"@);
    gather::held_value(a.args, "dir"@);
    if holds_word(a.args, "dir"@, word, span) {
        value_under(a.args, "dir"@, word, span);
    }
    if holds_word(a.args, "file"@, word, span) {
        value_under(a.args, "file"@, word, span);
    }
}

/// An `include_vars` of a plain word refers to the file of that name.
pub proof fn an_include_vars_of_a_word(a: ActionModel, word: Seq<char>, span: Span)
    requires
        calls(a.name, "include_vars"@),
        is_word(a.args, word, span),
        word.len() > 0,
        forall|k: int|
            0 <= k < word.len() ==> word[k] != ' ' && word[k] != '\n' && word[k] != '"' && word[k]
                != '\'' && word[k] != '{' && word[k] != '}' && word[k] != '\\' && word[k] != '=',
    ensures
        one(references::module_refs_of(a), ReferenceKind::IncludeVars, word, span),
{
    actions_differ();
    core_is_bare(a.name, "include_vars"@);
    splitter::a_plain_word_is_one_parameter(word);
    assign::nothing_to_decode(word);
    let none = Seq::<Seq<char>>::empty();
    assert(none.push(word) =~= seq![word]);
    assert(!word.contains('='));
    assign::other_tokens_are_raw(none, word, false);
    assert(splitter::kv_of_tokens(none, false).options.len() == 0);
}

/// Any other module whose name is one word refers to that module.
pub proof fn a_module_refers_to_itself(a: ActionModel)
    requires
        a.name.len() > 0,
        forall|k: int|
            0 <= k < a.name.len() ==> a.name[k] != '.' && a.name[k] != ' ' && a.name[k] != '{',
        a.name != "include_tasks"@,
        a.name != "import_tasks"@,
        a.name != "import_playbook"@,
        a.name != "include_role"@,
        a.name != "import_role"@,
        a.name != "template"@,
        a.name != "include_vars"@,
    ensures
        one(references::module_refs_of(a), ReferenceKind::Module, a.name, a.key_span),
{
    reveal_strlit("ansible.builtin.");
    reveal_strlit("ansible.legacy.");
    reveal_strlit(" ");
    reveal_strlit("{");
    assert("ansible.builtin."@[7] == '.' && "ansible.legacy."@[7] == '.');
    if text::begins_with(a.name, "ansible.builtin."@) {
        assert(a.name.subrange(0, 16)[7] == a.name[7]);
    }
    if text::begins_with(a.name, "ansible.legacy."@) {
        assert(a.name.subrange(0, 15)[7] == a.name[7]);
    }
    none_counted(a.name, '.', a.name.len() as int);
    text::find_from_is_first(a.name, " "@, 0);
    text::find_from_is_first(a.name, "{"@, 0);
    if let Some(k) = text::find_from(a.name, " "@, 0) {
        assert(a.name.subrange(k, k + 1)[0] == a.name[k]);
    }
    if let Some(k) = text::find_from(a.name, "{"@, 0) {
        assert(a.name.subrange(k, k + 1)[0] == a.name[k]);
    }
}

proof fn none_counted(s: Seq<char>, c: char, n: int)
    requires
        forall|k: int| 0 <= k < s.len() ==> s[k] != c,
    ensures
        references::count(s, c, n) == 0,
    decreases n,
{
    if 0 < n <= s.len() {
        none_counted(s, c, n - 1);
    }
}

// ------------------------------------------------------------------ what a task says of them

/// Is the node a list of these words?
pub open spec fn word_list(node: Node, of: Seq<Seq<char>>) -> bool {
    match node {
        Node::Sequence { items, .. } => items@.len() == of.len() && forall|i: int|
            0 <= i < of.len() ==> (#[trigger] items@[i]) is Scalar && items@[i]->value@ == of[i],
        _ => false,
    }
}

proof fn words_of_list(items: Seq<Node>, of: Seq<Seq<char>>, n: int)
    requires
        items.len() == of.len(),
        0 <= n <= items.len(),
        forall|i: int|
            0 <= i < of.len() ==> (#[trigger] items[i]) is Scalar && items[i]->value@ == of[i],
    ensures
        ast::words(items, n) == of.subrange(0, n),
    decreases n,
{
    if n > 0 {
        words_of_list(items, of, n - 1);
        assert(items[n - 1] is Scalar);
        assert(of.subrange(0, n) =~= of.subrange(0, n - 1).push(of[n - 1]));
    } else {
        assert(of.subrange(0, 0) =~= Seq::empty());
    }
}

/// Is this a key that makes its task a loop?
pub open spec fn loops(entry: (Node, Node)) -> bool {
    match entry.0 {
        Node::Scalar { value, .. } => value@ == "loop"@ || (value@.len() >= 5 && value@.subrange(
            0,
            5,
        ) == "with_"@),
        _ => false,
    }
}

/// The task's own facts stand on each of its references, which are otherwise those of its module:
/// it is conditional where there is a `when`, whose one word or list of words are its conditions;
/// it is repeated where there is a `loop` or a `with_...`; and it carries the name of its task.
pub proof fn a_task_marks_its_references(node: Node, a: ActionModel, i: int, of: Seq<Seq<char>>)
    requires
        ast::action_of(node) == Some(a),
        0 <= i < references::task_refs(node).len(),
    ensures
        ({
            let r = references::task_refs(node)[i];
            let own = references::module_refs_of(a);
            &&& own.len() == references::task_refs(node).len()
            &&& r.kind == own[i].kind && r.value == own[i].value && r.span == own[i].span && r.role
                == own[i].role && r.has_tasks_from == own[i].has_tasks_from
            &&& r.conditional <==> gather::with_key(node, "when"@)
            &&& !gather::with_key(node, "when"@) ==> r.conditions.len() == 0
            &&& forall|w: Node| #[trigger]
                gather::holds(node, "when"@, w) && w is Scalar ==> r.conditions == seq![w->value@]
                    && r.condition_span == Some(w.at())
            &&& forall|w: Node| #[trigger]
                gather::holds(node, "when"@, w) && word_list(w, of) ==> r.conditions == of
            &&& r.repeated <==> exists|k: int|
                0 <= k < node.pairs().len() && loops(#[trigger] node.pairs()[k])
            &&& forall|w: Node| #[trigger]
                gather::holds(node, "name"@, w) && w is Scalar ==> r.task_name == Some(w->value@)
            &&& !gather::with_key(node, "name"@) ==> r.task_name is None
        }),
{
    gather::held_value(node, "when"@);
    gather::held_value(node, "name"@);
    assert forall|w: Node| #[trigger]
        gather::holds(node, "when"@, w) && word_list(w, of) implies references::task_refs(
        node,
    )[i].conditions == of by {
        words_of_list(w.elems(), of, of.len() as int);
        assert(of.subrange(0, of.len() as int) =~= of);
    }
    reveal_strlit("with_");
    assert forall|k: int| 0 <= k < node.pairs().len() implies loops(#[trigger] node.pairs()[k])
        == ast::loop_key(node.pairs()[k]) by {}
    if ast::looped(node) {
        let k = choose|k: int|
            0 <= k < node.pairs().len() && ast::loop_key(#[trigger] node.pairs()[k]);
        assert(loops(node.pairs()[k]));
    }
}

// ------------------------------------------------------------------ roles and files of variables

/// Are the items these words, each at its place?
pub open spec fn words_at(items: Seq<Node>, of: Seq<Seq<char>>) -> bool {
    items.len() == of.len() && forall|i: int|
        0 <= i < of.len() ==> (#[trigger] items[i]) is Scalar && items[i]->value@ == of[i]
}

/// Are these plain references of a kind to the words, one after the other?
pub open spec fn each(
    refs: Seq<RefModel>,
    kind: ReferenceKind,
    items: Seq<Node>,
    of: Seq<Seq<char>>,
) -> bool {
    refs.len() == of.len() && forall|i: int|
        0 <= i < of.len() ==> (#[trigger] refs[i]).kind == kind && refs[i].value == of[i]
            && refs[i].span == items[i].at() && !refs[i].conditional && !refs[i].grouped
}

proof fn role_words(items: Seq<Node>, of: Seq<Seq<char>>, n: int, play: Option<Seq<char>>)
    requires
        words_at(items, of),
        0 <= n <= of.len(),
    ensures
        each(
            references::role_entries(items, n, play),
            ReferenceKind::Role,
            items,
            of.subrange(0, n),
        ),
    decreases n,
{
    if n > 0 {
        role_words(items, of, n - 1, play);
        let item = items[n - 1];
        assert(item is Scalar && item->value@ == of[n - 1]);
        assert(item.pairs() =~= Seq::empty());
        assert(item.value_of("when"@) is None);
        let before = references::role_entries(items, n - 1, play);
        let after = references::role_entries(items, n, play);
        assert(after.len() == n);
        assert forall|i: int| 0 <= i < n implies (#[trigger] after[i]).kind == ReferenceKind::Role
            && after[i].value == of.subrange(0, n)[i] && after[i].span == items[i].at()
            && !after[i].conditional && !after[i].grouped by {
            if i < n - 1 {
                assert(after[i] == before[i]);
                assert(of.subrange(0, n - 1)[i] == of[i]);
            }
        }
    }
}

proof fn vars_words(items: Seq<Node>, of: Seq<Seq<char>>, n: int, play: Option<Seq<char>>)
    requires
        words_at(items, of),
        0 <= n <= of.len(),
    ensures
        each(
            references::vars_file_items(items, n, play),
            ReferenceKind::VarsFiles,
            items,
            of.subrange(0, n),
        ),
    decreases n,
{
    if n > 0 {
        vars_words(items, of, n - 1, play);
        let item = items[n - 1];
        assert(item is Scalar && item->value@ == of[n - 1]);
        let before = references::vars_file_items(items, n - 1, play);
        let after = references::vars_file_items(items, n, play);
        reveal_with_fuel(references::alternative_refs, 2);
        assert(after.len() == n);
        assert forall|i: int| 0 <= i < n implies (#[trigger] after[i]).kind
            == ReferenceKind::VarsFiles && after[i].value == of.subrange(0, n)[i] && after[i].span
            == items[i].at() && !after[i].conditional && !after[i].grouped by {
            if i < n - 1 {
                assert(after[i] == before[i]);
                assert(of.subrange(0, n - 1)[i] == of[i]);
            }
        }
    }
}

/// A play without tasks refers to the roles that it lists, then to its files of variables, each in
/// the order in which they are written.
pub proof fn a_play_refers_to_its_roles_and_files(
    node: Node,
    roles: Seq<Node>,
    names: Seq<Seq<char>>,
    files: Seq<Node>,
    paths: Seq<Seq<char>>,
)
    requires
        gather::idle(node),
        gather::tasks_of(node, "roles"@, roles),
        words_at(roles, names),
        gather::tasks_of(node, "vars_files"@, files),
        words_at(files, paths),
    ensures
        ({
            let refs = references::play_refs(node);
            &&& refs.len() == names.len() + paths.len()
            &&& each(refs.subrange(0, names.len() as int), ReferenceKind::Role, roles, names)
            &&& each(
                refs.subrange(names.len() as int, refs.len() as int),
                ReferenceKind::VarsFiles,
                files,
                paths,
            )
        }),
{
    let play = ast::word_under(node, "name"@);
    gather::listed_is(node, "roles"@, roles);
    gather::listed_is(node, "vars_files"@, files);
    gather::held_value(node, "vars_files"@);
    role_words(roles, names, names.len() as int, play);
    vars_words(files, paths, paths.len() as int, play);
    assert(names.subrange(0, names.len() as int) =~= names);
    assert(paths.subrange(0, paths.len() as int) =~= paths);
    let none = Seq::<Node>::empty();
    gather::held_is_of_tasks(node, "pre_tasks"@, none);
    gather::held_is_of_tasks(node, "tasks"@, none);
    gather::held_is_of_tasks(node, "post_tasks"@, none);
    gather::held_is_of_tasks(node, "handlers"@, none);
    let a = references::role_entries(roles, roles.len() as int, play);
    let b = references::vars_files(node.value_of("vars_files"@), play);
    if gather::lists(node, "vars_files"@, files) {
        let v = choose|v: Node| #[trigger]
            gather::holds(node, "vars_files"@, v) && gather::is_list(v, files);
        assert(node.value_of("vars_files"@) == Some(v));
        assert(b == references::vars_file_items(files, files.len() as int, play));
    } else {
        assert(b.len() == 0);
    }
    let refs = references::play_refs(node);
    assert(refs =~= a + b);
    assert(refs.subrange(0, names.len() as int) =~= a);
    assert(refs.subrange(names.len() as int, refs.len() as int) =~= b);
}

/// An entry of `roles` that is a mapping refers to the role under `role`, and without that to the
/// one under `name`. Its `when` makes it conditional.
pub proof fn a_role_entry_refers_to_its_role(
    item: Node,
    play: Option<Seq<char>>,
    word: Seq<char>,
    span: Span,
)
    requires
        holds_word(item, "role"@, word, span) || (!gather::with_key(item, "role"@) && holds_word(
            item,
            "name"@,
            word,
            span,
        )),
    ensures
        one(references::role_entry(item, play), ReferenceKind::Role, word, span),
        references::role_entry(item, play)[0].conditional <==> gather::with_key(item, "when"@),
        references::role_entry(item, play)[0].task_name == play,
{
    gather::held_value(item, "role"@);
    gather::held_value(item, "when"@);
    if holds_word(item, "role"@, word, span) {
        value_under(item, "role"@, word, span);
    } else {
        value_under(item, "name"@, word, span);
    }
}

/// Several alternatives of a file of variables are a reference each, and one more to the list.
pub proof fn alternatives_are_referred_to(
    item: Node,
    items: Seq<Node>,
    of: Seq<Seq<char>>,
    play: Option<Seq<char>>,
)
    requires
        gather::is_list(item, items),
        words_at(items, of),
        of.len() > 1,
    ensures
        ({
            let refs = references::vars_file(item, play);
            &&& refs.len() == of.len() + 1
            &&& forall|i: int|
                0 <= i < of.len() ==> (#[trigger] refs[i]).kind == ReferenceKind::VarsFiles
                    && refs[i].value == of[i] && refs[i].grouped && refs[i].vars_files_group is None
            &&& refs[of.len() as int].vars_files_group == Some(of)
            &&& refs[of.len() as int].kind == ReferenceKind::VarsFiles
            &&& !refs[of.len() as int].grouped
        }),
{
    alternatives_of(items, of, of.len() as int);
    let alts = references::alternatives(items, of.len() as int);
    alternatives_named(alts, alts.len() as int, play);
    assert(references::names_of(alts) =~= of);
}

proof fn alternatives_of(items: Seq<Node>, of: Seq<Seq<char>>, n: int)
    requires
        words_at(items, of),
        0 <= n <= of.len(),
    ensures
        references::alternatives(items, n).len() == n,
        forall|i: int|
            0 <= i < n ==> (#[trigger] references::alternatives(items, n)[i]) == (
                of[i],
                items[i].at(),
            ),
    decreases n,
{
    if n > 0 {
        alternatives_of(items, of, n - 1);
        assert(items[n - 1] is Scalar && items[n - 1]->value@ == of[n - 1]);
    }
}

proof fn alternatives_named(alts: Seq<(Seq<char>, Span)>, n: int, play: Option<Seq<char>>)
    requires
        0 <= n <= alts.len(),
    ensures
        ({
            let refs = references::alternative_refs(alts, n, play);
            &&& refs.len() == n
            &&& forall|i: int|
                0 <= i < n ==> (#[trigger] refs[i]).kind == ReferenceKind::VarsFiles
                    && refs[i].value == alts[i].0 && refs[i].grouped == (alts.len() > 1)
                    && refs[i].vars_files_group is None
        }),
    decreases n,
{
    if n > 0 {
        alternatives_named(alts, n - 1, play);
    }
}

// ------------------------------------------------------------------ files

/// The dependencies that a role lists are references to roles, in order.
pub proof fn dependencies_are_roles(node: Node, items: Seq<Node>, of: Seq<Seq<char>>)
    requires
        gather::lists(node, "dependencies"@, items),
        words_at(items, of),
    ensures
        each(references::meta_refs(seq![node], 1), ReferenceKind::Role, items, of),
{
    gather::listed_is(node, "dependencies"@, items);
    dependency_words(items, of, of.len() as int);
    assert(of.subrange(0, of.len() as int) =~= of);
    reveal_with_fuel(references::meta_refs, 2);
    assert(seq![node][0] == node);
    let d = references::dependencies(items, items.len() as int);
    assert(references::meta_refs(seq![node], 1) =~= d);
}

proof fn dependency_words(items: Seq<Node>, of: Seq<Seq<char>>, n: int)
    requires
        words_at(items, of),
        0 <= n <= of.len(),
    ensures
        each(
            references::dependencies(items, n),
            ReferenceKind::Role,
            items,
            of.subrange(0, n),
        ),
    decreases n,
{
    if n > 0 {
        dependency_words(items, of, n - 1);
        let item = items[n - 1];
        assert(item is Scalar && item->value@ == of[n - 1]);
        let before = references::dependencies(items, n - 1);
        let after = references::dependencies(items, n);
        assert(after.len() == n);
        assert forall|i: int| 0 <= i < n implies (#[trigger] after[i]).kind == ReferenceKind::Role
            && after[i].value == of.subrange(0, n)[i] && after[i].span == items[i].at()
            && !after[i].conditional && !after[i].grouped by {
            if i < n - 1 {
                assert(after[i] == before[i]);
                assert(of.subrange(0, n - 1)[i] == of[i]);
            }
        }
    }
}

/// An entry of a playbook that has `import_playbook` as its first key refers to that playbook.
pub proof fn an_imported_playbook_is_referred_to(item: Node, word: Seq<char>, span: Span)
    requires
        item is Mapping,
        item.pairs().len() > 0,
        item.pairs()[0].0 is Scalar,
        calls(item.pairs()[0].0->value@, "import_playbook"@),
        is_word(item.pairs()[0].1, word, span),
    ensures
        one(references::item_refs(item), ReferenceKind::ImportPlaybook, word, span),
        references::item_refs(item)[0].conditional <==> gather::with_key(item, "when"@),
        references::item_refs(item)[0].playbook_entry,
{
    actions_differ();
    core_is_bare(item.pairs()[0].0->value@, "import_playbook"@);
    gather::held_value(item, "when"@);
    reveal_with_fuel(ast::import_from, 2);
}

/// Every reference of every entry of a playbook is one of the file.
pub proof fn every_play_is_heard(nodes: Seq<Node>, items: Seq<Node>, i: int, r: RefModel)
    requires
        nodes.len() > 0,
        gather::is_list(nodes[0], items),
        placement::has_play(items),
        0 <= i < items.len(),
        references::item_refs(items[i]).contains(r),
    ensures
        references::refs_of(nodes).contains(r),
{
    reveal_with_fuel(placement::first_sequence, 2);
    one_of_plays(items, items.len() as int, i, r);
}

proof fn one_of_plays(items: Seq<Node>, n: int, i: int, r: RefModel)
    requires
        0 <= i < n <= items.len(),
        references::item_refs(items[i]).contains(r),
    ensures
        references::playbook_refs(items, n).contains(r),
    decreases n,
{
    let before = references::playbook_refs(items, n - 1);
    let last = references::item_refs(items[n - 1]);
    if i < n - 1 {
        one_of_plays(items, n - 1, i, r);
        gather::in_first(before, last, r);
    } else {
        gather::in_second(before, last, r);
    }
}

/// The references of a file of tasks are those of its tasks.
pub proof fn a_task_file_gathers_its_tasks(nodes: Seq<Node>, items: Seq<Node>)
    requires
        nodes.len() > 0,
        gather::is_list(nodes[0], items),
        !placement::has_play(items),
    ensures
        references::refs_of(nodes) == gather::of_tasks(items),
{
    reveal_with_fuel(placement::first_sequence, 2);
    gather::list_is_of_tasks(items, items.len() as int);
    assert(items.subrange(0, items.len() as int) =~= items);
}

// ------------------------------------------------------------------ arguments

/// A `template` task that passes one delimiter is read with that one, and otherwise with the usual
/// ones.
pub proof fn a_task_passes_its_delimiters(args: Node, f: Field, word: Seq<char>, span: Span)
    requires
        f is BlockStart || f is BlockEnd || f is VariableStart || f is VariableEnd || f
            is CommentStart || f is CommentEnd,
        holds_word(args, overrides::key_of(f), word, span),
        search::literal(word),
        forall|g: Field| g != f ==> !gather::with_key(args, #[trigger] overrides::key_of(g)),
    ensures
        ({
            let d = references::passed_delimiters(args);
            &&& d is Some
            &&& overrides::value_of(d->0, f) == Some(word)
            &&& forall|g: Field|
                g != f ==> #[trigger] overrides::value_of(d->0, g) == overrides::value_of(
                    template::default_delims(),
                    g,
                )
        }),
{
    value_under(args, overrides::key_of(f), word, span);
    reveal_strlit("{{");
    search::nothing_occurs(word, "{{"@);
    assert forall|g: Field| g != f implies args.value_of(#[trigger] overrides::key_of(g))
        is None by {
        gather::held_value(args, overrides::key_of(g));
    }
    assert(overrides::key_of(Field::BlockStart) == "block_start_string"@);
    assert(overrides::key_of(Field::BlockEnd) == "block_end_string"@);
    assert(overrides::key_of(Field::VariableStart) == "variable_start_string"@);
    assert(overrides::key_of(Field::VariableEnd) == "variable_end_string"@);
    assert(overrides::key_of(Field::CommentStart) == "comment_start_string"@);
    assert(overrides::key_of(Field::CommentEnd) == "comment_end_string"@);
}

/// The arguments of an `include_vars` that is a mapping: the word under `dir`, the words under
/// `extensions` or the three usual ones, and the number under `depth`, without which there is no
/// limit.
pub proof fn arguments_of_a_directory(args: Node, dir: Seq<char>, span: Span)
    requires
        holds_word(args, "dir"@, dir, span),
    ensures
        ({
            let p = include_vars::params_of(args);
            &&& p is Some && p->0.dir == Some(dir)
            &&& !gather::with_key(args, "extensions"@) ==> p->0.extensions == seq![
                "json"@,
                "yaml"@,
                "yml"@,
            ]
            &&& forall|v: Node, of: Seq<Seq<char>>| #[trigger]
                gather::holds(args, "extensions"@, v) && #[trigger] word_list(v, of)
                    ==> p->0.extensions == of
            &&& forall|v: Node| #[trigger]
                gather::holds(args, "extensions"@, v) && v is Scalar ==> p->0.extensions == seq![
                    v->value@,
                ]
            &&& !gather::with_key(args, "depth"@) ==> p->0.depth == 0
            &&& forall|v: Node| #[trigger]
                gather::holds(args, "depth"@, v) && v is Scalar && v->value@.len() == 1 && '0'
                    <= v->value@[0] <= '9' ==> p->0.depth == v->value@[0] as int - '0' as int
        }),
{
    value_under(args, "dir"@, dir, span);
    gather::held_value(args, "extensions"@);
    gather::held_value(args, "depth"@);
    let p = include_vars::params_of(args)->0;
    assert forall|v: Node, of: Seq<Seq<char>>| #[trigger]
        gather::holds(args, "extensions"@, v) && #[trigger] word_list(v, of) implies p.extensions
        == of by {
        words_of_list(v.elems(), of, of.len() as int);
        assert(of.subrange(0, of.len() as int) =~= of);
    }
    assert forall|v: Node| #[trigger]
        gather::holds(args, "depth"@, v) && v is Scalar && v->value@.len() == 1 && '0'
            <= v->value@[0] <= '9' implies p.depth == v->value@[0] as int - '0' as int by {
        let s = v->value@;
        assert(s.drop_last() =~= Seq::empty());
        reveal_with_fuel(lexer::digits_value, 2);
        assert(lexer::char_digit(s[0], 10));
        assert(lexer::all_digits(s, 10));
    }
}

/// The condition that lands on what is brought in: that of an `apply`, else its own, where the
/// form is a static one.
pub proof fn conditions_land(r: RefModel)
    requires
        r.condition_span is Some <==> r.conditional,
        r.apply_when.len() > 0 ==> r.apply_when_span is Some,
        r.conditions.len() > 0 ==> r.conditional,
    ensures
        r.apply_when.len() > 0 ==> references::propagated(r) == Some(
            (r.apply_when, r.apply_when_span->0),
        ),
        r.apply_when.len() == 0 && r.when_propagates && r.conditions.len() > 0
            ==> references::propagated(r) == Some((r.conditions, r.condition_span->0)),
        r.apply_when.len() == 0 && (!r.when_propagates || r.conditions.len() == 0)
            ==> references::propagated(r) is None,
{
}

/// The static forms hand their `when` on; of the dynamic forms the `when` under `apply` is.
pub proof fn a_form_hands_its_condition_on(node: Node, a: ActionModel, i: int, w: Node, x: Node)
    requires
        ast::action_of(node) == Some(a),
        0 <= i < references::task_refs(node).len(),
    ensures
        ({
            let r = references::task_refs(node)[i];
            &&& calls(a.name, "import_tasks"@) || calls(a.name, "import_role"@)
                ==> r.when_propagates && r.apply_when.len() == 0
            &&& calls(a.name, "include_tasks"@) || calls(a.name, "include_role"@)
                ==> !r.when_propagates
            &&& (calls(a.name, "include_tasks"@) || calls(a.name, "include_role"@))
                && gather::holds(a.args, "apply"@, x) && gather::holds(x, "when"@, w) && w is Scalar
                ==> r.apply_when == seq![w->value@] && r.apply_when_span == Some(w.at())
        }),
{
    actions_differ();
    if calls(a.name, "import_tasks"@) {
        core_is_bare(a.name, "import_tasks"@);
    }
    if calls(a.name, "import_role"@) {
        core_is_bare(a.name, "import_role"@);
    }
    if calls(a.name, "include_tasks"@) {
        core_is_bare(a.name, "include_tasks"@);
    }
    if calls(a.name, "include_role"@) {
        core_is_bare(a.name, "include_role"@);
    }
    gather::held_value(a.args, "apply"@);
    gather::held_value(x, "when"@);
    reveal_strlit("import_role");
    reveal_strlit("include_role");
    assert("import_role"@.len() == 11 && "include_role"@.len() == 12);
}

} // verus!
