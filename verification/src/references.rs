//! From the nodes of a file to its references to other files.

use crate::ast::{self, clauses_of, find_action, find_import, is_looped, key_span, push_text};
use crate::ast::{role_of, word_of, Action, ActionModel};
use crate::include_vars::{self, clone_texts, params_from_args, Params, ParamsModel};
use crate::jinja::template::{self, Delimiters, Delims};
use crate::keywords::{self, core_action};
use crate::parse::{Node, Span};
use crate::placement::{self, any_play, held};
use crate::splitter::{self, parse_kv};
use crate::text::{self, contains, str_eq, to_chars};
use vstd::prelude::*;

verus! {

#[derive(Debug, Clone, Copy, PartialEq, Eq, Structural)]
pub enum ReferenceKind {
    IncludeTasks,
    ImportTasks,
    /// A role name, from `include_role`/`import_role` or a `roles:` entry.
    Role,
    /// `tasks_from:`, which resolves inside whichever role `role` names.
    TasksFrom,
    /// A module used as a task key, e.g. `community.lvm.pool_create:`.
    Module,
    /// `import_playbook:`: play-level, static, so never legitimately templated.
    ImportPlaybook,
    /// The file of an `include_vars:`.
    IncludeVars,
    /// The directory of an `include_vars:`.
    IncludeVarsDir,
    /// The `src:` of a `template:`, the local file that a task renders. Only of `template:`: a
    /// `src:` means a different thing per module.
    TemplateSrc,
    /// An entry of a play's `vars_files:`. A nested list is first-match-wins: each alternative is
    /// its own reference, and one more spans the list.
    VarsFiles,
}

impl ReferenceKind {
    pub open spec fn label(self) -> Seq<char> {
        match self {
            ReferenceKind::IncludeTasks => "include_tasks"@,
            ReferenceKind::ImportTasks => "import_tasks"@,
            ReferenceKind::Role => "role"@,
            ReferenceKind::TasksFrom => "tasks_from"@,
            ReferenceKind::Module => "module"@,
            ReferenceKind::ImportPlaybook => "import_playbook"@,
            ReferenceKind::IncludeVars => "include_vars"@,
            ReferenceKind::IncludeVarsDir => "include_vars_dir"@,
            ReferenceKind::VarsFiles => "vars_files"@,
            ReferenceKind::TemplateSrc => "template_src"@,
        }
    }

    /// The name of the kind in reports.
    pub fn name(self) -> (r: &'static str)
        ensures
            r@ == self.label(),
    {
        match self {
            ReferenceKind::IncludeTasks => "include_tasks",
            ReferenceKind::ImportTasks => "import_tasks",
            ReferenceKind::Role => "role",
            ReferenceKind::TasksFrom => "tasks_from",
            ReferenceKind::Module => "module",
            ReferenceKind::ImportPlaybook => "import_playbook",
            ReferenceKind::IncludeVars => "include_vars",
            ReferenceKind::IncludeVarsDir => "include_vars_dir",
            ReferenceKind::VarsFiles => "vars_files",
            ReferenceKind::TemplateSrc => "template_src",
        }
    }
}

#[derive(Debug, Clone)]
pub struct Reference {
    pub kind: ReferenceKind,
    pub value: String,
    /// A Jinja expression is in it, so the target is only known when the playbook runs.
    pub templated: bool,
    pub span: Span,
    /// For a `TemplateSrc`: the delimiters that the task passes, where it passes any. A `#jinja2:`
    /// line in the template beats them for what it names.
    pub template_delimiters: Option<Box<Delimiters>>,
    /// For a `TasksFrom`: the role it belongs to, from the same mapping.
    pub role: Option<String>,
    /// For a `Role`: the same include has a `tasks_from`, so `tasks/main.yml` is not required.
    pub has_tasks_from: bool,
    /// The task has a `when:`, so this call may not happen.
    pub conditional: bool,
    /// The clauses of that `when:`, all of which must hold.
    pub conditions: Vec<String>,
    /// Where the value of the `when:` stands.
    pub condition_span: Option<Span>,
    /// Where the keyword `when:` stands.
    pub condition_key_span: Option<Span>,
    /// The `when:` is copied onto every task that the reference brings in, rather than gating the
    /// reference once. True of the static forms and of a `roles:` entry, false of a dynamic one.
    pub when_propagates: bool,
    /// A `when:` inside the `apply:` of a dynamic one: a second gate, which lands on each task.
    pub apply_when: Vec<String>,
    pub apply_when_span: Option<Span>,
    /// The `vars:` inside the `apply:` of a dynamic one, in written order. They bind on the tasks
    /// that it brings in.
    pub apply_vars: Vec<(String, Span)>,
    /// Where that `apply:` stands.
    pub apply_span: Option<Span>,
    /// The task has a loop, so it may happen many times.
    pub repeated: bool,
    /// The `name:` of the task.
    pub task_name: Option<String>,
    /// For an `IncludeVarsDir`: the arguments of the module.
    pub include_vars: Option<Box<Params>>,
    /// An alternative in a first-match list: it never warns on its own.
    pub grouped: bool,
    /// Every alternative of a first-match list, in written order, for the reference that spans it.
    pub vars_files_group: Option<Vec<String>>,
    /// The literal `vars:` of an `import_playbook` entry.
    pub entry_vars: Vec<(String, String)>,
    /// An `import_playbook:` entry of a playbook, not the same key inside a task list.
    pub playbook_entry: bool,
}

/// What a [`Reference`] says.
pub struct RefModel {
    pub kind: ReferenceKind,
    pub value: Seq<char>,
    pub templated: bool,
    pub span: Span,
    pub template_delimiters: Option<Delims>,
    pub role: Option<Seq<char>>,
    pub has_tasks_from: bool,
    pub conditional: bool,
    pub conditions: Seq<Seq<char>>,
    pub condition_span: Option<Span>,
    pub condition_key_span: Option<Span>,
    pub when_propagates: bool,
    pub apply_when: Seq<Seq<char>>,
    pub apply_when_span: Option<Span>,
    pub apply_vars: Seq<(Seq<char>, Span)>,
    pub apply_span: Option<Span>,
    pub repeated: bool,
    pub task_name: Option<Seq<char>>,
    pub include_vars: Option<ParamsModel>,
    pub grouped: bool,
    pub vars_files_group: Option<Seq<Seq<char>>>,
    pub entry_vars: Seq<(Seq<char>, Seq<char>)>,
    pub playbook_entry: bool,
}

/// What texts with spans say.
pub open spec fn spanned(v: Seq<(String, Span)>) -> Seq<(Seq<char>, Span)> {
    Seq::new(v.len(), |i: int| (v[i].0@, v[i].1))
}

impl Reference {
    pub open spec fn view(&self) -> RefModel {
        RefModel {
            kind: self.kind,
            value: self.value@,
            templated: self.templated,
            span: self.span,
            template_delimiters: match self.template_delimiters {
                Some(d) => Some(d.view()),
                None => None,
            },
            role: template::optional_text(self.role),
            has_tasks_from: self.has_tasks_from,
            conditional: self.conditional,
            conditions: splitter::texts(self.conditions@),
            condition_span: self.condition_span,
            condition_key_span: self.condition_key_span,
            when_propagates: self.when_propagates,
            apply_when: splitter::texts(self.apply_when@),
            apply_when_span: self.apply_when_span,
            apply_vars: spanned(self.apply_vars@),
            apply_span: self.apply_span,
            repeated: self.repeated,
            task_name: template::optional_text(self.task_name),
            include_vars: match self.include_vars {
                Some(p) => Some(p.view()),
                None => None,
            },
            grouped: self.grouped,
            vars_files_group: match self.vars_files_group {
                Some(v) => Some(splitter::texts(v@)),
                None => None,
            },
            entry_vars: splitter::option_models(self.entry_vars@),
            playbook_entry: self.playbook_entry,
        }
    }
}

/// What references say.
pub open spec fn models(v: Seq<Reference>) -> Seq<RefModel> {
    v.map_values(|r: Reference| r.view())
}

// ------------------------------------------------------------------ the model

/// A reference with nothing around it.
pub open spec fn plain(kind: ReferenceKind, value: Seq<char>, span: Span) -> RefModel {
    RefModel {
        kind,
        value,
        templated: text::occurs(value, "{{"@),
        span,
        template_delimiters: None,
        role: None,
        has_tasks_from: false,
        conditional: false,
        conditions: Seq::empty(),
        condition_span: None,
        condition_key_span: None,
        when_propagates: false,
        apply_when: Seq::empty(),
        apply_when_span: None,
        apply_vars: Seq::empty(),
        apply_span: None,
        repeated: false,
        task_name: None,
        include_vars: None,
        grouped: false,
        vars_files_group: None,
        entry_vars: Seq::empty(),
        playbook_entry: false,
    }
}

/// The references of a scalar; nothing else is one.
pub open spec fn plain_of(kind: ReferenceKind, node: Option<Node>) -> Seq<RefModel> {
    match node {
        Some(Node::Scalar { value, span }) => seq![plain(kind, value@, span)],
        _ => Seq::empty(),
    }
}

/// The roles that the first `n` dependencies of a role name.
pub open spec fn dependencies(items: Seq<Node>, n: int) -> Seq<RefModel>
    decreases n,
{
    if n <= 0 || n > items.len() {
        Seq::empty()
    } else {
        dependencies(items, n - 1) + plain_of(ReferenceKind::Role, ast::role_node(items[n - 1]))
    }
}

/// The roles that the first `n` documents of a role's `meta/main.yml` name.
pub open spec fn meta_refs(nodes: Seq<Node>, n: int) -> Seq<RefModel>
    decreases n,
{
    if n <= 0 || n > nodes.len() {
        Seq::empty()
    } else {
        let items = placement::listed_under(nodes[n - 1], "dependencies"@);
        meta_refs(nodes, n - 1) + dependencies(items, items.len() as int)
    }
}

/// A delimiter that a task passes: a scalar without an expression in it.
pub open spec fn passed(args: Node, key: Seq<char>) -> Option<Seq<char>> {
    match args.value_of(key) {
        Some(Node::Scalar { value, .. }) => if text::occurs(value@, "{{"@) {
            None
        } else {
            Some(value@)
        },
        _ => None,
    }
}

pub open spec fn or_else(a: Option<Seq<char>>, b: Seq<char>) -> Seq<char> {
    match a {
        Some(s) => s,
        None => b,
    }
}

/// The delimiters that a task passes; nothing where it passes none of the six.
pub open spec fn passed_delimiters(args: Node) -> Option<Delims> {
    let bs = passed(args, "block_start_string"@);
    let be = passed(args, "block_end_string"@);
    let vs = passed(args, "variable_start_string"@);
    let ve = passed(args, "variable_end_string"@);
    let cs = passed(args, "comment_start_string"@);
    let ce = passed(args, "comment_end_string"@);
    let d = template::default_delims();
    if bs is None && be is None && vs is None && ve is None && cs is None && ce is None {
        None
    } else {
        Some(
            Delims {
                block_start: or_else(bs, d.block_start),
                block_end: or_else(be, d.block_end),
                variable_start: or_else(vs, d.variable_start),
                variable_end: or_else(ve, d.variable_end),
                comment_start: or_else(cs, d.comment_start),
                comment_end: or_else(ce, d.comment_end),
                ..d
            },
        )
    }
}

/// How many of the first `n` characters are this one.
pub open spec fn count(s: Seq<char>, c: char, n: int) -> int
    decreases n,
{
    if n <= 0 || n > s.len() {
        0
    } else if s[n - 1] == c {
        count(s, c, n - 1) + 1
    } else {
        count(s, c, n - 1)
    }
}

/// The file or role that an action of tasks names.
pub open spec fn file_target(args: Node) -> Option<Node> {
    match args {
        Node::Scalar { .. } => Some(args),
        Node::Mapping { .. } => args.value_of("file"@),
        _ => None,
    }
}

/// A node that is a scalar.
pub open spec fn scalar(node: Option<Node>) -> Option<Node> {
    match node {
        Some(Node::Scalar { .. }) => node,
        _ => None,
    }
}

/// The role and the task file that an `include_role` or `import_role` names.
pub open spec fn role_refs(args: Node) -> Seq<RefModel> {
    let name = scalar(args.value_of("name"@));
    let tasks_from = args.value_of("tasks_from"@);
    let role = match name {
        Some(n) => seq![
            RefModel {
                has_tasks_from: tasks_from is Some,
                ..plain(ReferenceKind::Role, n.word()->0, n.at())
            },
        ],
        None => Seq::empty(),
    };
    let from = match scalar(tasks_from) {
        Some(n) => seq![
            RefModel {
                role: match name {
                    Some(m) => m.word(),
                    None => None,
                },
                ..plain(ReferenceKind::TasksFrom, n.word()->0, n.at())
            },
        ],
        None => Seq::empty(),
    };
    role + from
}

/// The template that a `template` renders: `src` of a mapping or of a free-form line.
pub open spec fn template_refs(args: Node) -> Seq<RefModel> {
    let src: Option<(Seq<char>, Span)> = match args {
        Node::Scalar { value, span } => match splitter::split_of(value@) {
            Ok(tokens) => match include_vars::option_of(
                splitter::kv_of_tokens(tokens, false),
                "src"@,
            ) {
                Some(s) => Some((s, span)),
                None => None,
            },
            Err(_) => None,
        },
        Node::Mapping { .. } => match args.value_of("src"@) {
            Some(Node::Scalar { value, span }) => Some((value@, span)),
            _ => None,
        },
        _ => None,
    };
    match src {
        Some((value, span)) => seq![
            RefModel {
                template_delimiters: passed_delimiters(args),
                ..plain(ReferenceKind::TemplateSrc, value, span)
            },
        ],
        None => Seq::empty(),
    }
}

pub open spec fn dir_ref(args: Node, dir: Seq<char>, span: Span) -> RefModel {
    RefModel {
        include_vars: include_vars::params_of(args),
        ..plain(ReferenceKind::IncludeVarsDir, dir, span)
    }
}

/// The file or directory that an `include_vars` loads. A bare scalar is a free-form line: its
/// options may name a directory or a file, and the rest is the file.
pub open spec fn vars_refs(args: Node) -> Seq<RefModel> {
    match args {
        Node::Scalar { value, span } => match splitter::split_of(value@) {
            Ok(tokens) => {
                let kv = splitter::kv_of_tokens(tokens, false);
                let dir = include_vars::option_of(kv, "dir"@);
                let file = include_vars::option_of(kv, "file"@);
                if dir is Some {
                    seq![dir_ref(args, dir->0, span)]
                } else if file is Some {
                    seq![plain(ReferenceKind::IncludeVars, file->0, span)]
                } else if kv.raw_params is Some {
                    seq![plain(ReferenceKind::IncludeVars, kv.raw_params->0, span)]
                } else {
                    Seq::empty()
                }
            },
            Err(_) => seq![plain(ReferenceKind::IncludeVars, value@, span)],
        },
        Node::Mapping { .. } => match scalar(args.value_of("dir"@)) {
            Some(d) => seq![dir_ref(args, d.word()->0, d.at())],
            None => plain_of(ReferenceKind::IncludeVars, args.value_of("file"@)),
        },
        _ => Seq::empty(),
    }
}

/// The references that a module implies: the target of an action, or the module itself.
pub open spec fn module_refs_of(a: ActionModel) -> Seq<RefModel> {
    let action = keywords::action_named(a.name);
    let dots = count(a.name, '.', a.name.len() as int);
    if action == "include_tasks"@ {
        plain_of(ReferenceKind::IncludeTasks, file_target(a.args))
    } else if action == "import_tasks"@ {
        plain_of(ReferenceKind::ImportTasks, file_target(a.args))
    } else if action == "import_playbook"@ {
        plain_of(ReferenceKind::ImportPlaybook, Some(a.args))
    } else if action == "include_role"@ || action == "import_role"@ {
        role_refs(a.args)
    } else if action == "template"@ {
        template_refs(a.args)
    } else if action == "include_vars"@ {
        vars_refs(a.args)
    } else if (dots == 0 || dots == 2) && !text::occurs(a.name, " "@) && !text::occurs(
        a.name,
        "{"@,
    ) {
        seq![plain(ReferenceKind::Module, a.name, a.key_span)]
    } else {
        Seq::empty()
    }
}

/// What a task says of every reference that it holds.
pub struct FactsModel {
    pub conditions: Seq<Seq<char>>,
    pub condition_span: Option<Span>,
    pub condition_key_span: Option<Span>,
    pub when_propagates: bool,
    pub apply_when: Seq<Seq<char>>,
    pub apply_when_span: Option<Span>,
    pub apply_vars: Seq<(Seq<char>, Span)>,
    pub apply_span: Option<Span>,
    pub repeated: bool,
    pub task_name: Option<Seq<char>>,
}

/// The `when:` of a node.
pub open spec fn when_of(node: Node) -> (Seq<Seq<char>>, Option<Span>) {
    match node.value_of("when"@) {
        Some(w) => (ast::clauses(w), Some(w.at())),
        None => (Seq::empty(), None),
    }
}

/// Does the action copy its `when:` onto what it brings in?
pub open spec fn is_static(action: Seq<char>) -> bool {
    action == "import_tasks"@ || action == "import_role"@
}

/// Does the action read an `apply:`?
pub open spec fn is_dynamic(action: Seq<char>) -> bool {
    action == "include_tasks"@ || action == "include_role"@
}

/// The names that the first `n` entries bind, with their values' places.
pub open spec fn bound(entries: Seq<(Node, Node)>, n: int) -> Seq<(Seq<char>, Span)>
    decreases n,
{
    if n <= 0 || n > entries.len() {
        Seq::empty()
    } else {
        match entries[n - 1].0.word() {
            Some(k) => bound(entries, n - 1).push((k, entries[n - 1].1.at())),
            None => bound(entries, n - 1),
        }
    }
}

/// The `apply:` of a dynamic action.
pub open spec fn apply_of(a: ActionModel) -> Option<Node> {
    if is_dynamic(keywords::action_named(a.name)) {
        a.args.value_of("apply"@)
    } else {
        None
    }
}

/// What a task says of every reference that it holds.
pub open spec fn facts_of(node: Node, a: ActionModel) -> FactsModel {
    let (conditions, condition_span) = when_of(node);
    let apply = apply_of(a);
    let (apply_when, apply_when_span) = match apply {
        Some(x) => when_of(x),
        None => (Seq::empty(), None),
    };
    let apply_vars = match apply {
        Some(x) => match x.value_of("vars"@) {
            Some(v) => bound(v.pairs(), v.pairs().len() as int),
            None => Seq::empty(),
        },
        None => Seq::empty(),
    };
    FactsModel {
        conditions,
        condition_span,
        condition_key_span: ast::key_at(node, "when"@),
        when_propagates: is_static(keywords::action_named(a.name)),
        apply_when,
        apply_when_span,
        apply_vars,
        apply_span: if apply_vars.len() > 0 {
            match apply {
                Some(x) => Some(x.at()),
                None => None,
            }
        } else {
            None
        },
        repeated: ast::looped(node),
        task_name: ast::word_under(node, "name"@),
    }
}

/// A reference with what its task says of it.
pub open spec fn with_facts(f: FactsModel, r: RefModel) -> RefModel {
    RefModel {
        conditional: f.condition_span is Some,
        conditions: f.conditions,
        condition_span: f.condition_span,
        condition_key_span: f.condition_key_span,
        when_propagates: f.when_propagates,
        apply_when: f.apply_when,
        apply_when_span: f.apply_when_span,
        apply_vars: f.apply_vars,
        apply_span: f.apply_span,
        repeated: f.repeated,
        task_name: f.task_name,
        ..r
    }
}

/// The references of one task.
pub open spec fn task_refs(node: Node) -> Seq<RefModel> {
    match ast::action_of(node) {
        Some(a) => {
            let f = facts_of(node, a);
            module_refs_of(a).map_values(|r: RefModel| with_facts(f, r))
        },
        None => Seq::empty(),
    }
}

/// The references of one entry of a task list: a block holds more of them.
pub open spec fn stmt_refs(node: Node) -> Seq<RefModel>
    decreases node, 1int,
{
    if !(node is Mapping) {
        Seq::empty()
    } else if placement::block_shaped(node) {
        held_refs(node, "block"@) + held_refs(node, "rescue"@) + held_refs(node, "always"@)
    } else {
        task_refs(node)
    }
}

/// The references of the tasks that a node lists under a key.
pub open spec fn held_refs(node: Node, key: Seq<char>) -> Seq<RefModel>
    decreases node, 0int,
{
    let items = placement::listed_under(node, key);
    if items.len() == 0 {
        Seq::empty()
    } else {
        proof {
            placement::listed_under_is_smaller(node, key);
        }
        list_refs(items, items.len() as int)
    }
}

/// The references of the first `n` entries of a task list.
pub open spec fn list_refs(items: Seq<Node>, n: int) -> Seq<RefModel>
    decreases items, n,
{
    if n <= 0 || n > items.len() {
        Seq::empty()
    } else {
        list_refs(items, n - 1) + stmt_refs(items[n - 1])
    }
}

/// The reference of an entry of `roles:`.
pub open spec fn role_entry(item: Node, play: Option<Seq<char>>) -> Seq<RefModel> {
    match ast::role_node(item) {
        Some(n) => {
            let (conditions, condition_span) = when_of(item);
            seq![
                RefModel {
                    task_name: play,
                    conditional: condition_span is Some,
                    conditions,
                    condition_span,
                    when_propagates: true,
                    ..plain(ReferenceKind::Role, n.word()->0, n.at())
                },
            ]
        },
        None => Seq::empty(),
    }
}

pub open spec fn role_entries(items: Seq<Node>, n: int, play: Option<Seq<char>>) -> Seq<RefModel>
    decreases n,
{
    if n <= 0 || n > items.len() {
        Seq::empty()
    } else {
        role_entries(items, n - 1, play) + role_entry(items[n - 1], play)
    }
}

/// The alternatives of an entry of `vars_files:`, and where they stand.
pub open spec fn alternatives(items: Seq<Node>, n: int) -> Seq<(Seq<char>, Span)>
    decreases n,
{
    if n <= 0 || n > items.len() {
        Seq::empty()
    } else {
        match items[n - 1].word() {
            Some(s) => alternatives(items, n - 1).push((s, items[n - 1].at())),
            None => alternatives(items, n - 1),
        }
    }
}

/// The references of the first `n` alternatives.
pub open spec fn alternative_refs(
    alts: Seq<(Seq<char>, Span)>,
    n: int,
    play: Option<Seq<char>>,
) -> Seq<RefModel>
    decreases n,
{
    if n <= 0 || n > alts.len() {
        Seq::empty()
    } else {
        alternative_refs(alts, n - 1, play).push(
            RefModel {
                grouped: alts.len() > 1,
                task_name: play,
                ..plain(ReferenceKind::VarsFiles, alts[n - 1].0, alts[n - 1].1)
            },
        )
    }
}

pub open spec fn names_of(alts: Seq<(Seq<char>, Span)>) -> Seq<Seq<char>> {
    Seq::new(alts.len(), |i: int| alts[i].0)
}

/// The first `n` texts with commas between.
pub open spec fn listed(names: Seq<Seq<char>>, n: int) -> Seq<char>
    decreases n,
{
    if n <= 0 || n > names.len() {
        Seq::empty()
    } else if n == 1 {
        names[0]
    } else {
        listed(names, n - 1) + ", "@ + names[n - 1]
    }
}

/// The references of an entry of `vars_files:`: each alternative, and behind them the list itself,
/// where there are several.
pub open spec fn entry_refs(
    alts: Seq<(Seq<char>, Span)>,
    span: Span,
    play: Option<Seq<char>>,
) -> Seq<RefModel> {
    let each = alternative_refs(alts, alts.len() as int, play);
    if alts.len() > 1 {
        let names = names_of(alts);
        each.push(
            RefModel {
                task_name: play,
                vars_files_group: Some(names),
                ..plain(ReferenceKind::VarsFiles, listed(names, names.len() as int), span)
            },
        )
    } else {
        each
    }
}

/// The references of one item of `vars_files:`.
pub open spec fn vars_file(item: Node, play: Option<Seq<char>>) -> Seq<RefModel> {
    match item {
        Node::Scalar { value, span } => entry_refs(seq![(value@, span)], span, play),
        Node::Sequence { items, span } => entry_refs(
            alternatives(items@, items@.len() as int),
            span,
            play,
        ),
        _ => Seq::empty(),
    }
}

pub open spec fn vars_file_items(items: Seq<Node>, n: int, play: Option<Seq<char>>) -> Seq<RefModel>
    decreases n,
{
    if n <= 0 || n > items.len() {
        Seq::empty()
    } else {
        vars_file_items(items, n - 1, play) + vars_file(items[n - 1], play)
    }
}

/// The references of a `vars_files:`: one file, or a list.
pub open spec fn vars_files(node: Option<Node>, play: Option<Seq<char>>) -> Seq<RefModel> {
    match node {
        Some(Node::Sequence { items, .. }) => vars_file_items(items@, items@.len() as int, play),
        Some(v) => vars_file(v, play),
        None => Seq::empty(),
    }
}

/// The references of a play.
pub open spec fn play_refs(node: Node) -> Seq<RefModel> {
    let play = ast::word_under(node, "name"@);
    let roles = placement::listed_under(node, "roles"@);
    role_entries(roles, roles.len() as int, play) + vars_files(
        node.value_of("vars_files"@),
        play,
    ) + held_refs(node, "pre_tasks"@) + held_refs(node, "tasks"@) + held_refs(
        node,
        "post_tasks"@,
    ) + held_refs(node, "handlers"@)
}

/// The literals that the first `n` entries bind.
pub open spec fn literal_vars(entries: Seq<(Node, Node)>, n: int) -> Seq<(Seq<char>, Seq<char>)>
    decreases n,
{
    if n <= 0 || n > entries.len() {
        Seq::empty()
    } else {
        let before = literal_vars(entries, n - 1);
        match (entries[n - 1].0.word(), entries[n - 1].1.word()) {
            (Some(k), Some(v)) => if text::occurs(v, "{{"@) {
                before
            } else {
                before.push((k, v))
            },
            _ => before,
        }
    }
}

/// The reference of an `import_playbook:` entry.
pub open spec fn import_refs(node: Node, target: Node) -> Seq<RefModel> {
    match target.word() {
        Some(file) => {
            let (conditions, condition_span) = when_of(node);
            let vars = match node.value_of("vars"@) {
                Some(v) => v.pairs(),
                None => Seq::empty(),
            };
            seq![
                RefModel {
                    playbook_entry: true,
                    conditional: condition_span is Some,
                    conditions,
                    condition_span,
                    condition_key_span: ast::key_at(node, "when"@),
                    when_propagates: true,
                    entry_vars: literal_vars(vars, vars.len() as int),
                    ..plain(ReferenceKind::ImportPlaybook, file, target.at())
                },
            ]
        },
        None => Seq::empty(),
    }
}

/// The references of one entry of a playbook.
pub open spec fn item_refs(item: Node) -> Seq<RefModel> {
    if !(item is Mapping) {
        Seq::empty()
    } else {
        match ast::imported(item) {
            Some(target) => import_refs(item, target),
            None => play_refs(item),
        }
    }
}

pub open spec fn playbook_refs(items: Seq<Node>, n: int) -> Seq<RefModel>
    decreases n,
{
    if n <= 0 || n > items.len() {
        Seq::empty()
    } else {
        playbook_refs(items, n - 1) + item_refs(items[n - 1])
    }
}

/// Is the file a playbook, not a file of tasks?
pub open spec fn is_playbook(nodes: Seq<Node>) -> bool {
    match placement::first_sequence(nodes, 0) {
        Some(seq) => placement::has_play(seq.elems()),
        None => false,
    }
}

/// Every reference of a file.
pub open spec fn refs_of(nodes: Seq<Node>) -> Seq<RefModel> {
    match placement::first_sequence(nodes, 0) {
        Some(seq) => {
            let items = seq.elems();
            if placement::has_play(items) {
                playbook_refs(items, items.len() as int)
            } else {
                list_refs(items, items.len() as int)
            }
        },
        None => Seq::empty(),
    }
}

// -------------------------------------------------------------- the functions

impl Reference {
    /// The condition that lands on every task that this reference brings in, and is therefore
    /// evaluated anew for each of them. Nothing where the reference gates once, or not at all.
    pub fn propagated_condition(&self) -> (r: Option<(&[String], Span)>)
        ensures
            match propagated(self.view()) {
                Some((conditions, span)) => r is Some && splitter::texts((r->0).0@) == conditions
                    && (r->0).1 == span,
                None => r is None,
            },
    {
        if self.apply_when.len() > 0 {
            return match self.apply_when_span {
                Some(span) => Some((self.apply_when.as_slice(), span)),
                None => None,
            };
        }
        if self.when_propagates && self.conditions.len() > 0 {
            return match self.condition_span {
                Some(span) => Some((self.conditions.as_slice(), span)),
                None => None,
            };
        }
        None
    }

    pub fn new(kind: ReferenceKind, value: &str, span: Span) -> (r: Self)
        ensures
            r.view() == plain(kind, value@, span),
    {
        let r = Reference {
            kind,
            value: value.to_owned(),
            templated: contains(value, "{{"),
            span,
            template_delimiters: None,
            role: None,
            has_tasks_from: false,
            conditional: false,
            conditions: Vec::new(),
            condition_span: None,
            condition_key_span: None,
            when_propagates: false,
            apply_when: Vec::new(),
            apply_when_span: None,
            apply_vars: Vec::new(),
            apply_span: None,
            repeated: false,
            task_name: None,
            include_vars: None,
            grouped: false,
            vars_files_group: None,
            entry_vars: Vec::new(),
            playbook_entry: false,
        };
        assert(splitter::texts(r.conditions@) =~= Seq::empty());
        assert(splitter::texts(r.apply_when@) =~= Seq::empty());
        assert(spanned(r.apply_vars@) =~= Seq::empty());
        assert(splitter::option_models(r.entry_vars@) =~= Seq::empty());
        r
    }
}

/// The condition that lands on every task that a reference brings in: that of its `apply:`, or its
/// own, where it is copied.
pub open spec fn propagated(r: RefModel) -> Option<(Seq<Seq<char>>, Span)> {
    if r.apply_when.len() > 0 {
        match r.apply_when_span {
            Some(span) => Some((r.apply_when, span)),
            None => None,
        }
    } else if r.when_propagates && r.conditions.len() > 0 {
        match r.condition_span {
            Some(span) => Some((r.conditions, span)),
            None => None,
        }
    } else {
        None
    }
}

/// Adds a reference behind others.
fn push_ref(out: &mut Vec<Reference>, r: Reference)
    ensures
        models(final(out)@) == models(old(out)@).push(r.view()),
{
    let ghost before = out@;
    out.push(r);
    assert(models(out@) =~= models(before).push(r.view()));
}

fn owned(s: Option<&str>) -> (r: Option<String>)
    ensures
        template::optional_text(r) == match s {
            Some(s) => Some(s@),
            None => None,
        },
{
    match s {
        Some(s) => Some(s.to_owned()),
        None => None,
    }
}

fn copied(s: &Option<String>) -> (r: Option<String>)
    ensures
        template::optional_text(r) == template::optional_text(*s),
{
    match s {
        Some(s) => Some(s.clone()),
        None => None,
    }
}

/// What a task says of every reference that it holds.
struct Facts {
    conditions: Vec<String>,
    condition_span: Option<Span>,
    condition_key_span: Option<Span>,
    when_propagates: bool,
    apply_when: Vec<String>,
    apply_when_span: Option<Span>,
    apply_vars: Vec<(String, Span)>,
    apply_span: Option<Span>,
    repeated: bool,
    task_name: Option<String>,
}

impl Facts {
    spec fn view(&self) -> FactsModel {
        FactsModel {
            conditions: splitter::texts(self.conditions@),
            condition_span: self.condition_span,
            condition_key_span: self.condition_key_span,
            when_propagates: self.when_propagates,
            apply_when: splitter::texts(self.apply_when@),
            apply_when_span: self.apply_when_span,
            apply_vars: spanned(self.apply_vars@),
            apply_span: self.apply_span,
            repeated: self.repeated,
            task_name: template::optional_text(self.task_name),
        }
    }

    /// Adds a reference with what the task says of it.
    fn emit(&self, out: &mut Vec<Reference>, r: Reference)
        ensures
            models(final(out)@) == models(old(out)@).push(with_facts(self.view(), r.view())),
    {
        let mut r = r;
        let ghost model = r.view();
        r.conditional = self.condition_span.is_some();
        r.conditions = clone_texts(&self.conditions);
        r.condition_span = self.condition_span;
        r.condition_key_span = self.condition_key_span;
        r.when_propagates = self.when_propagates;
        r.apply_when = clone_texts(&self.apply_when);
        r.apply_when_span = self.apply_when_span;
        r.apply_vars = clone_spanned(&self.apply_vars);
        r.apply_span = self.apply_span;
        r.repeated = self.repeated;
        r.task_name = copied(&self.task_name);
        assert(r.view() == with_facts(self.view(), model));
        push_ref(out, r);
    }

    /// Adds the reference of a scalar, where the node is one.
    fn emit_scalar(&self, out: &mut Vec<Reference>, kind: ReferenceKind, node: Option<&Node>)
        ensures
            models(final(out)@) == models(old(out)@) + decorated(
                self.view(),
                plain_of(
                    kind,
                    match node {
                        Some(n) => Some(*n),
                        None => None,
                    },
                ),
            ),
    {
        let ghost before = models(out@);
        match node {
            Some(Node::Scalar { value, span }) => {
                let r = Reference::new(kind, value.as_str(), *span);
                self.emit(out, r);
                assert(models(out@) =~= before + decorated(
                    self.view(),
                    seq![plain(kind, value@, *span)],
                ));
            },
            _ => {
                assert(before =~= before + decorated(self.view(), Seq::empty()));
            },
        }
    }

    /// The role and the task file that an `include_role` or `import_role` names.
    fn emit_roles(&self, out: &mut Vec<Reference>, args: &Node)
        ensures
            models(final(out)@) == models(old(out)@) + decorated(self.view(), role_refs(*args)),
    {
        let ghost before = models(out@);
        let tasks_from = args.get("tasks_from");
        let mut name: Option<&str> = None;
        if let Some(Node::Scalar { value, span }) = args.get("name") {
            name = Some(value.as_str());
            let mut r = Reference::new(ReferenceKind::Role, value.as_str(), *span);
            r.has_tasks_from = tasks_from.is_some();
            self.emit(out, r);
        }
        if let Some(Node::Scalar { value, span }) = tasks_from {
            let mut r = Reference::new(ReferenceKind::TasksFrom, value.as_str(), *span);
            r.role = owned(name);
            self.emit(out, r);
        }
        assert(models(out@) =~= before + decorated(self.view(), role_refs(*args)));
    }

    fn emit_template(&self, out: &mut Vec<Reference>, args: &Node)
        ensures
            models(final(out)@) == models(old(out)@) + decorated(self.view(), template_refs(*args)),
    {
        let ghost before = models(out@);
        match args {
            Node::Scalar { value, span } => {
                if let Ok(kv) = parse_kv(value.as_str(), false) {
                    if let Some(src) = kv.get("src") {
                        self.emit_template_src(out, args, src, *span);
                    }
                }
            },
            Node::Mapping { .. } => {
                if let Some(Node::Scalar { value, span }) = args.get("src") {
                    self.emit_template_src(out, args, value.as_str(), *span);
                }
            },
            _ => {},
        }
        assert(models(out@) =~= before + decorated(self.view(), template_refs(*args)));
    }

    fn emit_template_src(&self, out: &mut Vec<Reference>, args: &Node, src: &str, span: Span)
        ensures
            models(final(out)@) == models(old(out)@).push(
                with_facts(
                    self.view(),
                    RefModel {
                        template_delimiters: passed_delimiters(*args),
                        ..plain(ReferenceKind::TemplateSrc, src@, span)
                    },
                ),
            ),
    {
        let mut r = Reference::new(ReferenceKind::TemplateSrc, src, span);
        r.template_delimiters = match template_delimiters(args) {
            Some(d) => Some(Box::new(d)),
            None => None,
        };
        self.emit(out, r);
    }

    fn emit_dir(&self, out: &mut Vec<Reference>, args: &Node, dir: &str, span: Span)
        ensures
            models(final(out)@) == models(old(out)@).push(
                with_facts(self.view(), dir_ref(*args, dir@, span)),
            ),
    {
        let mut r = Reference::new(ReferenceKind::IncludeVarsDir, dir, span);
        r.include_vars = match params_from_args(args) {
            Some(p) => Some(Box::new(p)),
            None => None,
        };
        self.emit(out, r);
    }

    /// The file or directory that an `include_vars` loads.
    fn emit_vars(&self, out: &mut Vec<Reference>, args: &Node)
        ensures
            models(final(out)@) == models(old(out)@) + decorated(self.view(), vars_refs(*args)),
    {
        let ghost before = models(out@);
        match args {
            Node::Scalar { value, span } => match parse_kv(value.as_str(), false) {
                Ok(kv) => {
                    if let Some(d) = kv.get("dir") {
                        self.emit_dir(out, args, d, *span);
                    } else if let Some(f) = kv.get("file") {
                        self.emit(out, Reference::new(ReferenceKind::IncludeVars, f, *span));
                    } else if let Some(raw) = &kv.raw_params {
                        let r = Reference::new(ReferenceKind::IncludeVars, raw.as_str(), *span);
                        self.emit(out, r);
                    }
                },
                // What does not split fails when Ansible reads it: the whole value stays.
                Err(_) => {
                    let r = Reference::new(ReferenceKind::IncludeVars, value.as_str(), *span);
                    self.emit(out, r);
                },
            },
            Node::Mapping { .. } => {
                if let Some(Node::Scalar { value, span }) = args.get("dir") {
                    self.emit_dir(out, args, value.as_str(), *span);
                } else {
                    self.emit_scalar(out, ReferenceKind::IncludeVars, args.get("file"));
                }
            },
            _ => {},
        }
        assert(models(out@) =~= before + decorated(self.view(), vars_refs(*args)));
    }

    /// The references that a module implies: the target of an action, or the module itself.
    fn module_refs(&self, a: &Action, out: &mut Vec<Reference>)
        ensures
            models(final(out)@) == models(old(out)@) + decorated(
                self.view(),
                module_refs_of(a.view()),
            ),
    {
        let ghost before = models(out@);
        let action = core_action(a.name);
        if str_eq(action, "include_tasks") {
            let target = target_of(a.args);
            self.emit_scalar(out, ReferenceKind::IncludeTasks, target);
        } else if str_eq(action, "import_tasks") {
            let target = target_of(a.args);
            self.emit_scalar(out, ReferenceKind::ImportTasks, target);
        } else if str_eq(action, "import_playbook") {
            self.emit_scalar(out, ReferenceKind::ImportPlaybook, Some(a.args));
        } else if str_eq(action, "include_role") || str_eq(action, "import_role") {
            self.emit_roles(out, a.args);
        } else if str_eq(action, "template") {
            self.emit_template(out, a.args);
        } else if str_eq(action, "include_vars") {
            self.emit_vars(out, a.args);
        } else {
            let dots = count_char(a.name, '.');
            if (dots == 0 || dots == 2) && !contains(a.name, " ") && !contains(a.name, "{") {
                self.emit(out, Reference::new(ReferenceKind::Module, a.name, a.key_span));
            }
            assert(models(out@) =~= before + decorated(self.view(), module_refs_of(a.view())));
        }
    }
}

/// References with what their task says of them.
pub open spec fn decorated(f: FactsModel, refs: Seq<RefModel>) -> Seq<RefModel> {
    refs.map_values(|r: RefModel| with_facts(f, r))
}

fn clone_spanned(v: &Vec<(String, Span)>) -> (r: Vec<(String, Span)>)
    ensures
        spanned(r@) == spanned(v@),
{
    let mut out: Vec<(String, Span)> = Vec::new();
    let n: usize = v.len();
    let mut i: usize = 0;
    while i < n
        invariant
            i <= n == v@.len(),
            out@.len() == i,
            forall|j: int| 0 <= j < i ==> (#[trigger] out@[j]).0@ == v@[j].0@ && out@[j].1 == v@[j].1,
        decreases n - i,
    {
        out.push((v[i].0.clone(), v[i].1));
        i += 1;
    }
    assert(spanned(out@) =~= spanned(v@));
    out
}

fn target_of(args: &Node) -> (r: Option<&Node>)
    ensures
        r is Some == file_target(*args) is Some,
        r is Some ==> *r->0 == file_target(*args)->0,
{
    match args {
        Node::Scalar { .. } => Some(args),
        Node::Mapping { .. } => args.get("file"),
        _ => None,
    }
}

fn count_char(s: &str, c: char) -> (r: usize)
    ensures
        r == count(s@, c, s@.len() as int),
{
    let v = to_chars(s);
    let n: usize = v.len();
    let mut found: usize = 0;
    let mut i: usize = 0;
    while i < n
        invariant
            i <= n == v@.len(),
            v@ == s@,
            found <= i,
            found == count(s@, c, i as int),
        decreases n - i,
    {
        if v[i] == c {
            found += 1;
        }
        i += 1;
    }
    found
}

fn passed_value(args: &Node, key: &str) -> (r: Option<String>)
    ensures
        template::optional_text(r) == passed(*args, key@),
{
    match args.get(key) {
        Some(Node::Scalar { value, .. }) => if contains(value.as_str(), "{{") {
            None
        } else {
            Some(value.clone())
        },
        _ => None,
    }
}

fn set_where(field: &mut String, value: Option<String>)
    ensures
        final(field)@ == or_else(template::optional_text(value), old(field)@),
{
    if let Some(v) = value {
        *field = v;
    }
}

/// The six delimiters that a `template:` may pass; nothing where it passes none of them.
fn template_delimiters(args: &Node) -> (r: Option<Delimiters>)
    ensures
        r is Some == passed_delimiters(*args) is Some,
        r is Some ==> (r->0).view() == passed_delimiters(*args)->0,
{
    let bs = passed_value(args, "block_start_string");
    let be = passed_value(args, "block_end_string");
    let vs = passed_value(args, "variable_start_string");
    let ve = passed_value(args, "variable_end_string");
    let cs = passed_value(args, "comment_start_string");
    let ce = passed_value(args, "comment_end_string");
    if bs.is_none() && be.is_none() && vs.is_none() && ve.is_none() && cs.is_none()
        && ce.is_none() {
        return None;
    }
    let mut d = Delimiters::default();
    set_where(&mut d.block_start, bs);
    set_where(&mut d.block_end, be);
    set_where(&mut d.variable_start, vs);
    set_where(&mut d.variable_end, ve);
    set_where(&mut d.comment_start, cs);
    set_where(&mut d.comment_end, ce);
    Some(d)
}

/// The clauses of a node's `when:` and where they stand.
fn read_when(node: &Node) -> (r: (Vec<String>, Option<Span>))
    ensures
        (splitter::texts(r.0@), r.1) == when_of(*node),
{
    match node.get("when") {
        Some(w) => (clauses_of(w), Some(w.span())),
        None => {
            let none: Vec<String> = Vec::new();
            assert(splitter::texts(none@) =~= Seq::empty());
            (none, None)
        },
    }
}

fn bound_names(entries: &[(Node, Node)]) -> (r: Vec<(String, Span)>)
    ensures
        spanned(r@) == bound(entries@, entries@.len() as int),
{
    let mut out: Vec<(String, Span)> = Vec::new();
    let n: usize = entries.len();
    let mut i: usize = 0;
    assert(spanned(out@) =~= Seq::empty());
    while i < n
        invariant
            i <= n == entries@.len(),
            spanned(out@) == bound(entries@, i as int),
        decreases n - i,
    {
        let ghost before = spanned(out@);
        if let Some(k) = entries[i].0.as_str() {
            let span = entries[i].1.span();
            out.push((k.to_owned(), span));
            assert(spanned(out@) =~= before.push((k@, span)));
        }
        i += 1;
    }
    out
}

/// What a task says of every reference that it holds.
fn read_facts(node: &Node, a: &Action) -> (r: Facts)
    ensures
        r.view() == facts_of(*node, a.view()),
{
    let (conditions, condition_span) = read_when(node);
    let action = core_action(a.name);
    let when_propagates = str_eq(action, "import_tasks") || str_eq(action, "import_role");
    let apply: Option<&Node> = if str_eq(action, "include_tasks") || str_eq(
        action,
        "include_role",
    ) {
        a.args.get("apply")
    } else {
        None
    };
    let mut apply_when: Vec<String> = Vec::new();
    let mut apply_when_span: Option<Span> = None;
    let mut apply_vars: Vec<(String, Span)> = Vec::new();
    let mut apply_span: Option<Span> = None;
    assert(splitter::texts(apply_when@) =~= Seq::empty());
    assert(spanned(apply_vars@) =~= Seq::empty());
    if let Some(x) = apply {
        let (when, span) = read_when(x);
        apply_when = when;
        apply_when_span = span;
        if let Some(v) = x.get("vars") {
            apply_vars = bound_names(v.entries());
            if apply_vars.len() > 0 {
                apply_span = Some(x.span());
            }
        }
    }
    Facts {
        conditions,
        condition_span,
        condition_key_span: key_span(node, "when"),
        when_propagates,
        apply_when,
        apply_when_span,
        apply_vars,
        apply_span,
        repeated: is_looped(node),
        task_name: owned(word_of(node, "name")),
    }
}

fn task(node: &Node, out: &mut Vec<Reference>)
    ensures
        models(final(out)@) == models(old(out)@) + task_refs(*node),
{
    let ghost before = models(out@);
    match find_action(node) {
        Some(a) => {
            let facts = read_facts(node, &a);
            facts.module_refs(&a, out);
        },
        None => {
            assert(before =~= before + Seq::empty());
        },
    }
}

fn stmt(node: &Node, out: &mut Vec<Reference>)
    ensures
        models(final(out)@) == models(old(out)@) + stmt_refs(*node),
    decreases node, 1int,
{
    let ghost before = models(out@);
    if !matches!(node, Node::Mapping { .. }) {
        assert(before =~= before + Seq::empty());
        return ;
    }
    if node.get("block").is_some() || node.get("rescue").is_some() || node.get(
        "always",
    ).is_some() {
        stmts_under(node, "block", out);
        stmts_under(node, "rescue", out);
        stmts_under(node, "always", out);
        assert(models(out@) =~= before + stmt_refs(*node));
    } else {
        task(node, out);
    }
}

/// The tasks that a node lists under a key.
fn stmts_under(node: &Node, key: &str, out: &mut Vec<Reference>)
    ensures
        models(final(out)@) == models(old(out)@) + held_refs(*node, key@),
    decreases node, 0int,
{
    let ghost before = models(out@);
    let items = held(node, key);
    assert(before =~= before + Seq::empty());
    if items.len() > 0 {
        proof {
            placement::listed_under_is_smaller(*node, key@);
        }
        stmts(items, out);
    }
}

/// The entries of a task list, in order.
fn stmts(items: &[Node], out: &mut Vec<Reference>)
    ensures
        models(final(out)@) == models(old(out)@) + list_refs(items@, items@.len() as int),
    decreases items@, items@.len(),
{
    let ghost before = models(out@);
    let n: usize = items.len();
    let mut i: usize = 0;
    assert(before =~= before + Seq::empty());
    while i < n
        invariant
            i <= n == items@.len(),
            models(out@) == before + list_refs(items@, i as int),
        decreases n - i,
    {
        assert(decreases_to!(items@ => items@[i as int]));
        stmt(&items[i], out);
        i += 1;
        assert(models(out@) =~= before + list_refs(items@, i as int));
    }
}

fn roles(items: &[Node], play: Option<&str>, out: &mut Vec<Reference>)
    ensures
        models(final(out)@) == models(old(out)@) + role_entries(
            items@,
            items@.len() as int,
            match play {
                Some(s) => Some(s@),
                None => None,
            },
        ),
{
    let ghost before = models(out@);
    let ghost name: Option<Seq<char>> = match play {
        Some(s) => Some(s@),
        None => None,
    };
    let n: usize = items.len();
    let mut i: usize = 0;
    assert(before =~= before + Seq::empty());
    while i < n
        invariant
            i <= n == items@.len(),
            name == (match play {
                Some(s) => Some(s@),
                None => None,
            }),
            models(out@) == before + role_entries(items@, i as int, name),
        decreases n - i,
    {
        if let Some(target) = role_of(&items[i]) {
            if let Node::Scalar { value, span } = target {
                let (conditions, condition_span) = read_when(&items[i]);
                let mut r = Reference::new(ReferenceKind::Role, value.as_str(), *span);
                r.task_name = owned(play);
                r.conditional = condition_span.is_some();
                r.conditions = conditions;
                r.condition_span = condition_span;
                r.when_propagates = true;
                push_ref(out, r);
            }
        }
        i += 1;
        assert(models(out@) =~= before + role_entries(items@, i as int, name));
    }
}

/// The references of one entry of `vars_files:`. The alternatives come first: what is looked for by
/// its place must reach one of them before the list around it.
fn vars_files_entry(
    alts: &Vec<(String, Span)>,
    span: Span,
    play: Option<&str>,
    out: &mut Vec<Reference>,
)
    ensures
        models(final(out)@) == models(old(out)@) + entry_refs(
            spanned(alts@),
            span,
            match play {
                Some(s) => Some(s@),
                None => None,
            },
        ),
{
    let ghost before = models(out@);
    let ghost name: Option<Seq<char>> = match play {
        Some(s) => Some(s@),
        None => None,
    };
    let ghost model = spanned(alts@);
    let n: usize = alts.len();
    let mut names: Vec<String> = Vec::new();
    let mut joined = String::new();
    let mut i: usize = 0;
    assert(before =~= before + Seq::empty());
    assert(splitter::texts(names@) =~= names_of(model).subrange(0, 0));
    assert(joined@ =~= Seq::empty());
    while i < n
        invariant
            i <= n == alts@.len(),
            model == spanned(alts@),
            name == (match play {
                Some(s) => Some(s@),
                None => None,
            }),
            models(out@) == before + alternative_refs(model, i as int, name),
            splitter::texts(names@) == names_of(model).subrange(0, i as int),
            joined@ == listed(names_of(model), i as int),
        decreases n - i,
    {
        let mut r = Reference::new(ReferenceKind::VarsFiles, alts[i].0.as_str(), alts[i].1);
        r.grouped = n > 1;
        r.task_name = owned(play);
        push_ref(out, r);
        push_text(&mut names, alts[i].0.as_str());
        if i > 0 {
            joined.append(", ");
        }
        joined.append(alts[i].0.as_str());
        i += 1;
        assert(names_of(model).subrange(0, i as int) =~= names_of(model).subrange(0, i - 1).push(
            model[i - 1].0,
        ));
        assert(models(out@) =~= before + alternative_refs(model, i as int, name));
        assert(joined@ =~= listed(names_of(model), i as int));
    }
    assert(names_of(model).subrange(0, n as int) =~= names_of(model));
    if n > 1 {
        let mut g = Reference::new(ReferenceKind::VarsFiles, joined.as_str(), span);
        g.task_name = owned(play);
        g.vars_files_group = Some(names);
        push_ref(out, g);
    }
    assert(models(out@) =~= before + entry_refs(model, span, name));
}

fn alternatives_of(items: &[Node]) -> (r: Vec<(String, Span)>)
    ensures
        spanned(r@) == alternatives(items@, items@.len() as int),
{
    let mut out: Vec<(String, Span)> = Vec::new();
    let n: usize = items.len();
    let mut i: usize = 0;
    assert(spanned(out@) =~= Seq::empty());
    while i < n
        invariant
            i <= n == items@.len(),
            spanned(out@) == alternatives(items@, i as int),
        decreases n - i,
    {
        let ghost before = spanned(out@);
        if let Some(s) = items[i].as_str() {
            let span = items[i].span();
            out.push((s.to_owned(), span));
            assert(spanned(out@) =~= before.push((s@, span)));
        }
        i += 1;
    }
    out
}

fn vars_files_item(item: &Node, play: Option<&str>, out: &mut Vec<Reference>)
    ensures
        models(final(out)@) == models(old(out)@) + vars_file(
            *item,
            match play {
                Some(s) => Some(s@),
                None => None,
            },
        ),
{
    let ghost before = models(out@);
    match item {
        Node::Scalar { value, span } => {
            let mut one: Vec<(String, Span)> = Vec::new();
            one.push((value.clone(), *span));
            assert(spanned(one@) =~= seq![(value@, *span)]);
            vars_files_entry(&one, *span, play, out);
        },
        Node::Sequence { items, span } => {
            let alts = alternatives_of(items.as_slice());
            vars_files_entry(&alts, *span, play, out);
        },
        _ => {
            assert(before =~= before + Seq::empty());
        },
    }
}

fn vars_files_refs(node: Option<&Node>, play: Option<&str>, out: &mut Vec<Reference>)
    ensures
        models(final(out)@) == models(old(out)@) + vars_files(
            match node {
                Some(n) => Some(*n),
                None => None,
            },
            match play {
                Some(s) => Some(s@),
                None => None,
            },
        ),
{
    let ghost before = models(out@);
    let ghost name: Option<Seq<char>> = match play {
        Some(s) => Some(s@),
        None => None,
    };
    assert(before =~= before + Seq::empty());
    match node {
        Some(Node::Sequence { items, .. }) => {
            let n: usize = items.len();
            let mut i: usize = 0;
            while i < n
                invariant
                    i <= n == items@.len(),
                    name == (match play {
                        Some(s) => Some(s@),
                        None => None,
                    }),
                    models(out@) == before + vars_file_items(items@, i as int, name),
                decreases n - i,
            {
                vars_files_item(&items[i], play, out);
                i += 1;
                assert(models(out@) =~= before + vars_file_items(items@, i as int, name));
            }
        },
        Some(v) => vars_files_item(v, play, out),
        None => {},
    }
}

fn play(node: &Node, out: &mut Vec<Reference>)
    ensures
        models(final(out)@) == models(old(out)@) + play_refs(*node),
{
    let ghost before = models(out@);
    let name = word_of(node, "name");
    roles(held(node, "roles"), name, out);
    vars_files_refs(node.get("vars_files"), name, out);
    stmts_under(node, "pre_tasks", out);
    stmts_under(node, "tasks", out);
    stmts_under(node, "post_tasks", out);
    stmts_under(node, "handlers", out);
    assert(models(out@) =~= before + play_refs(*node));
}

fn literals_of(entries: &[(Node, Node)]) -> (r: Vec<(String, String)>)
    ensures
        splitter::option_models(r@) == literal_vars(entries@, entries@.len() as int),
{
    let mut out: Vec<(String, String)> = Vec::new();
    let n: usize = entries.len();
    let mut i: usize = 0;
    assert(splitter::option_models(out@) =~= Seq::empty());
    while i < n
        invariant
            i <= n == entries@.len(),
            splitter::option_models(out@) == literal_vars(entries@, i as int),
        decreases n - i,
    {
        let ghost before = splitter::option_models(out@);
        if let (Some(k), Some(v)) = (entries[i].0.as_str(), entries[i].1.as_str()) {
            if !contains(v, "{{") {
                out.push((k.to_owned(), v.to_owned()));
                assert(splitter::option_models(out@) =~= before.push((k@, v@)));
            }
        }
        i += 1;
    }
    out
}

/// An `import_playbook:` entry. Its `when:` is no gate: it is copied onto every imported task.
fn import_playbook(node: &Node, target: &Node, out: &mut Vec<Reference>)
    ensures
        models(final(out)@) == models(old(out)@) + import_refs(*node, *target),
{
    let ghost before = models(out@);
    if let Some(file) = target.as_str() {
        let (conditions, condition_span) = read_when(node);
        let mut r = Reference::new(ReferenceKind::ImportPlaybook, file, target.span());
        r.playbook_entry = true;
        r.conditional = condition_span.is_some();
        r.conditions = conditions;
        r.condition_span = condition_span;
        r.condition_key_span = key_span(node, "when");
        r.when_propagates = true;
        r.entry_vars = match node.get("vars") {
            Some(v) => literals_of(v.entries()),
            None => {
                let none: Vec<(String, String)> = Vec::new();
                assert(splitter::option_models(none@) =~= Seq::empty());
                none
            },
        };
        push_ref(out, r);
    }
    assert(models(out@) =~= before + import_refs(*node, *target));
}

fn play_item(item: &Node, out: &mut Vec<Reference>)
    ensures
        models(final(out)@) == models(old(out)@) + item_refs(*item),
{
    let ghost before = models(out@);
    if !matches!(item, Node::Mapping { .. }) {
        assert(before =~= before + Seq::empty());
        return ;
    }
    match find_import(item) {
        Some(target) => import_playbook(item, target, out),
        None => play(item, out),
    }
}

/// What [`extract`] found: the references, and the one fact about the file that a lone reference
/// cannot carry.
pub struct Extracted {
    pub refs: Vec<Reference>,
    /// The file is a playbook, not a file of tasks or handlers. It decides what
    /// `{{ playbook_dir }}` is.
    pub in_playbook: bool,
}

/// Every reference of a file to another.
pub fn extract(nodes: &[Node]) -> (r: Extracted)
    ensures
        models(r.refs@) == refs_of(nodes@),
        r.in_playbook == is_playbook(nodes@),
{
    let mut refs: Vec<Reference> = Vec::new();
    let n: usize = nodes.len();
    let mut k: usize = 0;
    assert(models(refs@) =~= Seq::empty());
    while k < n
        invariant
            k <= n == nodes@.len(),
            placement::first_sequence(nodes@, 0) == placement::first_sequence(nodes@, k as int),
            models(refs@) == Seq::<RefModel>::empty(),
        decreases n - k,
    {
        if matches!(nodes[k], Node::Sequence { .. }) {
            let items = nodes[k].items();
            if !any_play(items) {
                stmts(items, &mut refs);
                assert(models(refs@) =~= refs_of(nodes@));
                return Extracted { refs, in_playbook: false };
            }
            let len: usize = items.len();
            let mut i: usize = 0;
            while i < len
                invariant
                    i <= len == items@.len(),
                    models(refs@) == playbook_refs(items@, i as int),
                decreases len - i,
            {
                play_item(&items[i], &mut refs);
                i += 1;
                assert(models(refs@) =~= playbook_refs(items@, i as int));
            }
            return Extracted { refs, in_playbook: true };
        }
        k += 1;
    }
    Extracted { refs, in_playbook: false }
}

fn dependency_refs(items: &[Node], out: &mut Vec<Reference>)
    ensures
        models(final(out)@) == models(old(out)@) + dependencies(items@, items@.len() as int),
{
    let ghost before = models(out@);
    let n: usize = items.len();
    let mut i: usize = 0;
    assert(before =~= before + Seq::empty());
    while i < n
        invariant
            i <= n == items@.len(),
            models(out@) == before + dependencies(items@, i as int),
        decreases n - i,
    {
        if let Some(target) = role_of(&items[i]) {
            if let Node::Scalar { value, span } = target {
                push_ref(out, Reference::new(ReferenceKind::Role, value.as_str(), *span));
            }
        }
        i += 1;
        assert(models(out@) =~= before + dependencies(items@, i as int));
    }
}

/// The `dependencies:` of a role's `meta/main.yml`: each entry names a role that runs before this
/// one. Only such a file should be handed in; elsewhere the key is data.
pub fn meta_dependencies(nodes: &[Node]) -> (r: Vec<Reference>)
    ensures
        models(r@) == meta_refs(nodes@, nodes@.len() as int),
{
    let mut out: Vec<Reference> = Vec::new();
    let n: usize = nodes.len();
    let mut k: usize = 0;
    assert(models(out@) =~= Seq::empty());
    while k < n
        invariant
            k <= n == nodes@.len(),
            models(out@) == meta_refs(nodes@, k as int),
        decreases n - k,
    {
        dependency_refs(held(&nodes[k], "dependencies"), &mut out);
        k += 1;
    }
    out
}

// ----------------------------------------------------------------------- laws

/// Of the references in tasks, only those of the static forms copy their condition onto what they
/// bring in.
pub proof fn only_static_forms_propagate(node: Node, i: int)
    requires
        0 <= i < task_refs(node).len(),
    ensures
        task_refs(node)[i].when_propagates <==> is_static(
            keywords::action_named((ast::action_of(node)->0).name),
        ),
{
}

/// An `apply:` is read on the dynamic forms and nowhere else.
pub proof fn apply_is_read_on_dynamic_forms_only(node: Node, i: int)
    requires
        0 <= i < task_refs(node).len(),
        !is_dynamic(keywords::action_named((ast::action_of(node)->0).name)),
    ensures
        task_refs(node)[i].apply_when.len() == 0,
        task_refs(node)[i].apply_vars.len() == 0,
        task_refs(node)[i].apply_span is None,
{
}

/// An entry of `roles:` reads no `apply:`, and its condition lands on every task of the role.
pub proof fn a_roles_entry_applies_nothing(item: Node, play: Option<Seq<char>>)
    requires
        ast::role_node(item) is Some,
    ensures
        role_entry(item, play).len() == 1,
        role_entry(item, play)[0].apply_when.len() == 0,
        role_entry(item, play)[0].apply_vars.len() == 0,
        role_entry(item, play)[0].when_propagates,
{
}

/// A dynamic form without an `apply:` propagates nothing, whatever its own condition is.
pub proof fn a_dynamic_form_gates_once(node: Node, i: int)
    requires
        0 <= i < task_refs(node).len(),
        is_dynamic(keywords::action_named((ast::action_of(node)->0).name)),
        apply_of(ast::action_of(node)->0) is None,
    ensures
        propagated(task_refs(node)[i]) is None,
{
    reveal_strlit("include_tasks");
    reveal_strlit("include_role");
    reveal_strlit("import_tasks");
    reveal_strlit("import_role");
    let action = keywords::action_named((ast::action_of(node)->0).name);
    if action == "include_tasks"@ {
        assert(action[1] == 'n');
    } else {
        assert(action[1] == 'n');
    }
}

} // verus!
