//! From a reference to a file on disk, in Ansible's own search order.

use crate::fs::{self, is_among, Fs, Outcome, OutcomeModel};
use crate::include_vars::{self, clone_texts, usual_extensions, Params, ParamsModel};
use crate::order::{self, insert_text};
use crate::paths::{self, is_absolute, is_path_among, join, normalise, split};
use crate::references::{RefModel, Reference, ReferenceKind};
use crate::splitter;
use crate::text::{self, chars_find, contains, from_chars, is_alphanumeric, is_suffix, skip_white};
use crate::text::{str_eq, strip_prefix, to_chars, trimmed_len};
use vstd::prelude::*;

verus! {

#[derive(Debug, Clone, Copy, PartialEq, Eq, Structural)]
pub enum Status {
    Resolved,
    Missing,
    Skipped,
}

#[derive(Debug, Clone, Copy, PartialEq, Eq, Structural)]
pub enum SkipReason {
    /// Contains `{{ }}`: the real target depends on what holds when the playbook runs.
    Templated,
    /// Nothing to point at in this workspace. Not an error, so never reported.
    NotInWorkspace,
    /// A missing alternative in a first-match list: the reference that spans the list has the
    /// verdict.
    GroupAlternative,
}

#[derive(Debug, Clone, PartialEq, Eq)]
pub struct Resolution {
    pub status: Status,
    pub targets: Vec<String>,
    /// Every path that was tried, in order.
    pub candidates: Vec<String>,
    pub skip_reason: Option<SkipReason>,
}

/// What a [`Resolution`] says.
pub struct ResModel {
    pub status: Status,
    pub targets: Seq<Seq<char>>,
    pub candidates: Seq<Seq<char>>,
    pub skip_reason: Option<SkipReason>,
}

impl Resolution {
    pub open spec fn view(&self) -> ResModel {
        ResModel {
            status: self.status,
            targets: splitter::texts(self.targets@),
            candidates: splitter::texts(self.candidates@),
            skip_reason: self.skip_reason,
        }
    }
}

/// The installed Ansible, as far as modules go.
#[derive(Debug)]
pub struct AnsibleInstall {
    /// The directory of the package.
    pub package_dir: Option<String>,
    /// The modules of `ansible.builtin`, by name, with their files.
    pub builtins: Vec<(String, String)>,
    /// What became of modules that moved out of the package.
    pub redirects: Vec<(String, String)>,
}

/// A rename in the routing table of a collection.
#[derive(Debug)]
pub struct Route {
    /// The file that holds the table.
    pub table: String,
    pub module: String,
    pub to: String,
}

/// Where a file stands: what its references are resolved against.
#[derive(Debug)]
pub struct FileContext {
    pub file_dir: String,
    pub role_dir: Option<String>,
    pub project_root: Option<String>,
    /// Where task files are looked for, in order.
    pub task_dirs: Vec<String>,
    pub roles_roots: Vec<String>,
    pub collection_roots: Vec<String>,
    /// Where modules without a collection are looked for, in order.
    pub module_dirs: Vec<String>,
    pub install: AnsibleInstall,
    pub routes: Vec<Route>,
    /// The home directory.
    pub home: Option<String>,
}

/// What a [`FileContext`] says.
pub struct CtxModel {
    pub file_dir: Seq<char>,
    pub role_dir: Option<Seq<char>>,
    pub project_root: Option<Seq<char>>,
    pub task_dirs: Seq<Seq<char>>,
    pub roles_roots: Seq<Seq<char>>,
    pub collection_roots: Seq<Seq<char>>,
    pub module_dirs: Seq<Seq<char>>,
    pub package_dir: Option<Seq<char>>,
    pub builtins: Seq<(Seq<char>, Seq<char>)>,
    pub redirects: Seq<(Seq<char>, Seq<char>)>,
    pub routes: Seq<(Seq<char>, Seq<char>, Seq<char>)>,
    pub home: Option<Seq<char>>,
}

/// What routes say.
pub open spec fn route_models(v: Seq<Route>) -> Seq<(Seq<char>, Seq<char>, Seq<char>)> {
    Seq::new(v.len(), |i: int| (v[i].table@, v[i].module@, v[i].to@))
}

impl FileContext {
    pub open spec fn view(&self) -> CtxModel {
        CtxModel {
            file_dir: self.file_dir@,
            role_dir: fs::maybe(self.role_dir),
            project_root: fs::maybe(self.project_root),
            task_dirs: splitter::texts(self.task_dirs@),
            roles_roots: splitter::texts(self.roles_roots@),
            collection_roots: splitter::texts(self.collection_roots@),
            module_dirs: splitter::texts(self.module_dirs@),
            package_dir: fs::maybe(self.install.package_dir),
            builtins: splitter::option_models(self.install.builtins@),
            redirects: splitter::option_models(self.install.redirects@),
            routes: route_models(self.routes@),
            home: fs::maybe(self.home),
        }
    }
}

// ------------------------------------------------------------------ the model

/// The first of the paths that is a file, from `i` on.
pub open spec fn first_file<F: Fs>(fs: &F, of: Seq<Seq<char>>, i: int) -> Option<Seq<char>>
    decreases of.len() - i,
{
    if i < 0 || i >= of.len() {
        None
    } else if fs.file(of[i]) {
        Some(of[i])
    } else {
        first_file(fs, of, i + 1)
    }
}

/// The first of the paths that is a directory, from `i` on.
pub open spec fn first_folder<F: Fs>(fs: &F, of: Seq<Seq<char>>, i: int) -> Option<Seq<char>>
    decreases of.len() - i,
{
    if i < 0 || i >= of.len() {
        None
    } else if fs.folder(of[i]) {
        Some(of[i])
    } else {
        first_folder(fs, of, i + 1)
    }
}

/// Where nothing is looked for.
pub open spec fn skipped(reason: SkipReason) -> ResModel {
    ResModel {
        status: Status::Skipped,
        targets: Seq::empty(),
        candidates: Seq::empty(),
        skip_reason: Some(reason),
    }
}

/// Where nothing was found.
pub open spec fn missing(candidates: Seq<Seq<char>>) -> ResModel {
    ResModel { status: Status::Missing, targets: Seq::empty(), candidates, skip_reason: None }
}

/// The first match wins.
pub open spec fn found<F: Fs>(fs: &F, candidates: Seq<Seq<char>>) -> ResModel {
    match first_file(fs, candidates, 0) {
        Some(p) => ResModel {
            status: Status::Resolved,
            targets: seq![p],
            candidates,
            skip_reason: None,
        },
        None => missing(candidates),
    }
}

/// The first `n` paths, none repeated in any spelling; the first spelling stays.
pub open spec fn distinct(of: Seq<Seq<char>>, n: int) -> Seq<Seq<char>>
    decreases n,
{
    if n <= 0 || n > of.len() {
        Seq::empty()
    } else {
        let before = distinct(of, n - 1);
        if paths::path_among(before, of[n - 1]) {
            before
        } else {
            before.push(of[n - 1])
        }
    }
}

pub open spec fn unique_of(of: Seq<Seq<char>>) -> Seq<Seq<char>> {
    distinct(of, of.len() as int)
}

/// A path below each of the directories.
pub open spec fn below(bases: Seq<Seq<char>>, value: Seq<char>) -> Seq<Seq<char>> {
    bases.map_values(|b: Seq<char>| paths::normal(paths::joined(b, value)))
}

/// Paths as they are.
pub open spec fn normals(of: Seq<Seq<char>>) -> Seq<Seq<char>> {
    of.map_values(|p: Seq<char>| paths::normal(p))
}

/// A text in which every `pat` from `i` on stands as `by`, behind what is in `acc`.
pub open spec fn replaced_from(
    s: Seq<char>,
    pat: Seq<char>,
    by: Seq<char>,
    i: int,
    acc: Seq<char>,
) -> Seq<char>
    decreases s.len() - i,
{
    match text::find_from(s, pat, i) {
        None => acc + s.subrange(i, s.len() as int),
        Some(k) => if 0 <= i <= k && pat.len() > 0 && k + pat.len() <= s.len() {
            replaced_from(s, pat, by, k + pat.len(), acc + s.subrange(i, k) + by)
        } else {
            acc
        },
    }
}

pub open spec fn replaced(s: Seq<char>, pat: Seq<char>, by: Seq<char>) -> Seq<char> {
    replaced_from(s, pat, by, 0, Seq::empty())
}

/// A text with both spellings of `playbook_dir` replaced.
pub open spec fn anchored(value: Seq<char>, dir: Seq<char>) -> Seq<char> {
    replaced(replaced(value, "{{ playbook_dir }}"@, dir), "{{playbook_dir}}"@, dir)
}

/// Does the value name the directory of the playbook?
pub open spec fn names_playbook_dir(value: Seq<char>) -> bool {
    text::occurs(value, "{{ playbook_dir }}"@) || text::occurs(value, "{{playbook_dir}}"@)
}

/// Is the directory of the playbook put in?
pub open spec fn substituted(value: Seq<char>, ctx: CtxModel) -> bool {
    names_playbook_dir(value) && ctx.project_root is Some
}

/// What a value can be once the directory of the playbook is put in. Which playbook runs is not
/// known, so that is the root of the project and its `playbooks`.
pub open spec fn expanded(value: Seq<char>, ctx: CtxModel) -> Seq<Seq<char>> {
    if substituted(value, ctx) {
        let root = ctx.project_root->0;
        seq![anchored(value, root), anchored(value, paths::joined(root, "playbooks"@))]
    } else {
        seq![value]
    }
}

/// Is any of the values templated?
pub open spec fn any_templated(values: Seq<Seq<char>>) -> bool {
    exists|i: int| 0 <= i < values.len() && text::occurs(#[trigger] values[i], "{{"@)
}

/// Where an entry of `vars_files:` can land: below `vars` beside the play, unless it begins with
/// that, and beside the play. An absolute one, or one below the home directory, is one candidate.
pub open spec fn vars_candidates(
    entry: Seq<char>,
    file_dir: Seq<char>,
    home: Option<Seq<char>>,
) -> Seq<Seq<char>> {
    if text::begins_with(entry, "~/"@) {
        match home {
            Some(h) => seq![
                paths::normal(
                    paths::joined(h, entry.subrange("~/"@.len() as int, entry.len() as int)),
                ),
            ],
            None => seq![entry],
        }
    } else if paths::is_absolute_path(entry) {
        seq![paths::normal(entry)]
    } else if paths::parts(entry, '/')[0] == "vars"@ {
        seq![paths::normal(paths::joined(file_dir, entry))]
    } else {
        seq![
            paths::normal(paths::joined(paths::joined(file_dir, "vars"@), entry)),
            paths::normal(paths::joined(file_dir, entry)),
        ]
    }
}

/// The first alternative that exists, from `i` on. A templated one might exist when the playbook
/// runs, so with one of those nothing is missing.
pub open spec fn group_from<F: Fs>(
    fs: &F,
    alts: Seq<Seq<char>>,
    i: int,
    ctx: CtxModel,
    tried: Seq<Seq<char>>,
    templated: bool,
) -> ResModel
    decreases alts.len() - i,
{
    if i < 0 || i >= alts.len() {
        if templated {
            skipped(SkipReason::Templated)
        } else {
            missing(unique_of(tried))
        }
    } else if text::occurs(alts[i], "{{"@) {
        group_from(fs, alts, i + 1, ctx, tried, true)
    } else {
        let cands = vars_candidates(alts[i], ctx.file_dir, ctx.home);
        match first_file(fs, cands, 0) {
            Some(p) => ResModel {
                status: Status::Resolved,
                targets: seq![p],
                candidates: unique_of(tried + cands),
                skip_reason: None,
            },
            None => group_from(fs, alts, i + 1, ctx, tried + cands, templated),
        }
    }
}

/// Where variables of an `include_vars` are looked for.
pub open spec fn vars_bases(ctx: CtxModel) -> Seq<Seq<char>> {
    let own = seq![ctx.file_dir, paths::joined(ctx.file_dir, "vars"@)];
    let with_role = match ctx.role_dir {
        Some(role) => own.push(paths::joined(role, "vars"@)),
        None => own,
    };
    match ctx.project_root {
        Some(root) => with_role.push(root),
        None => with_role,
    }
}

/// Where a playbook is looked for: beside the one that imports it, then at the root.
pub open spec fn playbook_bases(ctx: CtxModel) -> Seq<Seq<char>> {
    match ctx.project_root {
        Some(root) => seq![ctx.file_dir, root],
        None => seq![ctx.file_dir],
    }
}

/// Where the files of a play's variables are looked for.
pub open spec fn play_vars_bases(ctx: CtxModel) -> Seq<Seq<char>> {
    seq![paths::joined(ctx.file_dir, "vars"@), ctx.file_dir]
}

/// The directories that a kind of path is looked for in; none for the kinds that are names.
pub open spec fn bases_of(kind: ReferenceKind, ctx: CtxModel) -> Option<Seq<Seq<char>>> {
    match kind {
        ReferenceKind::IncludeTasks | ReferenceKind::ImportTasks => Some(ctx.task_dirs),
        ReferenceKind::ImportPlaybook => Some(playbook_bases(ctx)),
        ReferenceKind::IncludeVars => Some(vars_bases(ctx)),
        ReferenceKind::VarsFiles => Some(play_vars_bases(ctx)),
        _ => None,
    }
}

/// The extensions that a file of a role may carry.
pub const ROLE_EXTENSIONS: [&'static str; 3] = [".yml", ".yaml", ".json"];

/// The first `n` extensions on a path.
pub open spec fn with_extensions(p: Seq<char>, exts: Seq<&'static str>, n: int) -> Seq<Seq<char>>
    decreases n,
{
    if n <= 0 || n > exts.len() {
        Seq::empty()
    } else {
        with_extensions(p, exts, n - 1).push(p + exts[n - 1]@)
    }
}

/// The files that a name can mean in a directory of a role. Without an extension it comes first
/// where a `*_from:` gave the name, and last for the default.
pub open spec fn role_files(
    exts: Seq<&'static str>,
    dir: Seq<char>,
    stem: Seq<char>,
    bare_first: bool,
) -> Seq<Seq<char>> {
    let bare = paths::joined(dir, stem);
    let others = with_extensions(bare, exts, exts.len() as int);
    if bare_first {
        seq![bare] + others
    } else {
        others.push(bare)
    }
}

/// The directory of a role: a plain name below the roots of roles, one of three parts below the
/// roots of collections.
pub open spec fn role_home<F: Fs>(fs: &F, name: Seq<char>, ctx: CtxModel) -> Option<Seq<char>> {
    let of = paths::parts(name, '.');
    if text::occurs(name, "{{"@) {
        None
    } else if of.len() == 3 {
        first_folder(fs, collection_dirs(ctx.collection_roots, of[0], of[1], "roles"@, of[2]), 0)
    } else {
        first_folder(fs, plain_below(ctx.roles_roots, name), 0)
    }
}

/// A path below each of the directories, as it is written.
pub open spec fn plain_below(bases: Seq<Seq<char>>, value: Seq<char>) -> Seq<Seq<char>> {
    bases.map_values(|b: Seq<char>| paths::joined(b, value))
}

/// A file or directory of a collection, below each of the roots.
pub open spec fn collection_dirs(
    roots: Seq<Seq<char>>,
    ns: Seq<char>,
    coll: Seq<char>,
    dir: Seq<char>,
    name: Seq<char>,
) -> Seq<Seq<char>> {
    roots.map_values(
        |r: Seq<char>| paths::joined(paths::joined(paths::joined(paths::joined(r, ns), coll), dir), name),
    )
}

/// Suffixes that no module has: compiled files, backups, documentation.
pub const MODULE_IGNORE_EXTS: [&'static str; 12] = [
    ".pyc",
    ".pyo",
    ".swp",
    ".bak",
    "~",
    ".rpm",
    ".md",
    ".txt",
    ".rst",
    ".yaml",
    ".yml",
    ".ini",
];

/// The place of the last dot before `n`.
pub open spec fn last_dot(s: Seq<char>, n: int) -> Option<int>
    decreases n,
{
    if n <= 0 || n > s.len() {
        None
    } else if s[n - 1] == '.' {
        Some(n - 1)
    } else {
        last_dot(s, n - 1)
    }
}

/// A file name without its last extension.
pub open spec fn stem(file: Seq<char>) -> Seq<char> {
    match last_dot(file, file.len() as int) {
        Some(k) => file.subrange(0, k),
        None => file,
    }
}

/// Does the file name end in one of these?
pub open spec fn has_suffix(file: Seq<char>, exts: Seq<&'static str>) -> bool {
    exists|i: int| 0 <= i < exts.len() && text::ends_with(file, (#[trigger] exts[i])@)
}

/// Does the file hold the module of that name? A module may have any extension or none.
pub open spec fn holds_module(file: Seq<char>, name: Seq<char>) -> bool {
    stem(file) == name && !has_suffix(file, MODULE_IGNORE_EXTS@)
}

/// The paths of those of the first `n` files that hold a module.
pub open spec fn module_paths(
    names: Seq<Seq<char>>,
    n: int,
    dir: Seq<char>,
    name: Seq<char>,
) -> Seq<Seq<char>>
    decreases n,
{
    if n <= 0 || n > names.len() {
        Seq::empty()
    } else if holds_module(names[n - 1], name) {
        order::inserted(
            module_paths(names, n - 1, dir, name),
            paths::joined(dir, names[n - 1]),
        )
    } else {
        module_paths(names, n - 1, dir, name)
    }
}

/// The files in a directory that a module can be, in order; where there are none, the one that a
/// report names.
pub open spec fn modules_in<F: Fs>(fs: &F, dir: Seq<char>, name: Seq<char>) -> Seq<Seq<char>> {
    let names = fs.names(dir);
    let hits = module_paths(names, names.len() as int, dir, name);
    if hits.len() == 0 {
        seq![paths::joined(dir, name + ".py"@)]
    } else {
        hits
    }
}

/// The candidates in the first `n` directories.
pub open spec fn legacy_candidates<F: Fs>(
    fs: &F,
    dirs: Seq<Seq<char>>,
    n: int,
    name: Seq<char>,
) -> Seq<Seq<char>>
    decreases n,
{
    if n <= 0 || n > dirs.len() {
        Seq::empty()
    } else {
        legacy_candidates(fs, dirs, n - 1, name) + modules_in(fs, dirs[n - 1], name)
    }
}

/// The candidates of a bare name: the directories of modules, then the package.
pub open spec fn bare_candidates<F: Fs>(fs: &F, name: Seq<char>, ctx: CtxModel) -> Seq<Seq<char>> {
    let local = legacy_candidates(fs, ctx.module_dirs, ctx.module_dirs.len() as int, name);
    let file = name + ".py"@;
    match ctx.package_dir {
        Some(pkg) => local.push(paths::joined(paths::joined(pkg, "modules"@), file)).push(
            paths::joined(paths::joined(pkg, "plugins/action"@), file),
        ),
        None => local,
    }
}

/// The directory of a collection's plugins.
pub open spec fn plugins_dir(root: Seq<char>, ns: Seq<char>, coll: Seq<char>) -> Seq<char> {
    paths::joined(paths::joined(paths::joined(root, ns), coll), "plugins"@)
}

/// The candidates of a module in the first `n` roots: its own file, then its action plugin, which
/// is Python always.
pub open spec fn collection_candidates<F: Fs>(
    fs: &F,
    roots: Seq<Seq<char>>,
    n: int,
    ns: Seq<char>,
    coll: Seq<char>,
    module: Seq<char>,
) -> Seq<Seq<char>>
    decreases n,
{
    if n <= 0 || n > roots.len() {
        Seq::empty()
    } else {
        let base = plugins_dir(roots[n - 1], ns, coll);
        collection_candidates(fs, roots, n - 1, ns, coll, module) + modules_in(
            fs,
            paths::joined(base, "modules"@),
            module,
        ) + seq![paths::joined(paths::joined(base, "action"@), module + ".py"@)]
    }
}

/// The first value under a key, from `i` on.
pub open spec fn lookup(of: Seq<(Seq<char>, Seq<char>)>, key: Seq<char>, i: int) -> Option<
    Seq<char>,
>
    decreases of.len() - i,
{
    if i < 0 || i >= of.len() {
        None
    } else if of[i].0 == key {
        Some(of[i].1)
    } else {
        lookup(of, key, i + 1)
    }
}

/// The candidates of a module of a collection. One of `ansible.builtin` is in the package.
pub open spec fn qualified_candidates<F: Fs>(
    fs: &F,
    ns: Seq<char>,
    coll: Seq<char>,
    module: Seq<char>,
    ctx: CtxModel,
) -> Seq<Seq<char>> {
    let roots = ctx.collection_roots;
    let all = collection_candidates(fs, roots, roots.len() as int, ns, coll, module);
    let builtin = lookup(ctx.builtins, module, 0);
    if ns == "ansible"@ && coll == "builtin"@ && builtin is Some {
        seq![builtin->0] + all
    } else {
        all
    }
}

/// The first rename of a module in a table, from `i` on.
pub open spec fn routed(
    of: Seq<(Seq<char>, Seq<char>, Seq<char>)>,
    table: Seq<char>,
    module: Seq<char>,
    i: int,
) -> Option<Seq<char>>
    decreases of.len() - i,
{
    if i < 0 || i >= of.len() {
        None
    } else if of[i].0 == table && of[i].1 == module {
        Some(of[i].2)
    } else {
        routed(of, table, module, i + 1)
    }
}

/// A collection's own rename for one of its modules, from the first routing table that exists.
pub open spec fn collection_redirect<F: Fs>(
    fs: &F,
    ns: Seq<char>,
    coll: Seq<char>,
    module: Seq<char>,
    ctx: CtxModel,
) -> Option<Seq<char>> {
    let tables = ctx.collection_roots.map_values(
        |r: Seq<char>|
            paths::joined(paths::joined(paths::joined(r, ns), coll), "meta/runtime.yml"@),
    );
    match first_file(fs, tables, 0) {
        Some(table) => routed(ctx.routes, table, module, 0),
        None => None,
    }
}

/// The candidates of a module name and what it was renamed to. A name has one part or three.
pub open spec fn module_step<F: Fs>(fs: &F, name: Seq<char>, ctx: CtxModel) -> Option<
    (Seq<Seq<char>>, Option<Seq<char>>),
> {
    let of = paths::parts(name, '.');
    if of.len() == 1 {
        Some((bare_candidates(fs, of[0], ctx), lookup(ctx.redirects, of[0], 0)))
    } else if of.len() == 3 {
        Some(
            (
                qualified_candidates(fs, of[0], of[1], of[2], ctx),
                collection_redirect(fs, of[0], of[1], of[2], ctx),
            ),
        )
    } else {
        None
    }
}

/// How many renames there are.
pub open spec fn renames(ctx: CtxModel) -> nat {
    ctx.redirects.len() + ctx.routes.len()
}

/// A module is looked for under its name; where it is not there and was renamed, under the new
/// name, and so on. No name is taken twice. What ends unresolved is skipped, not missing.
pub open spec fn module_chain<F: Fs>(
    fs: &F,
    name: Seq<char>,
    ctx: CtxModel,
    visited: Seq<Seq<char>>,
    trail: Seq<Seq<char>>,
) -> ResModel
    decreases renames(ctx) + 1 - visited.len(),
{
    match module_step(fs, name, ctx) {
        None => skipped(SkipReason::NotInWorkspace),
        Some((cands, redirect)) => {
            let all = trail + cands;
            match first_file(fs, cands, 0) {
                Some(p) => ResModel {
                    status: Status::Resolved,
                    targets: seq![p],
                    candidates: all,
                    skip_reason: None,
                },
                None => if redirect is Some && !fs::among(visited, redirect->0) && visited.len()
                    <= renames(ctx) {
                    module_chain(fs, redirect->0, ctx, visited.push(redirect->0), all)
                } else {
                    ResModel {
                        status: Status::Skipped,
                        targets: Seq::empty(),
                        candidates: all,
                        skip_reason: Some(SkipReason::NotInWorkspace),
                    }
                },
            }
        },
    }
}

/// What came of loading a directory of variables. The targets are the files that it loads; the
/// status is that of the directory, so an empty one resolves too.
pub open spec fn dir_resolution(outcome: OutcomeModel, role_dir: Option<Seq<char>>) -> ResModel {
    match outcome {
        OutcomeModel::Loaded { dir, files } => ResModel {
            status: Status::Resolved,
            targets: files,
            candidates: listed(dir),
            skip_reason: None,
        },
        OutcomeModel::CwdFallback { relative } => missing(
            match role_dir {
                Some(d) => seq![paths::joined(d, relative)],
                None => Seq::empty(),
            },
        ),
        OutcomeModel::Failed { root } => missing(listed(root)),
    }
}

pub open spec fn listed(p: Option<Seq<char>>) -> Seq<Seq<char>> {
    match p {
        Some(p) => seq![p],
        None => Seq::empty(),
    }
}

/// The arguments of an `include_vars` of a directory.
pub open spec fn dir_params(r: RefModel) -> ParamsModel {
    match r.include_vars {
        Some(p) => p,
        None => ParamsModel {
            dir: Some(r.value),
            extensions: include_vars::default_extensions(),
            depth: 0,
        },
    }
}

/// A role, by its default task file. One that is reached by its `tasks_from` alone needs none.
pub open spec fn role_resolution<F: Fs>(fs: &F, r: RefModel, ctx: CtxModel) -> ResModel {
    match role_home(fs, r.value, ctx) {
        Some(dir) => {
            let res = found(
                fs,
                role_files(ROLE_EXTENSIONS@, paths::joined(dir, "tasks"@), "main"@, false),
            );
            if res.status == Status::Missing && r.has_tasks_from {
                skipped(SkipReason::NotInWorkspace)
            } else {
                res
            }
        },
        None => missing(plain_below(ctx.roles_roots, r.value)),
    }
}

/// A task file of a role that a `tasks_from` names.
pub open spec fn tasks_from_resolution<F: Fs>(fs: &F, r: RefModel, ctx: CtxModel) -> ResModel {
    let home = match r.role {
        Some(name) => role_home(fs, name, ctx),
        None => None,
    };
    match home {
        Some(dir) => found(
            fs,
            role_files(ROLE_EXTENSIONS@, paths::joined(dir, "tasks"@), r.value, true),
        ),
        None => skipped(SkipReason::NotInWorkspace),
    }
}

/// A templated path: every file that it could reach, never a warning.
pub open spec fn templated_resolution<F: Fs>(fs: &F, r: RefModel, ctx: CtxModel) -> ResModel {
    match r.kind {
        ReferenceKind::IncludeTasks | ReferenceKind::ImportTasks | ReferenceKind::VarsFiles => {
            let bases = bases_of(r.kind, ctx)->0;
            let targets = fs.reached(bases, r.value);
            ResModel {
                status: if targets.len() == 0 {
                    Status::Skipped
                } else {
                    Status::Resolved
                },
                targets,
                candidates: Seq::empty(),
                skip_reason: Some(SkipReason::Templated),
            }
        },
        _ => skipped(SkipReason::Templated),
    }
}

/// An entry of `vars_files:`. An alternative that is missing leaves the verdict to its list.
pub open spec fn vars_files_resolution<F: Fs>(fs: &F, r: RefModel, ctx: CtxModel) -> ResModel {
    let res = if substituted(r.value, ctx) {
        found(fs, unique_of(normals(expanded(r.value, ctx))))
    } else {
        found(fs, vars_candidates(r.value, ctx.file_dir, ctx.home))
    };
    if res.status == Status::Missing && r.grouped {
        ResModel {
            status: Status::Skipped,
            skip_reason: Some(SkipReason::GroupAlternative),
            ..res
        }
    } else {
        res
    }
}

/// What a reference resolves to.
pub open spec fn resolved<F: Fs>(fs: &F, r: RefModel, ctx: CtxModel) -> ResModel {
    let values = expanded(r.value, ctx);
    if r.vars_files_group is Some {
        group_from(fs, r.vars_files_group->0, 0, ctx, Seq::empty(), false)
    } else if r.templated && r.kind == ReferenceKind::ImportPlaybook {
        missing(Seq::empty())
    } else if any_templated(values) {
        templated_resolution(fs, r, ctx)
    } else {
        match r.kind {
            ReferenceKind::IncludeTasks | ReferenceKind::ImportTasks => if substituted(
                r.value,
                ctx,
            ) {
                found(fs, unique_of(normals(values)))
            } else {
                found(fs, unique_of(below(ctx.task_dirs, r.value)))
            },
            ReferenceKind::ImportPlaybook => found(
                fs,
                unique_of(below(playbook_bases(ctx), r.value)),
            ),
            ReferenceKind::IncludeVars => found(fs, unique_of(below(vars_bases(ctx), r.value))),
            ReferenceKind::VarsFiles => vars_files_resolution(fs, r, ctx),
            ReferenceKind::IncludeVarsDir => dir_resolution(
                fs.loaded(dir_params(r), ctx.role_dir, ctx.file_dir),
                ctx.role_dir,
            ),
            ReferenceKind::Role => role_resolution(fs, r, ctx),
            ReferenceKind::TasksFrom => tasks_from_resolution(fs, r, ctx),
            ReferenceKind::Module => module_chain(
                fs,
                r.value,
                ctx,
                seq![r.value],
                Seq::empty(),
            ),
            ReferenceKind::TemplateSrc => skipped(SkipReason::NotInWorkspace),
        }
    }
}

// ------------------------------------------------------------- known literals

/// Is the text one identifier?
pub open spec fn bare_name(s: Seq<char>) -> bool {
    s.len() > 0 && forall|i: int|
        0 <= i < s.len() ==> text::alphanumeric(#[trigger] s[i]) || s[i] == '_'
}

/// A text and the first `n` values behind it.
pub open spec fn continued(base: Seq<char>, vals: Seq<Seq<char>>, n: int) -> Seq<Seq<char>>
    decreases n,
{
    if n <= 0 || n > vals.len() {
        Seq::empty()
    } else {
        continued(base, vals, n - 1).push(base + vals[n - 1])
    }
}

/// Each of the first `n` texts, then a text, then each of the values.
pub open spec fn product(of: Seq<Seq<char>>, n: int, middle: Seq<char>, vals: Seq<Seq<char>>) -> Seq<
    Seq<char>,
>
    decreases n,
{
    if n <= 0 || n > of.len() {
        Seq::empty()
    } else {
        product(of, n - 1, middle, vals) + continued(
            of[n - 1] + middle,
            vals,
            vals.len() as int,
        )
    }
}

/// What a value can be from `i` on, once its variables are put in, behind each of the texts. Nothing
/// where a token is no bare name with a known value.
pub open spec fn put_in(
    value: Seq<char>,
    i: int,
    literals: Seq<(String, Vec<String>)>,
    of: Seq<Seq<char>>,
) -> Option<Seq<Seq<char>>>
    decreases value.len() - i,
{
    match text::find_from(value, "{{"@, i) {
        None => Some(
            of.map_values(|s: Seq<char>| s + value.subrange(i, value.len() as int)),
        ),
        Some(open) => match text::find_from(value, "}}"@, open + 2) {
            None => None,
            Some(close) => {
                let token = text::trim(value.subrange(open + 2, close));
                match fs::answer(literals, token, 0) {
                    Some(vals) => if bare_name(token) && 0 <= i <= open && open + 2 <= close
                        && close + 2 <= value.len() {
                        let next = product(
                            of,
                            of.len() as int,
                            value.subrange(i, open),
                            vals,
                        );
                        put_in(value, close + 2, literals, next)
                    } else {
                        None
                    },
                    None => None,
                }
            },
        },
    }
}

/// What a value can be once its variables are put in, in order.
pub open spec fn substitutions(value: Seq<char>, literals: Seq<(String, Vec<String>)>) -> Seq<
    Seq<char>,
> {
    match put_in(value, 0, literals, seq![Seq::empty()]) {
        Some(of) => order::sorted(of, of.len() as int),
        None => Seq::empty(),
    }
}

/// The first `n` values below each of the directories.
pub open spec fn all_below(values: Seq<Seq<char>>, n: int, bases: Seq<Seq<char>>) -> Seq<Seq<char>>
    decreases n,
{
    if n <= 0 || n > values.len() {
        Seq::empty()
    } else {
        all_below(values, n - 1, bases) + below(bases, values[n - 1])
    }
}

/// What a reference resolves to where the values of some variables are known. That is for
/// navigation only: a variable can be overridden when the playbook runs, so nothing is missing.
pub open spec fn resolved_with<F: Fs>(
    fs: &F,
    r: RefModel,
    ctx: CtxModel,
    literals: Seq<(String, Vec<String>)>,
) -> ResModel {
    let bases = bases_of(r.kind, ctx);
    let subs = substitutions(r.value, literals);
    if text::occurs(r.value, "{{"@) && r.vars_files_group is None && bases is Some && subs.len()
        > 0 {
        let res = found(fs, unique_of(all_below(subs, subs.len() as int, bases->0)));
        ResModel {
            status: if res.status == Status::Missing {
                Status::Skipped
            } else {
                res.status
            },
            skip_reason: Some(SkipReason::Templated),
            ..res
        }
    } else {
        resolved(fs, r, ctx)
    }
}

// -------------------------------------------------------------- the functions

/// The id of the rule that a reference is reported under.
pub open spec fn rule_of(r: RefModel) -> Seq<char> {
    if r.kind == ReferenceKind::ImportPlaybook && r.templated {
        "templated-import"@
    } else if r.kind == ReferenceKind::IncludeVarsDir {
        "missing-dir"@
    } else {
        "missing-file"@
    }
}

/// The id of the rule that a reference is reported under.
pub fn rule_id(r: &Reference) -> (id: &'static str)
    ensures
        id@ == rule_of(r.view()),
{
    match (r.kind, r.templated) {
        (ReferenceKind::ImportPlaybook, true) => "templated-import",
        (ReferenceKind::IncludeVarsDir, _) => "missing-dir",
        _ => "missing-file",
    }
}

/// Adds a path behind others.
fn push_path(v: &mut Vec<String>, s: String)
    ensures
        splitter::texts(final(v)@) == splitter::texts(old(v)@).push(s@),
{
    let ghost before = v@;
    let ghost text = s@;
    v.push(s);
    assert(splitter::texts(v@) =~= splitter::texts(before).push(text));
}

/// Adds paths behind others.
fn push_paths(v: &mut Vec<String>, more: Vec<String>)
    ensures
        splitter::texts(final(v)@) == splitter::texts(old(v)@) + splitter::texts(more@),
{
    let mut more = more;
    let ghost a = v@;
    let ghost b = more@;
    v.append(&mut more);
    assert(v@ =~= a + b);
    assert(splitter::texts(v@) =~= splitter::texts(a) + splitter::texts(b));
}

fn no_paths() -> (r: Vec<String>)
    ensures
        splitter::texts(r@) == Seq::<Seq<char>>::empty(),
{
    let none: Vec<String> = Vec::new();
    assert(splitter::texts(none@) =~= Seq::empty());
    none
}

fn one_path(s: String) -> (r: Vec<String>)
    ensures
        splitter::texts(r@) == seq![s@],
{
    let mut one: Vec<String> = Vec::new();
    let ghost text = s@;
    one.push(s);
    assert(splitter::texts(one@) =~= seq![text]);
    one
}

fn find_file<F: Fs>(fs: &F, of: &Vec<String>) -> (r: Option<usize>)
    ensures
        r is Some == first_file(fs, splitter::texts(of@), 0) is Some,
        r is Some ==> r->0 < of@.len() && first_file(fs, splitter::texts(of@), 0)->0
            == of@[r->0 as int]@,
{
    let ghost model = splitter::texts(of@);
    let n: usize = of.len();
    let mut i: usize = 0;
    while i < n
        invariant
            i <= n == of@.len(),
            model == splitter::texts(of@),
            first_file(fs, model, 0) == first_file(fs, model, i as int),
        decreases n - i,
    {
        if fs.is_file(of[i].as_str()) {
            return Some(i);
        }
        i += 1;
    }
    None
}

fn find_folder<F: Fs>(fs: &F, of: &Vec<String>) -> (r: Option<usize>)
    ensures
        r is Some == first_folder(fs, splitter::texts(of@), 0) is Some,
        r is Some ==> r->0 < of@.len() && first_folder(fs, splitter::texts(of@), 0)->0
            == of@[r->0 as int]@,
{
    let ghost model = splitter::texts(of@);
    let n: usize = of.len();
    let mut i: usize = 0;
    while i < n
        invariant
            i <= n == of@.len(),
            model == splitter::texts(of@),
            first_folder(fs, model, 0) == first_folder(fs, model, i as int),
        decreases n - i,
    {
        if fs.is_dir(of[i].as_str()) {
            return Some(i);
        }
        i += 1;
    }
    None
}

impl Resolution {
    fn skipped(reason: SkipReason) -> (r: Self)
        ensures
            r.view() == skipped(reason),
    {
        Resolution {
            status: Status::Skipped,
            targets: no_paths(),
            candidates: no_paths(),
            skip_reason: Some(reason),
        }
    }

    fn missing(candidates: Vec<String>) -> (r: Self)
        ensures
            r.view() == missing(splitter::texts(candidates@)),
    {
        Resolution {
            status: Status::Missing,
            targets: no_paths(),
            candidates,
            skip_reason: None,
        }
    }

    /// The first match wins: Ansible takes the first hit in its search order and never reports the
    /// shadowed one.
    fn from_candidates<F: Fs>(candidates: Vec<String>, fs: &F) -> (r: Self)
        ensures
            r.view() == found(fs, splitter::texts(candidates@)),
    {
        match find_file(fs, &candidates) {
            Some(i) => Resolution {
                status: Status::Resolved,
                targets: one_path(candidates[i].clone()),
                candidates,
                skip_reason: None,
            },
            None => Resolution::missing(candidates),
        }
    }
}

/// The paths, none repeated in any spelling.
fn unique(of: &Vec<String>) -> (r: Vec<String>)
    ensures
        splitter::texts(r@) == unique_of(splitter::texts(of@)),
{
    let ghost model = splitter::texts(of@);
    let mut out = no_paths();
    let n: usize = of.len();
    let mut i: usize = 0;
    while i < n
        invariant
            i <= n == of@.len(),
            model == splitter::texts(of@),
            splitter::texts(out@) == distinct(model, i as int),
        decreases n - i,
    {
        if !is_path_among(&out, of[i].as_str()) {
            push_path(&mut out, of[i].clone());
        }
        i += 1;
    }
    out
}

/// A path below each of the directories.
fn below_each(bases: &Vec<String>, value: &str) -> (r: Vec<String>)
    ensures
        splitter::texts(r@) == below(splitter::texts(bases@), value@),
{
    let ghost model = below(splitter::texts(bases@), value@);
    let mut out = no_paths();
    let n: usize = bases.len();
    let mut i: usize = 0;
    assert(splitter::texts(out@) =~= model.subrange(0, 0));
    while i < n
        invariant
            i <= n == bases@.len(),
            model == below(splitter::texts(bases@), value@),
            splitter::texts(out@) == model.subrange(0, i as int),
        decreases n - i,
    {
        push_path(&mut out, normalise(join(bases[i].as_str(), value).as_str()));
        i += 1;
        assert(model.subrange(0, i as int) =~= model.subrange(0, i - 1).push(model[i - 1]));
    }
    assert(model.subrange(0, n as int) =~= model);
    out
}

/// A path below each of the directories, as it is written.
fn join_each(bases: &Vec<String>, value: &str) -> (r: Vec<String>)
    ensures
        splitter::texts(r@) == plain_below(splitter::texts(bases@), value@),
{
    let ghost model = plain_below(splitter::texts(bases@), value@);
    let mut out = no_paths();
    let n: usize = bases.len();
    let mut i: usize = 0;
    assert(splitter::texts(out@) =~= model.subrange(0, 0));
    while i < n
        invariant
            i <= n == bases@.len(),
            model == plain_below(splitter::texts(bases@), value@),
            splitter::texts(out@) == model.subrange(0, i as int),
        decreases n - i,
    {
        push_path(&mut out, join(bases[i].as_str(), value));
        i += 1;
        assert(model.subrange(0, i as int) =~= model.subrange(0, i - 1).push(model[i - 1]));
    }
    assert(model.subrange(0, n as int) =~= model);
    out
}

fn normalise_each(of: &Vec<String>) -> (r: Vec<String>)
    ensures
        splitter::texts(r@) == normals(splitter::texts(of@)),
{
    let ghost model = normals(splitter::texts(of@));
    let mut out = no_paths();
    let n: usize = of.len();
    let mut i: usize = 0;
    assert(splitter::texts(out@) =~= model.subrange(0, 0));
    while i < n
        invariant
            i <= n == of@.len(),
            model == normals(splitter::texts(of@)),
            splitter::texts(out@) == model.subrange(0, i as int),
        decreases n - i,
    {
        push_path(&mut out, normalise(of[i].as_str()));
        i += 1;
        assert(model.subrange(0, i as int) =~= model.subrange(0, i - 1).push(model[i - 1]));
    }
    assert(model.subrange(0, n as int) =~= model);
    out
}

/// A text in which every `pat` stands as `by`.
fn replace_all(s: &str, pat: &str, by: &str) -> (r: String)
    requires
        pat@.len() > 0,
    ensures
        r@ == replaced(s@, pat@, by@),
{
    let v = to_chars(s);
    let p = to_chars(pat);
    let n: usize = v.len();
    let m: usize = p.len();
    let mut out = String::new();
    let mut i: usize = 0;
    assert(out@ =~= Seq::empty());
    loop
        invariant
            i <= n == v@.len(),
            v@ == s@,
            p@ == pat@,
            m == p@.len(),
            m > 0,
            replaced(s@, pat@, by@) == replaced_from(s@, pat@, by@, i as int, out@),
        decreases n - i,
    {
        match chars_find(v.as_slice(), p.as_slice(), i) {
            None => {
                let rest = from_chars(v.as_slice(), i, n);
                out.append(rest.as_str());
                return out;
            },
            Some(k) => {
                proof {
                    text::find_from_is_first(s@, pat@, i as int);
                }
                let ghost before = out@;
                let piece = from_chars(v.as_slice(), i, k);
                out.append(piece.as_str());
                out.append(by);
                assert(out@ == before + s@.subrange(i as int, k as int) + by@);
                i = k + m;
            },
        }
    }
}

fn anchor(value: &str, dir: &str) -> (r: String)
    ensures
        r@ == anchored(value@, dir@),
{
    proof {
        reveal_strlit("{{ playbook_dir }}");
        reveal_strlit("{{playbook_dir}}");
    }
    let once = replace_all(value, "{{ playbook_dir }}", dir);
    replace_all(once.as_str(), "{{playbook_dir}}", dir)
}

/// What a value can be once the directory of the playbook is put in: the values, whether any is
/// templated still, and whether anything was put in.
fn expand_magic(value: &str, ctx: &FileContext) -> (r: (Vec<String>, bool, bool))
    ensures
        splitter::texts(r.0@) == expanded(value@, ctx.view()),
        r.1 == any_templated(expanded(value@, ctx.view())),
        r.2 == substituted(value@, ctx.view()),
{
    let names = contains(value, "{{ playbook_dir }}") || contains(value, "{{playbook_dir}}");
    let mut out = no_paths();
    let mut put = false;
    match &ctx.project_root {
        Some(root) if names => {
            push_path(&mut out, anchor(value, root.as_str()));
            push_path(&mut out, anchor(value, join(root.as_str(), "playbooks").as_str()));
            put = true;
        },
        _ => {
            push_path(&mut out, value.to_owned());
        },
    }
    assert(splitter::texts(out@) =~= expanded(value@, ctx.view()));
    let templated = has_templated(&out);
    (out, templated, put)
}

fn has_templated(of: &Vec<String>) -> (r: bool)
    ensures
        r == any_templated(splitter::texts(of@)),
{
    let ghost model = splitter::texts(of@);
    let n: usize = of.len();
    let mut i: usize = 0;
    while i < n
        invariant
            i <= n == of@.len(),
            model == splitter::texts(of@),
            forall|j: int| 0 <= j < i ==> !text::occurs(#[trigger] model[j], "{{"@),
        decreases n - i,
    {
        if contains(of[i].as_str(), "{{") {
            assert(text::occurs(model[i as int], "{{"@));
            return true;
        }
        i += 1;
    }
    false
}

/// Where an entry of `vars_files:` can land.
pub fn vars_files_candidates(entry: &str, file_dir: &str, home: &Option<String>) -> (r: Vec<String>)
    ensures
        splitter::texts(r@) == vars_candidates(entry@, file_dir@, fs::maybe(*home)),
{
    if let Some(rest) = strip_prefix(entry, "~/") {
        return match home {
            Some(h) => one_path(normalise(join(h.as_str(), rest).as_str())),
            None => one_path(entry.to_owned()),
        };
    }
    if is_absolute(entry) {
        return one_path(normalise(entry));
    }
    let mut out = no_paths();
    let of = split(entry, '/');
    assert(splitter::texts(of@)[0] == of@[0]@);
    if !str_eq(of[0].as_str(), "vars") {
        push_path(&mut out, normalise(join(join(file_dir, "vars").as_str(), entry).as_str()));
    }
    push_path(&mut out, normalise(join(file_dir, entry).as_str()));
    assert(splitter::texts(out@) =~= vars_candidates(entry@, file_dir@, fs::maybe(*home)));
    out
}

/// The first alternative that exists; missing only where none can.
fn resolve_vars_files_group<F: Fs>(alts: &Vec<String>, ctx: &FileContext, fs: &F) -> (r: Resolution)
    ensures
        r.view() == group_from(
            fs,
            splitter::texts(alts@),
            0,
            ctx.view(),
            Seq::empty(),
            false,
        ),
{
    let ghost model = splitter::texts(alts@);
    let ghost whole = group_from(fs, model, 0, ctx.view(), Seq::empty(), false);
    let mut tried = no_paths();
    let mut templated = false;
    let n: usize = alts.len();
    let mut i: usize = 0;
    while i < n
        invariant
            i <= n == alts@.len(),
            model == splitter::texts(alts@),
            whole == group_from(fs, model, 0, ctx.view(), Seq::empty(), false),
            whole == group_from(
                fs,
                model,
                i as int,
                ctx.view(),
                splitter::texts(tried@),
                templated,
            ),
        decreases n - i,
    {
        let alt = alts[i].as_str();
        if contains(alt, "{{") {
            templated = true;
        } else {
            let cands = vars_files_candidates(alt, ctx.file_dir.as_str(), &ctx.home);
            let hit = match find_file(fs, &cands) {
                Some(k) => Some(cands[k].clone()),
                None => None,
            };
            push_paths(&mut tried, cands);
            if let Some(p) = hit {
                return Resolution {
                    status: Status::Resolved,
                    targets: one_path(p),
                    candidates: unique(&tried),
                    skip_reason: None,
                };
            }
        }
        i += 1;
    }
    if templated {
        return Resolution::skipped(SkipReason::Templated);
    }
    Resolution::missing(unique(&tried))
}

/// The directories that a kind of path is looked for in; none for the kinds that are names.
fn path_bases(kind: ReferenceKind, ctx: &FileContext) -> (r: Option<Vec<String>>)
    ensures
        r is Some == bases_of(kind, ctx.view()) is Some,
        r is Some ==> splitter::texts((r->0)@) == bases_of(kind, ctx.view())->0,
{
    match kind {
        ReferenceKind::IncludeTasks | ReferenceKind::ImportTasks => Some(
            clone_texts(&ctx.task_dirs),
        ),
        ReferenceKind::ImportPlaybook => {
            let mut out = one_path(ctx.file_dir.clone());
            if let Some(root) = &ctx.project_root {
                push_path(&mut out, root.clone());
            }
            assert(splitter::texts(out@) =~= playbook_bases(ctx.view()));
            Some(out)
        },
        ReferenceKind::IncludeVars => {
            let mut out = one_path(ctx.file_dir.clone());
            push_path(&mut out, join(ctx.file_dir.as_str(), "vars"));
            if let Some(role) = &ctx.role_dir {
                push_path(&mut out, join(role.as_str(), "vars"));
            }
            if let Some(root) = &ctx.project_root {
                push_path(&mut out, root.clone());
            }
            assert(splitter::texts(out@) =~= vars_bases(ctx.view()));
            Some(out)
        },
        ReferenceKind::VarsFiles => {
            let mut out = one_path(join(ctx.file_dir.as_str(), "vars"));
            push_path(&mut out, ctx.file_dir.clone());
            assert(splitter::texts(out@) =~= play_vars_bases(ctx.view()));
            Some(out)
        },
        _ => None,
    }
}

/// The extensions that a file of a role may carry, in the order in which they are tried.
#[derive(Debug, Clone, Copy)]
pub struct RoleExts {
    pub exts: &'static [&'static str],
}

impl Default for RoleExts {
    fn default() -> (r: Self)
        ensures
            r.exts@ == ROLE_EXTENSIONS@,
    {
        RoleExts { exts: &ROLE_EXTENSIONS }
    }
}

impl RoleExts {
    /// The files that `stem` can mean in `dir`, in the order in which Ansible tries them.
    pub fn candidates(self, dir: &str, stem: &str, bare_first: bool) -> (r: Vec<String>)
        ensures
            splitter::texts(r@) == role_files(self.exts@, dir@, stem@, bare_first),
    {
        let bare = join(dir, stem);
        let mut out = no_paths();
        if bare_first {
            push_path(&mut out, bare.clone());
        }
        let ghost front = splitter::texts(out@);
        let n: usize = self.exts.len();
        let mut i: usize = 0;
        assert(front =~= front + Seq::empty());
        while i < n
            invariant
                i <= n == self.exts@.len(),
                splitter::texts(out@) == front + with_extensions(bare@, self.exts@, i as int),
            decreases n - i,
        {
            let mut p = bare.clone();
            p.append(self.exts[i]);
            push_path(&mut out, p);
            i += 1;
            assert(splitter::texts(out@) =~= front + with_extensions(
                bare@,
                self.exts@,
                i as int,
            ));
        }
        if !bare_first {
            push_path(&mut out, bare);
        }
        assert(splitter::texts(out@) =~= role_files(self.exts@, dir@, stem@, bare_first));
        out
    }
}

/// A file or directory of a collection, below each of the roots.
fn collection_paths(roots: &Vec<String>, ns: &str, coll: &str, dir: &str, name: &str) -> (r: Vec<
    String,
>)
    ensures
        splitter::texts(r@) == collection_dirs(splitter::texts(roots@), ns@, coll@, dir@, name@),
{
    let ghost model = collection_dirs(splitter::texts(roots@), ns@, coll@, dir@, name@);
    let mut out = no_paths();
    let n: usize = roots.len();
    let mut i: usize = 0;
    assert(splitter::texts(out@) =~= model.subrange(0, 0));
    while i < n
        invariant
            i <= n == roots@.len(),
            model == collection_dirs(splitter::texts(roots@), ns@, coll@, dir@, name@),
            splitter::texts(out@) == model.subrange(0, i as int),
        decreases n - i,
    {
        let held = join(join(roots[i].as_str(), ns).as_str(), coll);
        push_path(&mut out, join(join(held.as_str(), dir).as_str(), name));
        i += 1;
        assert(model.subrange(0, i as int) =~= model.subrange(0, i - 1).push(model[i - 1]));
    }
    assert(model.subrange(0, n as int) =~= model);
    out
}

/// The directory of a role, from a plain name or one of three parts.
fn role_dir<F: Fs>(name: &str, ctx: &FileContext, fs: &F) -> (r: Option<String>)
    ensures
        fs::maybe(r) == role_home(fs, name@, ctx.view()),
{
    if contains(name, "{{") {
        return None;
    }
    let of = split(name, '.');
    let ghost model = splitter::texts(of@);
    let dirs = if of.len() == 3 {
        assert(model[0] == of@[0]@ && model[1] == of@[1]@ && model[2] == of@[2]@);
        collection_paths(
            &ctx.collection_roots,
            of[0].as_str(),
            of[1].as_str(),
            "roles",
            of[2].as_str(),
        )
    } else {
        join_each(&ctx.roles_roots, name)
    };
    match find_folder(fs, &dirs) {
        Some(i) => Some(dirs[i].clone()),
        None => None,
    }
}

/// The name of a file without its last extension.
fn is_stem(file: &str, name: &str) -> (r: bool)
    ensures
        r == (stem(file@) == name@),
{
    let v = to_chars(file);
    let n: usize = v.len();
    let mut k: usize = n;
    while k > 0 && v[k - 1] != '.'
        invariant
            k <= n == v@.len(),
            v@ == file@,
            last_dot(file@, n as int) == last_dot(file@, k as int),
        decreases k,
    {
        k -= 1;
    }
    if k > 0 {
        str_eq(from_chars(v.as_slice(), 0, k - 1).as_str(), name)
    } else {
        str_eq(file, name)
    }
}

/// Does the file hold the module of that name?
fn is_module_named(file: &str, name: &str) -> (r: bool)
    ensures
        r == holds_module(file@, name@),
{
    if !is_stem(file, name) {
        return false;
    }
    let mut i: usize = 0;
    while i < MODULE_IGNORE_EXTS.len()
        invariant
            i <= MODULE_IGNORE_EXTS@.len(),
            stem(file@) == name@,
            forall|j: int| 0 <= j < i ==> !text::ends_with(file@, (#[trigger] MODULE_IGNORE_EXTS@[j])@),
        decreases MODULE_IGNORE_EXTS@.len() - i,
    {
        if is_suffix(file, MODULE_IGNORE_EXTS[i]) {
            assert(text::ends_with(file@, MODULE_IGNORE_EXTS@[i as int]@));
            return false;
        }
        i += 1;
    }
    true
}

/// The files in a directory that a module can be, in order; where there are none, the one that a
/// report names.
fn module_files_named<F: Fs>(dir: &str, name: &str, fs: &F) -> (r: Vec<String>)
    ensures
        splitter::texts(r@) == modules_in(fs, dir@, name@),
{
    let names = fs.files_in(dir);
    let ghost model = splitter::texts(names@);
    let mut hits = no_paths();
    let n: usize = names.len();
    let mut i: usize = 0;
    while i < n
        invariant
            i <= n == names@.len(),
            model == splitter::texts(names@),
            splitter::texts(hits@) == module_paths(model, i as int, dir@, name@),
        decreases n - i,
    {
        if is_module_named(names[i].as_str(), name) {
            insert_text(&mut hits, join(dir, names[i].as_str()));
        }
        i += 1;
    }
    if hits.len() == 0 {
        assert(splitter::texts(hits@).len() == 0);
        let mut file = name.to_owned();
        file.append(".py");
        return one_path(join(dir, file.as_str()));
    }
    assert(splitter::texts(hits@).len() > 0);
    hits
}

fn find_value(of: &Vec<(String, String)>, key: &str) -> (r: Option<String>)
    ensures
        fs::maybe(r) == lookup(splitter::option_models(of@), key@, 0),
{
    let ghost model = splitter::option_models(of@);
    let n: usize = of.len();
    let mut i: usize = 0;
    while i < n
        invariant
            i <= n == of@.len(),
            model == splitter::option_models(of@),
            lookup(model, key@, 0) == lookup(model, key@, i as int),
        decreases n - i,
    {
        if str_eq(of[i].0.as_str(), key) {
            return Some(of[i].1.clone());
        }
        i += 1;
    }
    None
}

fn find_route(of: &Vec<Route>, table: &str, module: &str) -> (r: Option<String>)
    ensures
        fs::maybe(r) == routed(route_models(of@), table@, module@, 0),
{
    let ghost model = route_models(of@);
    let n: usize = of.len();
    let mut i: usize = 0;
    while i < n
        invariant
            i <= n == of@.len(),
            model == route_models(of@),
            routed(model, table@, module@, 0) == routed(model, table@, module@, i as int),
        decreases n - i,
    {
        if str_eq(of[i].table.as_str(), table) && str_eq(of[i].module.as_str(), module) {
            return Some(of[i].to.clone());
        }
        i += 1;
    }
    None
}

/// A collection's own rename for one of its modules.
fn collection_module_redirect<F: Fs>(
    ns: &str,
    coll: &str,
    module: &str,
    ctx: &FileContext,
    fs: &F,
) -> (r: Option<String>)
    ensures
        fs::maybe(r) == collection_redirect(fs, ns@, coll@, module@, ctx.view()),
{
    let roots = &ctx.collection_roots;
    let ghost tables = splitter::texts(roots@).map_values(
        |r: Seq<char>|
            paths::joined(paths::joined(paths::joined(r, ns@), coll@), "meta/runtime.yml"@),
    );
    let mut out = no_paths();
    let n: usize = roots.len();
    let mut i: usize = 0;
    assert(splitter::texts(out@) =~= tables.subrange(0, 0));
    while i < n
        invariant
            i <= n == roots@.len(),
            tables == splitter::texts(roots@).map_values(
                |r: Seq<char>|
                    paths::joined(paths::joined(paths::joined(r, ns@), coll@), "meta/runtime.yml"@),
            ),
            splitter::texts(out@) == tables.subrange(0, i as int),
        decreases n - i,
    {
        let held = join(join(roots[i].as_str(), ns).as_str(), coll);
        push_path(&mut out, join(held.as_str(), "meta/runtime.yml"));
        i += 1;
        assert(tables.subrange(0, i as int) =~= tables.subrange(0, i - 1).push(tables[i - 1]));
    }
    assert(tables.subrange(0, n as int) =~= tables);
    match find_file(fs, &out) {
        Some(k) => find_route(&ctx.routes, out[k].as_str(), module),
        None => None,
    }
}

/// The candidates of a bare name.
fn bare_module<F: Fs>(name: &str, ctx: &FileContext, fs: &F) -> (r: Vec<String>)
    ensures
        splitter::texts(r@) == bare_candidates(fs, name@, ctx.view()),
{
    let ghost dirs = splitter::texts(ctx.module_dirs@);
    let mut out = no_paths();
    let n: usize = ctx.module_dirs.len();
    let mut i: usize = 0;
    while i < n
        invariant
            i <= n == ctx.module_dirs@.len(),
            dirs == splitter::texts(ctx.module_dirs@),
            splitter::texts(out@) == legacy_candidates(fs, dirs, i as int, name@),
        decreases n - i,
    {
        push_paths(&mut out, module_files_named(ctx.module_dirs[i].as_str(), name, fs));
        i += 1;
    }
    if let Some(pkg) = &ctx.install.package_dir {
        let mut file = name.to_owned();
        file.append(".py");
        push_path(&mut out, join(join(pkg.as_str(), "modules").as_str(), file.as_str()));
        push_path(&mut out, join(join(pkg.as_str(), "plugins/action").as_str(), file.as_str()));
    }
    out
}

/// The candidates of a module of a collection.
fn qualified_module<F: Fs>(ns: &str, coll: &str, module: &str, ctx: &FileContext, fs: &F) -> (r: Vec<
    String,
>)
    ensures
        splitter::texts(r@) == qualified_candidates(fs, ns@, coll@, module@, ctx.view()),
{
    let ghost roots = splitter::texts(ctx.collection_roots@);
    let mut out = no_paths();
    if str_eq(ns, "ansible") && str_eq(coll, "builtin") {
        if let Some(p) = find_value(&ctx.install.builtins, module) {
            push_path(&mut out, p);
        }
    }
    let ghost front = splitter::texts(out@);
    let n: usize = ctx.collection_roots.len();
    let mut i: usize = 0;
    assert(front =~= front + Seq::empty());
    while i < n
        invariant
            i <= n == ctx.collection_roots@.len(),
            roots == splitter::texts(ctx.collection_roots@),
            splitter::texts(out@) == front + collection_candidates(
                fs,
                roots,
                i as int,
                ns@,
                coll@,
                module@,
            ),
        decreases n - i,
    {
        let held = join(join(ctx.collection_roots[i].as_str(), ns).as_str(), coll);
        let base = join(held.as_str(), "plugins");
        push_paths(
            &mut out,
            module_files_named(join(base.as_str(), "modules").as_str(), module, fs),
        );
        let mut file = module.to_owned();
        file.append(".py");
        push_path(&mut out, join(join(base.as_str(), "action").as_str(), file.as_str()));
        i += 1;
        assert(splitter::texts(out@) =~= front + collection_candidates(
            fs,
            roots,
            i as int,
            ns@,
            coll@,
            module@,
        ));
    }
    assert(splitter::texts(out@) =~= qualified_candidates(fs, ns@, coll@, module@, ctx.view()));
    out
}

/// The names that modules are renamed to.
pub open spec fn targets_of(ctx: CtxModel) -> Seq<Seq<char>> {
    Seq::new(ctx.redirects.len(), |i: int| ctx.redirects[i].1) + Seq::new(
        ctx.routes.len(),
        |i: int| ctx.routes[i].2,
    )
}

proof fn lookup_is_a_target(ctx: CtxModel, key: Seq<char>, i: int)
    requires
        0 <= i,
        lookup(ctx.redirects, key, i) is Some,
    ensures
        targets_of(ctx).contains(lookup(ctx.redirects, key, i)->0),
    decreases ctx.redirects.len() - i,
{
    if i < ctx.redirects.len() {
        if ctx.redirects[i].0 == key {
            assert(targets_of(ctx)[i] == ctx.redirects[i].1);
        } else {
            lookup_is_a_target(ctx, key, i + 1);
        }
    }
}

proof fn route_is_a_target(ctx: CtxModel, table: Seq<char>, module: Seq<char>, i: int)
    requires
        0 <= i,
        routed(ctx.routes, table, module, i) is Some,
    ensures
        targets_of(ctx).contains(routed(ctx.routes, table, module, i)->0),
    decreases ctx.routes.len() - i,
{
    if i < ctx.routes.len() {
        if ctx.routes[i].0 == table && ctx.routes[i].1 == module {
            assert(targets_of(ctx)[ctx.redirects.len() + i] == ctx.routes[i].2);
        } else {
            route_is_a_target(ctx, table, module, i + 1);
        }
    }
}

/// Names that are all different and all among some others are no more than those.
pub proof fn no_more_than(v: Seq<Seq<char>>, of: Seq<Seq<char>>)
    requires
        v.no_duplicates(),
        forall|i: int| 0 <= i < v.len() ==> of.contains(#[trigger] v[i]),
    ensures
        v.len() <= of.len(),
{
    v.unique_seq_to_set();
    of.lemma_cardinality_of_set();
    assert(v.to_set().subset_of(of.to_set())) by {
        assert forall|x: Seq<char>| v.to_set().contains(x) implies of.to_set().contains(x) by {
            let i = choose|i: int| 0 <= i < v.len() && v[i] == x;
            assert(of.contains(v[i]));
        }
    }
    vstd::set_lib::lemma_len_subset(v.to_set(), of.to_set());
}

/// A module is looked for under its name, then under what it was renamed to. The names that were
/// taken guard against tables that rename in a circle.
fn resolve_module<F: Fs>(value: &str, ctx: &FileContext, fs: &F) -> (r: Resolution)
    ensures
        r.view() == module_chain(fs, value@, ctx.view(), seq![value@], Seq::empty()),
{
    let ghost model = ctx.view();
    let ghost whole = module_chain(fs, value@, model, seq![value@], Seq::empty());
    let mut trail = no_paths();
    let mut visited = one_path(value.to_owned());
    let mut name = value.to_owned();
    loop
        invariant
            model == ctx.view(),
            whole == module_chain(fs, value@, model, seq![value@], Seq::empty()),
            splitter::texts(visited@).len() > 0,
            splitter::texts(visited@).no_duplicates(),
            forall|i: int|
                1 <= i < splitter::texts(visited@).len() ==> targets_of(model).contains(
                    #[trigger] splitter::texts(visited@)[i],
                ),
            whole == module_chain(
                fs,
                name@,
                model,
                splitter::texts(visited@),
                splitter::texts(trail@),
            ),
        decreases renames(model) + 1 - splitter::texts(visited@).len(),
    {
        let ghost seen = splitter::texts(visited@);
        proof {
            let rest = seen.subrange(1, seen.len() as int);
            assert forall|i: int| 0 <= i < rest.len() implies targets_of(model).contains(
                #[trigger] rest[i],
            ) by {
                assert(rest[i] == seen[i + 1]);
            }
            no_more_than(rest, targets_of(model));
        }
        let of = split(name.as_str(), '.');
        let ghost pieces = splitter::texts(of@);
        let k: usize = of.len();
        let cands: Vec<String>;
        if k == 1 {
            assert(pieces[0] == of@[0]@);
            cands = bare_module(of[0].as_str(), ctx, fs);
        } else if k == 3 {
            assert(pieces[0] == of@[0]@ && pieces[1] == of@[1]@ && pieces[2] == of@[2]@);
            cands = qualified_module(of[0].as_str(), of[1].as_str(), of[2].as_str(), ctx, fs);
        } else {
            return Resolution::skipped(SkipReason::NotInWorkspace);
        }
        let hit = match find_file(fs, &cands) {
            Some(i) => Some(cands[i].clone()),
            None => None,
        };
        push_paths(&mut trail, cands);
        if let Some(p) = hit {
            return Resolution {
                status: Status::Resolved,
                targets: one_path(p),
                candidates: trail,
                skip_reason: None,
            };
        }
        let redirect = if k == 1 {
            find_value(&ctx.install.redirects, of[0].as_str())
        } else {
            collection_module_redirect(
                of[0].as_str(),
                of[1].as_str(),
                of[2].as_str(),
                ctx,
                fs,
            )
        };
        match redirect {
            Some(next) if !is_among(&visited, next.as_str()) => {
                proof {
                    if k == 1 {
                        lookup_is_a_target(model, pieces[0], 0);
                    } else {
                        let tables = model.collection_roots.map_values(
                            |r: Seq<char>|
                                paths::joined(
                                    paths::joined(paths::joined(r, pieces[0]), pieces[1]),
                                    "meta/runtime.yml"@,
                                ),
                        );
                        route_is_a_target(model, first_file(fs, tables, 0)->0, pieces[2], 0);
                    }
                    assert forall|i: int, j: int|
                        0 <= i < seen.push(next@).len() && 0 <= j < seen.push(next@).len() && i
                            != j implies seen.push(next@)[i] != seen.push(next@)[j] by {
                        assert(!fs::among(seen, next@));
                        if i < seen.len() {
                            assert(seen[i] != next@);
                        }
                        if j < seen.len() {
                            assert(seen[j] != next@);
                        }
                    }
                    assert(seen.push(next@).no_duplicates());
                    let rest = seen.push(next@).subrange(1, seen.len() + 1int);
                    assert forall|i: int| 0 <= i < rest.len() implies targets_of(model).contains(
                        #[trigger] rest[i],
                    ) by {
                        if i + 1 < seen.len() {
                            assert(rest[i] == seen[i + 1]);
                        } else {
                            assert(rest[i] == next@);
                        }
                    }
                    no_more_than(rest, targets_of(model));
                }
                push_path(&mut visited, next.clone());
                name = next;
            },
            _ => {
                return Resolution {
                    status: Status::Skipped,
                    targets: no_paths(),
                    candidates: trail,
                    skip_reason: Some(SkipReason::NotInWorkspace),
                };
            },
        }
    }
}

/// What came of loading a directory of variables.
pub fn resolve_dir(outcome: Outcome, ctx: &FileContext) -> (r: Resolution)
    ensures
        r.view() == dir_resolution(outcome.view(), ctx.view().role_dir),
{
    match outcome {
        Outcome::Loaded { dir, files } => Resolution {
            status: Status::Resolved,
            targets: files,
            candidates: optional_path(dir),
            skip_reason: None,
        },
        Outcome::CwdFallback { relative } => {
            let candidates = match &ctx.role_dir {
                Some(d) => one_path(join(d.as_str(), relative.as_str())),
                None => no_paths(),
            };
            Resolution::missing(candidates)
        },
        Outcome::Failed { root } => Resolution::missing(optional_path(root)),
    }
}

fn optional_path(p: Option<String>) -> (r: Vec<String>)
    ensures
        splitter::texts(r@) == listed(fs::maybe(p)),
{
    match p {
        Some(p) => one_path(p),
        None => no_paths(),
    }
}

fn resolve_role<F: Fs>(r: &Reference, ctx: &FileContext, fs: &F) -> (res: Resolution)
    ensures
        res.view() == role_resolution(fs, r.view(), ctx.view()),
{
    match role_dir(r.value.as_str(), ctx, fs) {
        Some(dir) => {
            let tasks = join(dir.as_str(), "tasks");
            let probe = RoleExts::default().candidates(tasks.as_str(), "main", false);
            let res = Resolution::from_candidates(probe, fs);
            if res.status == Status::Missing && r.has_tasks_from {
                Resolution::skipped(SkipReason::NotInWorkspace)
            } else {
                res
            }
        },
        None => Resolution::missing(join_each(&ctx.roles_roots, r.value.as_str())),
    }
}

fn resolve_tasks_from<F: Fs>(r: &Reference, ctx: &FileContext, fs: &F) -> (res: Resolution)
    ensures
        res.view() == tasks_from_resolution(fs, r.view(), ctx.view()),
{
    let home = match &r.role {
        Some(name) => role_dir(name.as_str(), ctx, fs),
        None => None,
    };
    match home {
        Some(dir) => {
            let tasks = join(dir.as_str(), "tasks");
            let probe = RoleExts::default().candidates(tasks.as_str(), r.value.as_str(), true);
            Resolution::from_candidates(probe, fs)
        },
        None => Resolution::skipped(SkipReason::NotInWorkspace),
    }
}

fn resolve_templated<F: Fs>(r: &Reference, ctx: &FileContext, fs: &F) -> (res: Resolution)
    ensures
        res.view() == templated_resolution(fs, r.view(), ctx.view()),
{
    match r.kind {
        ReferenceKind::IncludeTasks | ReferenceKind::ImportTasks | ReferenceKind::VarsFiles => {
            match path_bases(r.kind, ctx) {
                Some(bases) => {
                    let targets = fs.glob(&bases, r.value.as_str());
                    assert(splitter::texts(targets@).len() == targets@.len());
                    Resolution {
                        status: if targets.len() == 0 {
                            Status::Skipped
                        } else {
                            Status::Resolved
                        },
                        targets,
                        candidates: no_paths(),
                        skip_reason: Some(SkipReason::Templated),
                    }
                },
                None => Resolution::skipped(SkipReason::Templated),
            }
        },
        _ => Resolution::skipped(SkipReason::Templated),
    }
}

fn resolve_vars_files<F: Fs>(
    r: &Reference,
    values: &Vec<String>,
    put: bool,
    ctx: &FileContext,
    fs: &F,
) -> (res: Resolution)
    requires
        splitter::texts(values@) == expanded(r.value@, ctx.view()),
        put == substituted(r.value@, ctx.view()),
    ensures
        res.view() == vars_files_resolution(fs, r.view(), ctx.view()),
{
    let mut res = if put {
        // What was put in makes the path complete: `vars` does not go before it.
        Resolution::from_candidates(unique(&normalise_each(values)), fs)
    } else {
        let cands = vars_files_candidates(r.value.as_str(), ctx.file_dir.as_str(), &ctx.home);
        Resolution::from_candidates(cands, fs)
    };
    if res.status == Status::Missing && r.grouped {
        res.status = Status::Skipped;
        res.skip_reason = Some(SkipReason::GroupAlternative);
    }
    res
}

/// What a reference resolves to, on a file system that the caller supplies.
pub fn resolve_in<F: Fs>(r: &Reference, ctx: &FileContext, fs: &F) -> (res: Resolution)
    ensures
        res.view() == resolved(fs, r.view(), ctx.view()),
{
    if let Some(alts) = &r.vars_files_group {
        return resolve_vars_files_group(alts, ctx, fs);
    }
    // A templated static import is wrong whatever is on disk: Ansible templates the text before
    // it looks, so it never reaches a file that is literally named so.
    if r.templated && r.kind == ReferenceKind::ImportPlaybook {
        return Resolution::missing(no_paths());
    }
    let (values, templated, put) = expand_magic(r.value.as_str(), ctx);
    if templated {
        return resolve_templated(r, ctx, fs);
    }
    match r.kind {
        ReferenceKind::IncludeTasks | ReferenceKind::ImportTasks => {
            // What was put in is anchored already, so the search path does not apply to it.
            let cands = if put {
                normalise_each(&values)
            } else {
                below_each(&ctx.task_dirs, r.value.as_str())
            };
            Resolution::from_candidates(unique(&cands), fs)
        },
        ReferenceKind::ImportPlaybook | ReferenceKind::IncludeVars => {
            let bases = match path_bases(r.kind, ctx) {
                Some(bases) => bases,
                None => no_paths(),
            };
            Resolution::from_candidates(unique(&below_each(&bases, r.value.as_str())), fs)
        },
        ReferenceKind::VarsFiles => resolve_vars_files(r, &values, put, ctx, fs),
        ReferenceKind::IncludeVarsDir => {
            let outcome = match &r.include_vars {
                Some(p) => fs.load_dir(p, &ctx.role_dir, ctx.file_dir.as_str()),
                None => {
                    let params = Params {
                        dir: Some(r.value.clone()),
                        extensions: usual_extensions(),
                        depth: 0,
                    };
                    fs.load_dir(&params, &ctx.role_dir, ctx.file_dir.as_str())
                },
            };
            resolve_dir(outcome, ctx)
        },
        ReferenceKind::Role => resolve_role(r, ctx, fs),
        ReferenceKind::TasksFrom => resolve_tasks_from(r, ctx, fs),
        ReferenceKind::Module => resolve_module(r.value.as_str(), ctx, fs),
        ReferenceKind::TemplateSrc => Resolution::skipped(SkipReason::NotInWorkspace),
    }
}

/// Is the text one identifier?
fn is_bare_name(v: &[char]) -> (r: bool)
    ensures
        r == bare_name(v@),
{
    let n: usize = v.len();
    let mut i: usize = 0;
    while i < n
        invariant
            i <= n == v@.len(),
            forall|j: int| 0 <= j < i ==> text::alphanumeric(#[trigger] v@[j]) || v@[j] == '_',
        decreases n - i,
    {
        if !is_alphanumeric(v[i]) && v[i] != '_' {
            assert(!(text::alphanumeric(v@[i as int]) || v@[i as int] == '_'));
            return false;
        }
        i += 1;
    }
    n > 0
}

/// Each of the texts, then a text, then each of the values.
fn each_with(of: &Vec<String>, middle: &str, vals: &Vec<String>) -> (r: Vec<String>)
    ensures
        splitter::texts(r@) == product(
            splitter::texts(of@),
            of@.len() as int,
            middle@,
            splitter::texts(vals@),
        ),
{
    let ghost bases = splitter::texts(of@);
    let ghost values = splitter::texts(vals@);
    let mut out = no_paths();
    let n: usize = of.len();
    let m: usize = vals.len();
    let mut i: usize = 0;
    while i < n
        invariant
            i <= n == of@.len(),
            m == vals@.len(),
            bases == splitter::texts(of@),
            values == splitter::texts(vals@),
            splitter::texts(out@) == product(bases, i as int, middle@, values),
        decreases n - i,
    {
        let mut base = of[i].clone();
        base.append(middle);
        let ghost before = splitter::texts(out@);
        let mut k: usize = 0;
        assert(before =~= before + Seq::empty());
        while k < m
            invariant
                k <= m == vals@.len(),
                values == splitter::texts(vals@),
                splitter::texts(out@) == before + continued(base@, values, k as int),
            decreases m - k,
        {
            let mut s = base.clone();
            s.append(vals[k].as_str());
            push_path(&mut out, s);
            k += 1;
            assert(splitter::texts(out@) =~= before + continued(base@, values, k as int));
        }
        i += 1;
    }
    out
}

fn append_each(of: &Vec<String>, tail: &str) -> (r: Vec<String>)
    ensures
        splitter::texts(r@) == splitter::texts(of@).map_values(|s: Seq<char>| s + tail@),
{
    let ghost model = splitter::texts(of@).map_values(|s: Seq<char>| s + tail@);
    let mut out = no_paths();
    let n: usize = of.len();
    let mut i: usize = 0;
    assert(splitter::texts(out@) =~= model.subrange(0, 0));
    while i < n
        invariant
            i <= n == of@.len(),
            model == splitter::texts(of@).map_values(|s: Seq<char>| s + tail@),
            splitter::texts(out@) == model.subrange(0, i as int),
        decreases n - i,
    {
        let mut s = of[i].clone();
        s.append(tail);
        push_path(&mut out, s);
        i += 1;
        assert(model.subrange(0, i as int) =~= model.subrange(0, i - 1).push(model[i - 1]));
    }
    assert(model.subrange(0, n as int) =~= model);
    out
}

fn sort_texts(of: &Vec<String>) -> (r: Vec<String>)
    ensures
        splitter::texts(r@) == order::sorted(splitter::texts(of@), of@.len() as int),
{
    let ghost model = splitter::texts(of@);
    let mut out = no_paths();
    let n: usize = of.len();
    let mut i: usize = 0;
    while i < n
        invariant
            i <= n == of@.len(),
            model == splitter::texts(of@),
            splitter::texts(out@) == order::sorted(model, i as int),
        decreases n - i,
    {
        insert_text(&mut out, of[i].clone());
        i += 1;
    }
    out
}

/// Puts the known values of variables into every `{{ var }}` of a value. A token must be a bare name
/// with a known value; anything else makes the whole value unresolvable, and the result empty.
/// Several values of one variable give several results.
pub fn substitute_literals(value: &str, literals: &Vec<(String, Vec<String>)>) -> (r: Vec<String>)
    ensures
        splitter::texts(r@) == substitutions(value@, literals@),
{
    let v = to_chars(value);
    let n: usize = v.len();
    let open_with = to_chars("{{");
    let close_with = to_chars("}}");
    proof {
        reveal_strlit("{{");
        reveal_strlit("}}");
    }
    let mut results = one_path(String::new());
    assert(splitter::texts(results@) =~= seq![Seq::<char>::empty()]);
    let mut i: usize = 0;
    loop
        invariant
            i <= n == v@.len(),
            v@ == value@,
            open_with@ == "{{"@,
            close_with@ == "}}"@,
            open_with@.len() == 2,
            close_with@.len() == 2,
            put_in(value@, 0, literals@, seq![Seq::empty()]) == put_in(
                value@,
                i as int,
                literals@,
                splitter::texts(results@),
            ),
        decreases n - i,
    {
        let open = match chars_find(v.as_slice(), open_with.as_slice(), i) {
            None => {
                let rest = from_chars(v.as_slice(), i, n);
                let all = append_each(&results, rest.as_str());
                assert(splitter::texts(all@).len() == all@.len());
                return sort_texts(&all);
            },
            Some(k) => k,
        };
        proof {
            text::find_from_is_first(value@, "{{"@, i as int);
        }
        let close = match chars_find(v.as_slice(), close_with.as_slice(), open + 2) {
            None => return no_paths(),
            Some(k) => k,
        };
        proof {
            text::find_from_is_first(value@, "}}"@, open + 2);
        }
        let a = skip_white(v.as_slice(), open + 2, close);
        let b = trimmed_len(v.as_slice(), a, close);
        let token = from_chars(v.as_slice(), a, b);
        assert(token@ == text::trim(value@.subrange(open + 2, close as int)));
        let chars = to_chars(token.as_str());
        if !is_bare_name(chars.as_slice()) {
            return no_paths();
        }
        let vals = match fs::find_answer(literals, token.as_str()) {
            Some(k) => k,
            None => return no_paths(),
        };
        let prefix = from_chars(v.as_slice(), i, open);
        let next = each_with(&results, prefix.as_str(), &literals[vals].1);
        results = next;
        i = close + 2;
    }
}

/// [`resolve_in`] where the values of some variables are known, so that a path like `{{ env }}.yml`
/// can be followed. What comes of them is marked as templated and never missing.
pub fn resolve_with_in<F: Fs>(
    r: &Reference,
    ctx: &FileContext,
    literals: &Vec<(String, Vec<String>)>,
    fs: &F,
) -> (res: Resolution)
    ensures
        res.view() == resolved_with(fs, r.view(), ctx.view(), literals@),
{
    if contains(r.value.as_str(), "{{") && r.vars_files_group.is_none() {
        if let Some(bases) = path_bases(r.kind, ctx) {
            let subs = substitute_literals(r.value.as_str(), literals);
            let ghost values = splitter::texts(subs@);
            if subs.len() > 0 {
                let mut cands = no_paths();
                let n: usize = subs.len();
                let mut i: usize = 0;
                while i < n
                    invariant
                        i <= n == subs@.len(),
                        values == splitter::texts(subs@),
                        splitter::texts(cands@) == all_below(
                            values,
                            i as int,
                            splitter::texts(bases@),
                        ),
                    decreases n - i,
                {
                    push_paths(&mut cands, below_each(&bases, subs[i].as_str()));
                    i += 1;
                }
                let mut res = Resolution::from_candidates(unique(&cands), fs);
                res.skip_reason = Some(SkipReason::Templated);
                if res.status == Status::Missing {
                    res.status = Status::Skipped;
                }
                return res;
            }
        }
    }
    resolve_in(r, ctx, fs)
}

// ----------------------------------------------------------------------- laws

proof fn first_file_wins<F: Fs>(fs: &F, of: Seq<Seq<char>>, i: int)
    requires
        0 <= i,
    ensures
        match first_file(fs, of, i) {
            Some(p) => exists|k: int|
                i <= k < of.len() && of[k] == p && fs.file(p) && forall|j: int|
                    i <= j < k ==> !fs.file(#[trigger] of[j]),
            None => forall|j: int| i <= j < of.len() ==> !fs.file(#[trigger] of[j]),
        },
    decreases of.len() - i,
{
    if i < of.len() {
        if fs.file(of[i]) {
            assert(of[i] == first_file(fs, of, i)->0);
        } else {
            first_file_wins(fs, of, i + 1);
            if let Some(p) = first_file(fs, of, i) {
                let k = choose|k: int|
                    i + 1 <= k < of.len() && of[k] == p && fs.file(p) && forall|j: int|
                        i + 1 <= j < k ==> !fs.file(#[trigger] of[j]);
                assert(of[k] == p);
            }
        }
    }
}

/// The first match wins: what resolves is a file among the candidates, and none before it is one.
/// Where nothing resolves, none of them is.
pub proof fn the_first_match_wins<F: Fs>(fs: &F, candidates: Seq<Seq<char>>)
    ensures
        found(fs, candidates).candidates == candidates,
        match found(fs, candidates).status {
            Status::Resolved => exists|k: int|
                0 <= k < candidates.len() && found(fs, candidates).targets == seq![candidates[k]]
                    && fs.file(candidates[k]) && forall|j: int|
                    0 <= j < k ==> !fs.file(#[trigger] candidates[j]),
            Status::Missing => found(fs, candidates).targets.len() == 0 && forall|j: int|
                0 <= j < candidates.len() ==> !fs.file(#[trigger] candidates[j]),
            Status::Skipped => false,
        },
{
    first_file_wins(fs, candidates, 0);
    if let Some(p) = first_file(fs, candidates, 0) {
        let k = choose|k: int|
            0 <= k < candidates.len() && candidates[k] == p && fs.file(p) && forall|j: int|
                0 <= j < k ==> !fs.file(#[trigger] candidates[j]);
        assert(found(fs, candidates).targets == seq![candidates[k]]);
    }
}

/// A templated path is never missing, unless it is a static import of a playbook.
pub proof fn templated_paths_are_never_missing<F: Fs>(fs: &F, r: RefModel, ctx: CtxModel)
    requires
        any_templated(expanded(r.value, ctx)),
        r.kind != ReferenceKind::ImportPlaybook,
        r.vars_files_group is None,
    ensures
        resolved(fs, r, ctx).status != Status::Missing,
        resolved(fs, r, ctx).skip_reason == Some(SkipReason::Templated),
{
}

/// A templated import of a playbook is reported whatever is on disk, and nothing is looked for.
pub proof fn a_templated_import_is_reported<F: Fs>(fs: &F, r: RefModel, ctx: CtxModel)
    requires
        r.templated,
        r.kind == ReferenceKind::ImportPlaybook,
        r.vars_files_group is None,
    ensures
        resolved(fs, r, ctx) == missing(Seq::empty()),
{
}

proof fn chain_is_never_missing<F: Fs>(
    fs: &F,
    name: Seq<char>,
    ctx: CtxModel,
    visited: Seq<Seq<char>>,
    trail: Seq<Seq<char>>,
)
    ensures
        module_chain(fs, name, ctx, visited, trail).status != Status::Missing,
    decreases renames(ctx) + 1 - visited.len(),
{
    if let Some((cands, redirect)) = module_step(fs, name, ctx) {
        if first_file(fs, cands, 0) is None && redirect is Some && !fs::among(visited, redirect->0)
            && visited.len() <= renames(ctx) {
            chain_is_never_missing(fs, redirect->0, ctx, visited.push(redirect->0), trail + cands);
        }
    }
}

/// A module that cannot be found is skipped, not missing: its collection may not be installed.
pub proof fn a_module_is_never_missing<F: Fs>(fs: &F, r: RefModel, ctx: CtxModel)
    requires
        r.kind == ReferenceKind::Module,
        r.vars_files_group is None,
    ensures
        resolved(fs, r, ctx).status != Status::Missing,
{
    chain_is_never_missing(fs, r.value, ctx, seq![r.value], Seq::empty());
}

/// An alternative of a first-match list is never missing: the list has the verdict.
pub proof fn an_alternative_is_never_missing<F: Fs>(fs: &F, r: RefModel, ctx: CtxModel)
    requires
        r.kind == ReferenceKind::VarsFiles,
        r.grouped,
        r.vars_files_group is None,
    ensures
        resolved(fs, r, ctx).status != Status::Missing,
{
}

/// A role that is reached by its `tasks_from` needs no default task file.
pub proof fn tasks_from_excuses_the_default_file<F: Fs>(fs: &F, r: RefModel, ctx: CtxModel)
    requires
        r.kind == ReferenceKind::Role,
        r.has_tasks_from,
        role_home(fs, r.value, ctx) is Some,
    ensures
        role_resolution(fs, r, ctx).status != Status::Missing,
{
}

/// No candidate is tried twice, in any spelling; each is one of the paths, and each of the paths is
/// among them.
pub proof fn candidates_are_distinct(of: Seq<Seq<char>>, n: int)
    requires
        0 <= n <= of.len(),
    ensures
        forall|i: int, j: int|
            0 <= i < j < distinct(of, n).len() ==> !paths::same_path(
                #[trigger] distinct(of, n)[i],
                #[trigger] distinct(of, n)[j],
            ),
        forall|i: int|
            0 <= i < distinct(of, n).len() ==> of.subrange(0, n).contains(
                #[trigger] distinct(of, n)[i],
            ),
        forall|m: int| 0 <= m < n ==> paths::path_among(distinct(of, n), #[trigger] of[m]),
    decreases n,
{
    if n > 0 {
        candidates_are_distinct(of, n - 1);
        let before = distinct(of, n - 1);
        let after = distinct(of, n);
        let last = of[n - 1];
        let a = of.subrange(0, n);
        let b = of.subrange(0, n - 1);
        assert(a[n - 1] == last);
        assert forall|i: int| 0 <= i < after.len() implies a.contains(#[trigger] after[i]) by {
            if i < before.len() {
                assert(after[i] == before[i]);
                let m = choose|m: int| 0 <= m < b.len() && b[m] == before[i];
                assert(a[m] == after[i]);
            }
        }
        assert forall|i: int, j: int| 0 <= i < j < after.len() implies !paths::same_path(
            #[trigger] after[i],
            #[trigger] after[j],
        ) by {
            assert(after[i] == before[i]);
            if j < before.len() {
                assert(after[j] == before[j]);
            }
        }
        assert forall|m: int| 0 <= m < n implies paths::path_among(after, #[trigger] of[m]) by {
            if m < n - 1 || paths::path_among(before, last) {
                assert(paths::path_among(before, of[m]));
                let k = choose|k: int|
                    0 <= k < before.len() && paths::same_path(#[trigger] before[k], of[m]);
                assert(after[k] == before[k]);
            } else {
                assert(after[before.len() as int] == last);
            }
        }
    }
}

proof fn one_file_per_extension(p: Seq<char>, exts: Seq<&'static str>, n: int)
    requires
        0 <= n <= exts.len(),
    ensures
        with_extensions(p, exts, n).len() == n,
        forall|k: int| 0 <= k < n ==> #[trigger] with_extensions(p, exts, n)[k] == p + exts[k]@,
    decreases n,
{
    if n > 0 {
        one_file_per_extension(p, exts, n - 1);
    }
}

/// The name itself is always tried, and every extension once: before them where a `*_from:` gave
/// the name, behind them for the default.
pub proof fn the_bare_name_is_always_tried(
    exts: Seq<&'static str>,
    dir: Seq<char>,
    stem: Seq<char>,
    bare_first: bool,
)
    ensures
        ({
            let files = role_files(exts, dir, stem, bare_first);
            let bare = paths::joined(dir, stem);
            let n = exts.len() as int;
            let shift: int = if bare_first {
                1
            } else {
                0
            };
            &&& files.len() == n + 1
            &&& files[if bare_first {
                0
            } else {
                n
            }] == bare
            &&& forall|k: int| 0 <= k < n ==> files[k + shift] == bare + (#[trigger] exts[k])@
        }),
{
    one_file_per_extension(paths::joined(dir, stem), exts, exts.len() as int);
}

/// Where known values of variables are put in, nothing is missing: a variable can be overridden
/// when the playbook runs.
pub proof fn a_known_value_is_never_missing<F: Fs>(
    fs: &F,
    r: RefModel,
    ctx: CtxModel,
    literals: Seq<(String, Vec<String>)>,
)
    requires
        text::occurs(r.value, "{{"@),
        r.vars_files_group is None,
        bases_of(r.kind, ctx) is Some,
        substitutions(r.value, literals).len() > 0,
    ensures
        resolved_with(fs, r, ctx, literals).status != Status::Missing,
        resolved_with(fs, r, ctx, literals).skip_reason == Some(SkipReason::Templated),
{
}

/// Without a known value of its variables a reference resolves as it does alone.
pub proof fn unknown_values_change_nothing<F: Fs>(
    fs: &F,
    r: RefModel,
    ctx: CtxModel,
    literals: Seq<(String, Vec<String>)>,
)
    requires
        substitutions(r.value, literals).len() == 0,
    ensures
        resolved_with(fs, r, ctx, literals) == resolved(fs, r, ctx),
{
}

} // verus!
