//! Where a reference is looked for, and in what order: the first place that holds a file wins.

use vstd::prelude::*;

use crate::fs::Fs;
use crate::paths;
use crate::references::{RefModel, ReferenceKind};
use crate::resolve::{self, CtxModel, ResModel, Status};
use crate::text;

verus! {

/// Does the value hold no `{{`?
pub open spec fn literal(value: Seq<char>) -> bool {
    forall|i: int| 0 <= i < value.len() - 1 && #[trigger] value[i] == '{' ==> value[i + 1] != '{'
}

/// A path in a directory, in its normal form.
pub open spec fn place(dir: Seq<char>, value: Seq<char>) -> Seq<char> {
    paths::normal(paths::joined(dir, value))
}

/// Did the search end at this file?
pub open spec fn ends_at(res: ResModel, p: Seq<char>) -> bool {
    res.status == Status::Resolved && res.targets == seq![p]
}

/// Did the search end nowhere?
pub open spec fn ends_nowhere(res: ResModel) -> bool {
    res.status == Status::Missing && res.targets.len() == 0
}

// ------------------------------------------------------------------ paths

/// A relative path below a directory is the directory, one separator, and the path.
pub proof fn a_path_below_a_directory(dir: Seq<char>, value: Seq<char>)
    requires
        dir.len() > 0,
        value.len() > 0,
        value[0] != '/',
    ensures
        dir[dir.len() - 1] != '/' ==> paths::joined(dir, value) == dir + seq!['/'] + value,
        dir[dir.len() - 1] == '/' ==> paths::joined(dir, value) == dir + value,
{
    assert(dir.push('/') + value =~= dir + seq!['/'] + value);
}

/// An absolute path is itself below every directory.
pub proof fn an_absolute_path_stays(dir: Seq<char>, value: Seq<char>)
    requires
        value.len() > 0,
        value[0] == '/',
    ensures
        paths::joined(dir, value) == value,
{
}

// ------------------------------------------------------------------ the first file

/// Of paths in their normal form, those that are tried are all of them, each once.
proof fn tried_in_order<F: Fs>(fs: &F, of: Seq<Seq<char>>, n: int)
    requires
        0 <= n <= of.len(),
        forall|k: int| 0 <= k < of.len() ==> paths::normal(#[trigger] of[k]) == of[k],
    ensures
        forall|k: int|
            0 <= k < n && fs.file(of[k]) && (forall|j: int| 0 <= j < k ==> !fs.file(of[j]))
                ==> resolve::first_file(fs, resolve::distinct(of, n), 0) == Some(#[trigger] of[k]),
        (forall|j: int| 0 <= j < n ==> !fs.file(#[trigger] of[j])) ==> resolve::first_file(
            fs,
            resolve::distinct(of, n),
            0,
        ) is None,
        forall|m: int| 0 <= m < n ==> resolve::distinct(of, n).contains(#[trigger] of[m]),
    decreases n,
{
    if n > 0 {
        tried_in_order(fs, of, n - 1);
        let before = resolve::distinct(of, n - 1);
        let last = of[n - 1];
        if paths::path_among(before, last) {
            resolve::candidates_are_distinct(of, n - 1);
            let i = choose|i: int|
                0 <= i < before.len() && paths::same_path(#[trigger] before[i], last);
            let all = of.subrange(0, n - 1);
            assert(all.contains(before[i]));
            let m = choose|m: int| 0 <= m < all.len() && all[m] == before[i];
            assert(of[m] == before[i]);
            paths::a_normal_path_has_one_spelling(of[m], last);
            assert(of[m] == last);
        } else {
            assert(resolve::distinct(of, n) == before.push(last));
            first_file_of_more(fs, before, last, 0);
            let after = resolve::distinct(of, n);
            assert(after[before.len() as int] == last);
            assert forall|m: int| 0 <= m < n implies after.contains(#[trigger] of[m]) by {
                if m < n - 1 {
                    assert(before.contains(of[m]));
                    let i = choose|i: int| 0 <= i < before.len() && before[i] == of[m];
                    assert(after[i] == of[m]);
                }
            }
            first_file_is_one_of(fs, before, 0);
            if let Some(p) = resolve::first_file(fs, before, 0) {
                if forall|j: int| 0 <= j < n - 1 ==> !fs.file(#[trigger] of[j]) {
                    resolve::candidates_are_distinct(of, n - 1);
                }
            }
        }
    }
}

proof fn first_file_of_more<F: Fs>(fs: &F, of: Seq<Seq<char>>, last: Seq<char>, i: int)
    requires
        0 <= i <= of.len(),
    ensures
        resolve::first_file(fs, of.push(last), i) == match resolve::first_file(fs, of, i) {
            Some(p) => Some(p),
            None => if fs.file(last) {
                Some(last)
            } else {
                None
            },
        },
    decreases of.len() - i,
{
    if i < of.len() {
        assert(of.push(last)[i] == of[i]);
        first_file_of_more(fs, of, last, i + 1);
    } else {
        assert(of.push(last)[i] == last);
        reveal_with_fuel(resolve::first_file, 2);
    }
}

proof fn first_file_is_one_of<F: Fs>(fs: &F, of: Seq<Seq<char>>, i: int)
    requires
        0 <= i <= of.len(),
    ensures
        match resolve::first_file(fs, of, i) {
            Some(p) => of.contains(p) && fs.file(p),
            None => forall|j: int| i <= j < of.len() ==> !fs.file(#[trigger] of[j]),
        },
    decreases of.len() - i,
{
    if i < of.len() {
        first_file_is_one_of(fs, of, i + 1);
        if fs.file(of[i]) {
            assert(of.contains(of[i]));
        }
    }
}

/// A search through directories ends at the first that holds the path.
proof fn found_in_order<F: Fs>(fs: &F, dirs: Seq<Seq<char>>, value: Seq<char>)
    ensures
        ({
            let res = resolve::found(fs, resolve::unique_of(resolve::below(dirs, value)));
            &&& forall|k: int|
                #![trigger dirs[k]]
                0 <= k < dirs.len() && fs.file(place(dirs[k], value)) && (forall|j: int|
                    0 <= j < k ==> !fs.file(place(#[trigger] dirs[j], value))) ==> ends_at(
                    res,
                    place(dirs[k], value),
                )
            &&& (forall|j: int| 0 <= j < dirs.len() ==> !fs.file(place(#[trigger] dirs[j], value)))
                ==> ends_nowhere(res)
        }),
{
    let of = resolve::below(dirs, value);
    assert forall|k: int| 0 <= k < of.len() implies paths::normal(#[trigger] of[k]) == of[k] by {
        paths::normalising_twice_is_once(paths::joined(dirs[k], value));
    }
    tried_in_order(fs, of, of.len() as int);
    let res = resolve::found(fs, resolve::unique_of(of));
    assert forall|k: int|
        #![trigger dirs[k]]
        0 <= k < dirs.len() && fs.file(place(dirs[k], value)) && (forall|j: int|
            0 <= j < k ==> !fs.file(place(#[trigger] dirs[j], value))) implies ends_at(
        res,
        place(dirs[k], value),
    ) by {
        assert(of[k] == place(dirs[k], value));
        assert forall|j: int| 0 <= j < k implies !fs.file(of[j]) by {
            assert(of[j] == place(dirs[j], value));
        }
    }
    if forall|j: int| 0 <= j < dirs.len() ==> !fs.file(place(#[trigger] dirs[j], value)) {
        assert forall|j: int| 0 <= j < of.len() implies !fs.file(#[trigger] of[j]) by {
            assert(of[j] == place(dirs[j], value));
        }
    }
}

// ------------------------------------------------------------------ values without expressions

pub proof fn nothing_occurs(value: Seq<char>, p: Seq<char>)
    requires
        literal(value),
        p.len() >= 2,
        p[0] == '{',
        p[1] == '{',
    ensures
        !text::occurs(value, p),
{
    text::find_from_is_first(value, p, 0);
    if let Some(k) = text::find_from(value, p, 0) {
        let s = value.subrange(k, k + p.len());
        assert(s[0] == value[k] && s[1] == value[k + 1]);
    }
}

/// A value without an expression is looked for as it is written.
proof fn literal_is_plain(value: Seq<char>, ctx: CtxModel)
    requires
        literal(value),
    ensures
        !resolve::names_playbook_dir(value),
        resolve::expanded(value, ctx) == seq![value],
        !resolve::any_templated(resolve::expanded(value, ctx)),
        !text::occurs(value, "{{"@),
{
    reveal_strlit("{{");
    reveal_strlit("{{ playbook_dir }}");
    reveal_strlit("{{playbook_dir}}");
    nothing_occurs(value, "{{"@);
    nothing_occurs(value, "{{ playbook_dir }}"@);
    nothing_occurs(value, "{{playbook_dir}}"@);
    assert(seq![value][0] == value);
}

/// The reference is one to a single path, without an expression.
pub open spec fn plain(r: RefModel, kind: ReferenceKind) -> bool {
    r.kind == kind && literal(r.value) && !r.templated && r.vars_files_group is None
}

// ------------------------------------------------------------------ what is promised

/// `include_vars` looks beside the file, in `vars` beside it, in `vars` of the role that the file
/// is in, and at the root of the project. The first of these that holds the path is what it means;
/// where none does, it is missing.
pub proof fn include_vars_is_searched<F: Fs>(fs: &F, r: RefModel, ctx: CtxModel)
    requires
        plain(r, ReferenceKind::IncludeVars),
    ensures
        ({
            let res = resolve::resolved(fs, r, ctx);
            let beside = place(ctx.file_dir, r.value);
            let vars = place(paths::joined(ctx.file_dir, "vars"@), r.value);
            let role = place(paths::joined(ctx.role_dir->0, "vars"@), r.value);
            let root = place(ctx.project_root->0, r.value);
            let in_role = ctx.role_dir is Some && fs.file(role);
            let in_root = ctx.project_root is Some && fs.file(root);
            &&& fs.file(beside) ==> ends_at(res, beside)
            &&& !fs.file(beside) && fs.file(vars) ==> ends_at(res, vars)
            &&& !fs.file(beside) && !fs.file(vars) && in_role ==> ends_at(res, role)
            &&& !fs.file(beside) && !fs.file(vars) && !in_role && in_root ==> ends_at(res, root)
            &&& !fs.file(beside) && !fs.file(vars) && !in_role && !in_root ==> ends_nowhere(res)
        }),
{
    literal_is_plain(r.value, ctx);
    let dirs = resolve::vars_bases(ctx);
    found_in_order(fs, dirs, r.value);
    assert(dirs[0] == ctx.file_dir && dirs[1] == paths::joined(ctx.file_dir, "vars"@));
    match (ctx.role_dir, ctx.project_root) {
        (Some(role), Some(root)) => {
            assert(dirs.len() == 4 && dirs[2] == paths::joined(role, "vars"@) && dirs[3] == root);
        },
        (Some(role), None) => {
            assert(dirs.len() == 3 && dirs[2] == paths::joined(role, "vars"@));
        },
        (None, Some(root)) => {
            assert(dirs.len() == 3 && dirs[2] == root);
        },
        (None, None) => {
            assert(dirs.len() == 2);
        },
    }
}

/// A file of tasks is looked for in the directories of tasks, one after the other.
pub proof fn tasks_are_searched_in_order<F: Fs>(fs: &F, r: RefModel, ctx: CtxModel)
    requires
        plain(r, ReferenceKind::IncludeTasks) || plain(r, ReferenceKind::ImportTasks),
    ensures
        forall|k: int|
            #![trigger ctx.task_dirs[k]]
            0 <= k < ctx.task_dirs.len() && fs.file(place(ctx.task_dirs[k], r.value)) && (forall|
                j: int,
            |
                0 <= j < k ==> !fs.file(place(#[trigger] ctx.task_dirs[j], r.value))) ==> ends_at(
                resolve::resolved(fs, r, ctx),
                place(ctx.task_dirs[k], r.value),
            ),
        (forall|j: int|
            0 <= j < ctx.task_dirs.len() ==> !fs.file(place(#[trigger] ctx.task_dirs[j], r.value)))
            ==> ends_nowhere(resolve::resolved(fs, r, ctx)),
{
    literal_is_plain(r.value, ctx);
    found_in_order(fs, ctx.task_dirs, r.value);
}

/// A playbook is looked for beside the one that imports it, then at the root of the project.
pub proof fn a_playbook_is_searched<F: Fs>(fs: &F, r: RefModel, ctx: CtxModel)
    requires
        plain(r, ReferenceKind::ImportPlaybook),
    ensures
        ({
            let res = resolve::resolved(fs, r, ctx);
            let beside = place(ctx.file_dir, r.value);
            let root = place(ctx.project_root->0, r.value);
            let in_root = ctx.project_root is Some && fs.file(root);
            &&& fs.file(beside) ==> ends_at(res, beside)
            &&& !fs.file(beside) && in_root ==> ends_at(res, root)
            &&& !fs.file(beside) && !in_root ==> ends_nowhere(res)
        }),
{
    literal_is_plain(r.value, ctx);
    let dirs = resolve::playbook_bases(ctx);
    found_in_order(fs, dirs, r.value);
    assert(dirs[0] == ctx.file_dir);
    if ctx.project_root is Some {
        assert(dirs.len() == 2 && dirs[1] == ctx.project_root->0);
    }
}

/// A relative file of a play's variables is looked for in `vars` beside the play, then beside the
/// play. One that no list of alternatives holds is missing where it is in neither.
pub proof fn a_vars_file_is_searched<F: Fs>(fs: &F, r: RefModel, ctx: CtxModel)
    requires
        plain(r, ReferenceKind::VarsFiles),
        r.value.len() > 0,
        r.value[0] != '/',
        r.value[0] != '~',
        paths::parts(r.value, '/')[0] != "vars"@,
    ensures
        ({
            let res = resolve::resolved(fs, r, ctx);
            let vars = place(paths::joined(ctx.file_dir, "vars"@), r.value);
            let beside = place(ctx.file_dir, r.value);
            &&& fs.file(vars) ==> ends_at(res, vars)
            &&& !fs.file(vars) && fs.file(beside) ==> ends_at(res, beside)
            &&& !fs.file(vars) && !fs.file(beside) && !r.grouped ==> ends_nowhere(res)
            &&& !fs.file(vars) && !fs.file(beside) && r.grouped ==> res.status == Status::Skipped
        }),
{
    literal_is_plain(r.value, ctx);
    reveal_strlit("~/");
    let v = r.value;
    if text::begins_with(v, "~/"@) {
        assert(v.subrange(0, 2)[0] == v[0]);
    }
    let cands = resolve::vars_candidates(v, ctx.file_dir, ctx.home);
    let vars = place(paths::joined(ctx.file_dir, "vars"@), v);
    let beside = place(ctx.file_dir, v);
    assert(cands == seq![vars, beside]);
    reveal_with_fuel(resolve::first_file, 3);
}

// ------------------------------------------------------------------ roles

/// Is the name one word or a path: not a collection, a role in it, and no expression?
pub open spec fn plain_role(name: Seq<char>) -> bool {
    literal(name) && paths::parts(name, '.').len() != 3
}

/// The first of the roots of roles that holds the role.
pub open spec fn housed<F: Fs>(fs: &F, ctx: CtxModel, name: Seq<char>, k: int) -> bool {
    &&& 0 <= k < ctx.roles_roots.len()
    &&& fs.folder(paths::joined(ctx.roles_roots[k], name))
    &&& forall|j: int|
        0 <= j < k ==> !fs.folder(paths::joined(#[trigger] ctx.roles_roots[j], name))
}

proof fn first_folder_is<F: Fs>(fs: &F, of: Seq<Seq<char>>, i: int, k: int)
    requires
        0 <= i <= k <= of.len(),
        forall|j: int| i <= j < k ==> !fs.folder(#[trigger] of[j]),
        k < of.len() ==> fs.folder(of[k]),
    ensures
        resolve::first_folder(fs, of, i) == if k < of.len() {
            Some(of[k])
        } else {
            None
        },
    decreases k - i,
{
    if i < k {
        assert(!fs.folder(of[i]));
        first_folder_is(fs, of, i + 1, k);
    }
}

proof fn home_of_role<F: Fs>(fs: &F, ctx: CtxModel, name: Seq<char>, k: int)
    requires
        plain_role(name),
    ensures
        housed(fs, ctx, name, k) ==> resolve::role_home(fs, name, ctx) == Some(
            paths::joined(ctx.roles_roots[k], name),
        ),
        (forall|j: int|
            0 <= j < ctx.roles_roots.len() ==> !fs.folder(
                paths::joined(#[trigger] ctx.roles_roots[j], name),
            )) ==> resolve::role_home(fs, name, ctx) is None,
{
    literal_is_plain(name, ctx);
    let of = resolve::plain_below(ctx.roles_roots, name);
    assert forall|j: int| 0 <= j < of.len() implies #[trigger] of[j] == paths::joined(
        ctx.roles_roots[j],
        name,
    ) by {}
    if housed(fs, ctx, name, k) {
        first_folder_is(fs, of, 0, k);
    }
    if forall|j: int|
        0 <= j < ctx.roles_roots.len() ==> !fs.folder(
            paths::joined(#[trigger] ctx.roles_roots[j], name),
        ) {
        first_folder_is(fs, of, 0, of.len() as int);
    }
}

/// A role is the first of its directories, and there the first of `tasks/main.yml`,
/// `tasks/main.yaml`, `tasks/main.json` and `tasks/main`. Where a `tasks_from` names another file,
/// the role is not missing without one of these. A role in none of the roots is missing.
pub proof fn a_role_is_searched<F: Fs>(fs: &F, r: RefModel, ctx: CtxModel, k: int)
    requires
        plain(r, ReferenceKind::Role),
        plain_role(r.value),
    ensures
        ({
            let res = resolve::resolved(fs, r, ctx);
            let main = paths::joined(
                paths::joined(paths::joined(ctx.roles_roots[k], r.value), "tasks"@),
                "main"@,
            );
            let yml = fs.file(main + ".yml"@);
            let yaml = fs.file(main + ".yaml"@);
            let json = fs.file(main + ".json"@);
            let bare = fs.file(main);
            &&& housed(fs, ctx, r.value, k) && yml ==> ends_at(res, main + ".yml"@)
            &&& housed(fs, ctx, r.value, k) && !yml && yaml ==> ends_at(res, main + ".yaml"@)
            &&& housed(fs, ctx, r.value, k) && !yml && !yaml && json ==> ends_at(
                res,
                main + ".json"@,
            )
            &&& housed(fs, ctx, r.value, k) && !yml && !yaml && !json && bare ==> ends_at(res, main)
            &&& housed(fs, ctx, r.value, k) && !yml && !yaml && !json && !bare && !r.has_tasks_from
                ==> ends_nowhere(res)
            &&& housed(fs, ctx, r.value, k) && !yml && !yaml && !json && !bare && r.has_tasks_from
                ==> res.status == Status::Skipped
            &&& (forall|j: int|
                0 <= j < ctx.roles_roots.len() ==> !fs.folder(
                    paths::joined(#[trigger] ctx.roles_roots[j], r.value),
                )) ==> ends_nowhere(res)
        }),
{
    literal_is_plain(r.value, ctx);
    home_of_role(fs, ctx, r.value, k);
    if housed(fs, ctx, r.value, k) {
        let dir = paths::joined(paths::joined(ctx.roles_roots[k], r.value), "tasks"@);
        files_of_role(fs, dir, "main"@);
    }
}

/// The files that are tried for a name in a directory of a role.
proof fn files_of_role<F: Fs>(fs: &F, dir: Seq<char>, stem: Seq<char>)
    ensures
        ({
            let bare = paths::joined(dir, stem);
            &&& resolve::role_files(resolve::ROLE_EXTENSIONS@, dir, stem, false) == seq![
                bare + ".yml"@,
                bare + ".yaml"@,
                bare + ".json"@,
                bare,
            ]
            &&& resolve::role_files(resolve::ROLE_EXTENSIONS@, dir, stem, true) == seq![
                bare,
                bare + ".yml"@,
                bare + ".yaml"@,
                bare + ".json"@,
            ]
            &&& first_of_four(
                fs,
                resolve::role_files(resolve::ROLE_EXTENSIONS@, dir, stem, false),
            )
            &&& first_of_four(fs, resolve::role_files(resolve::ROLE_EXTENSIONS@, dir, stem, true))
        }),
{
    let exts = resolve::ROLE_EXTENSIONS@;
    let bare = paths::joined(dir, stem);
    assert(exts.len() == 3 && exts[0]@ == ".yml"@ && exts[1]@ == ".yaml"@ && exts[2]@ == ".json"@);
    reveal_with_fuel(resolve::with_extensions, 4);
    let three = resolve::with_extensions(bare, exts, 3);
    assert(three =~= seq![bare + ".yml"@, bare + ".yaml"@, bare + ".json"@]);
    assert(resolve::role_files(exts, dir, stem, false) =~= seq![
        bare + ".yml"@,
        bare + ".yaml"@,
        bare + ".json"@,
        bare,
    ]);
    assert(resolve::role_files(exts, dir, stem, true) =~= seq![
        bare,
        bare + ".yml"@,
        bare + ".yaml"@,
        bare + ".json"@,
    ]);
    reveal_with_fuel(resolve::first_file, 5);
}

spec fn first_of_four<F: Fs>(fs: &F, of: Seq<Seq<char>>) -> bool {
    resolve::first_file(fs, of, 0) == if fs.file(of[0]) {
        Some(of[0])
    } else if fs.file(of[1]) {
        Some(of[1])
    } else if fs.file(of[2]) {
        Some(of[2])
    } else if fs.file(of[3]) {
        Some(of[3])
    } else {
        None
    }
}

/// A `tasks_from` is a file in `tasks` of its role: as it is written, then with `.yml`, `.yaml` and
/// `.json` behind it. Without its role it is skipped.
pub proof fn a_tasks_from_is_searched<F: Fs>(
    fs: &F,
    r: RefModel,
    ctx: CtxModel,
    name: Seq<char>,
    k: int,
)
    requires
        plain(r, ReferenceKind::TasksFrom),
        r.role == Some(name),
        plain_role(name),
    ensures
        ({
            let res = resolve::resolved(fs, r, ctx);
            let bare = paths::joined(
                paths::joined(paths::joined(ctx.roles_roots[k], name), "tasks"@),
                r.value,
            );
            let whole = fs.file(bare);
            let yml = fs.file(bare + ".yml"@);
            let yaml = fs.file(bare + ".yaml"@);
            let json = fs.file(bare + ".json"@);
            &&& housed(fs, ctx, name, k) && whole ==> ends_at(res, bare)
            &&& housed(fs, ctx, name, k) && !whole && yml ==> ends_at(res, bare + ".yml"@)
            &&& housed(fs, ctx, name, k) && !whole && !yml && yaml ==> ends_at(res, bare + ".yaml"@)
            &&& housed(fs, ctx, name, k) && !whole && !yml && !yaml && json ==> ends_at(
                res,
                bare + ".json"@,
            )
            &&& housed(fs, ctx, name, k) && !whole && !yml && !yaml && !json ==> ends_nowhere(res)
            &&& (forall|j: int|
                0 <= j < ctx.roles_roots.len() ==> !fs.folder(
                    paths::joined(#[trigger] ctx.roles_roots[j], name),
                )) ==> res.status == Status::Skipped
        }),
{
    literal_is_plain(r.value, ctx);
    home_of_role(fs, ctx, name, k);
    if housed(fs, ctx, name, k) {
        let dir = paths::joined(paths::joined(ctx.roles_roots[k], name), "tasks"@);
        files_of_role(fs, dir, r.value);
    }
}

/// A role of a collection, `ns.coll.role`, is the first `ns/coll/roles/role` below the roots of
/// collections.
pub proof fn a_collection_role_is_searched<F: Fs>(
    fs: &F,
    ctx: CtxModel,
    name: Seq<char>,
    ns: Seq<char>,
    coll: Seq<char>,
    role: Seq<char>,
    k: int,
)
    requires
        literal(name),
        paths::parts(name, '.') == seq![ns, coll, role],
        0 <= k < ctx.collection_roots.len(),
        fs.folder(collected(ctx.collection_roots[k], ns, coll, role)),
        forall|j: int|
            0 <= j < k ==> !fs.folder(
                collected(#[trigger] ctx.collection_roots[j], ns, coll, role),
            ),
    ensures
        resolve::role_home(fs, name, ctx) == Some(
            collected(ctx.collection_roots[k], ns, coll, role),
        ),
{
    literal_is_plain(name, ctx);
    let of = resolve::collection_dirs(ctx.collection_roots, ns, coll, "roles"@, role);
    assert forall|j: int| 0 <= j < of.len() implies #[trigger] of[j] == collected(
        ctx.collection_roots[j],
        ns,
        coll,
        role,
    ) by {}
    first_folder_is(fs, of, 0, k);
}

/// The directory of a role of a collection.
pub open spec fn collected(
    root: Seq<char>,
    ns: Seq<char>,
    coll: Seq<char>,
    role: Seq<char>,
) -> Seq<char> {
    paths::joined(paths::joined(paths::joined(paths::joined(root, ns), coll), "roles"@), role)
}

// ------------------------------------------------------------------ alternatives and modules

/// Of alternatives without expressions, the first one wins of which one of the places is a file.
pub proof fn the_first_alternative_wins<F: Fs>(
    fs: &F,
    r: RefModel,
    ctx: CtxModel,
    alts: Seq<Seq<char>>,
    k: int,
)
    requires
        r.vars_files_group == Some(alts),
        forall|i: int|
            0 <= i < alts.len() ==> literal(#[trigger] alts[i]) && alts[i].len() > 0 && alts[i][0]
                != '/' && alts[i][0] != '~' && paths::parts(alts[i], '/')[0] != "vars"@,
        0 <= k <= alts.len(),
        forall|i: int| 0 <= i < k ==> !fs.file(vars_place(ctx, #[trigger] alts[i])),
        forall|i: int| 0 <= i < k ==> !fs.file(place(ctx.file_dir, #[trigger] alts[i])),
    ensures
        k < alts.len() && fs.file(vars_place(ctx, alts[k])) ==> ends_at(
            resolve::resolved(fs, r, ctx),
            vars_place(ctx, alts[k]),
        ),
        k < alts.len() && !fs.file(vars_place(ctx, alts[k])) && fs.file(
            place(ctx.file_dir, alts[k]),
        ) ==> ends_at(resolve::resolved(fs, r, ctx), place(ctx.file_dir, alts[k])),
        k == alts.len() ==> ends_nowhere(resolve::resolved(fs, r, ctx)),
{
    group_reaches(fs, ctx, alts, 0, k, Seq::empty());
}

/// A path in `vars` beside a file.
pub open spec fn vars_place(ctx: CtxModel, value: Seq<char>) -> Seq<char> {
    place(paths::joined(ctx.file_dir, "vars"@), value)
}

proof fn group_reaches<F: Fs>(
    fs: &F,
    ctx: CtxModel,
    alts: Seq<Seq<char>>,
    i: int,
    k: int,
    tried: Seq<Seq<char>>,
)
    requires
        0 <= i <= k <= alts.len(),
        forall|i: int|
            0 <= i < alts.len() ==> literal(#[trigger] alts[i]) && alts[i].len() > 0 && alts[i][0]
                != '/' && alts[i][0] != '~' && paths::parts(alts[i], '/')[0] != "vars"@,
        forall|i: int| 0 <= i < k ==> !fs.file(vars_place(ctx, #[trigger] alts[i])),
        forall|i: int| 0 <= i < k ==> !fs.file(place(ctx.file_dir, #[trigger] alts[i])),
    ensures
        ({
            let res = resolve::group_from(fs, alts, i, ctx, tried, false);
            &&& k < alts.len() && fs.file(vars_place(ctx, alts[k])) ==> ends_at(
                res,
                vars_place(ctx, alts[k]),
            )
            &&& k < alts.len() && !fs.file(vars_place(ctx, alts[k])) && fs.file(
                place(ctx.file_dir, alts[k]),
            ) ==> ends_at(res, place(ctx.file_dir, alts[k]))
            &&& k == alts.len() ==> ends_nowhere(res)
        }),
    decreases alts.len() - i,
{
    if i < alts.len() {
        let v = alts[i];
        assert(literal(v));
        literal_is_plain(v, ctx);
        reveal_strlit("~/");
        if text::begins_with(v, "~/"@) {
            assert(v.subrange(0, 2)[0] == v[0]);
        }
        let cands = resolve::vars_candidates(v, ctx.file_dir, ctx.home);
        assert(cands == seq![vars_place(ctx, v), place(ctx.file_dir, v)]);
        reveal_with_fuel(resolve::first_file, 3);
        if i < k {
            assert(!fs.file(vars_place(ctx, alts[i])));
            assert(!fs.file(place(ctx.file_dir, alts[i])));
            group_reaches(fs, ctx, alts, i + 1, k, tried + cands);
        }
    }
}

/// A module that the installed Ansible has under its name in `ansible.builtin` is that file.
#[verifier::spinoff_prover]
pub proof fn a_builtin_module_is_found<F: Fs>(
    fs: &F,
    r: RefModel,
    ctx: CtxModel,
    module: Seq<char>,
    file: Seq<char>,
    k: int,
)
    requires
        plain(r, ReferenceKind::Module),
        paths::parts(r.value, '.') == seq!["ansible"@, "builtin"@, module],
        0 <= k < ctx.builtins.len(),
        ctx.builtins[k] == (module, file),
        forall|j: int| 0 <= j < k ==> (#[trigger] ctx.builtins[j]).0 != module,
        fs.file(file),
    ensures
        ends_at(resolve::resolved(fs, r, ctx), file),
{
    literal_is_plain(r.value, ctx);
    lookup_is(ctx.builtins, module, 0, k);
    let roots = ctx.collection_roots;
    let all = resolve::collection_candidates(
        fs,
        roots,
        roots.len() as int,
        "ansible"@,
        "builtin"@,
        module,
    );
    let cands = seq![file] + all;
    assert(cands[0] == file);
    assert(resolve::qualified_candidates(fs, "ansible"@, "builtin"@, module, ctx) == cands);
    chain_ends_at_the_first(fs, r.value, ctx, cands);
}

/// Where the first candidate of a name is a file, the search ends there.
#[verifier::spinoff_prover]
proof fn chain_ends_at_the_first<F: Fs>(
    fs: &F,
    name: Seq<char>,
    ctx: CtxModel,
    cands: Seq<Seq<char>>,
)
    requires
        resolve::module_step(fs, name, ctx) is Some,
        (resolve::module_step(fs, name, ctx)->0).0 == cands,
        cands.len() > 0,
        fs.file(cands[0]),
    ensures
        ends_at(
            resolve::module_chain(fs, name, ctx, seq![name], Seq::empty()),
            cands[0],
        ),
{
    assert(resolve::first_file(fs, cands, 0) == Some(cands[0]));
}

proof fn lookup_is(of: Seq<(Seq<char>, Seq<char>)>, key: Seq<char>, i: int, k: int)
    requires
        0 <= i <= k < of.len(),
        of[k].0 == key,
        forall|j: int| i <= j < k ==> (#[trigger] of[j]).0 != key,
    ensures
        resolve::lookup(of, key, i) == Some(of[k].1),
    decreases k - i,
{
    if i < k {
        assert(of[i].0 != key);
        lookup_is(of, key, i + 1, k);
    }
}

/// What a reference resolves to, other than by an expression or as a directory, is a file.
pub proof fn what_resolves_exists<F: Fs>(fs: &F, r: RefModel, ctx: CtxModel)
    requires
        plain(r, r.kind),
        r.kind != ReferenceKind::IncludeVarsDir,
        resolve::resolved(fs, r, ctx).status == Status::Resolved,
    ensures
        resolve::resolved(fs, r, ctx).targets.len() == 1,
        fs.file(resolve::resolved(fs, r, ctx).targets[0]),
{
    literal_is_plain(r.value, ctx);
    match r.kind {
        ReferenceKind::IncludeTasks | ReferenceKind::ImportTasks => {
            found_exists(fs, resolve::unique_of(resolve::below(ctx.task_dirs, r.value)));
        },
        ReferenceKind::ImportPlaybook => {
            found_exists(
                fs,
                resolve::unique_of(resolve::below(resolve::playbook_bases(ctx), r.value)),
            );
        },
        ReferenceKind::IncludeVars => {
            found_exists(
                fs,
                resolve::unique_of(resolve::below(resolve::vars_bases(ctx), r.value)),
            );
        },
        ReferenceKind::VarsFiles => {
            found_exists(fs, resolve::vars_candidates(r.value, ctx.file_dir, ctx.home));
        },
        ReferenceKind::Role => {
            if let Some(dir) = resolve::role_home(fs, r.value, ctx) {
                found_exists(
                    fs,
                    resolve::role_files(
                        resolve::ROLE_EXTENSIONS@,
                        paths::joined(dir, "tasks"@),
                        "main"@,
                        false,
                    ),
                );
            }
        },
        ReferenceKind::TasksFrom => {
            if let Some(name) = r.role {
                if let Some(dir) = resolve::role_home(fs, name, ctx) {
                    found_exists(
                        fs,
                        resolve::role_files(
                            resolve::ROLE_EXTENSIONS@,
                            paths::joined(dir, "tasks"@),
                            r.value,
                            true,
                        ),
                    );
                }
            }
        },
        ReferenceKind::Module => {
            chain_exists(fs, r.value, ctx, seq![r.value], Seq::empty());
        },
        _ => {},
    }
}

proof fn found_exists<F: Fs>(fs: &F, of: Seq<Seq<char>>)
    ensures
        resolve::found(fs, of).status == Status::Resolved ==> resolve::found(fs, of).targets.len()
            == 1 && fs.file(resolve::found(fs, of).targets[0]),
{
    first_file_is_one_of(fs, of, 0);
}

proof fn chain_exists<F: Fs>(
    fs: &F,
    name: Seq<char>,
    ctx: CtxModel,
    visited: Seq<Seq<char>>,
    trail: Seq<Seq<char>>,
)
    ensures
        ({
            let res = resolve::module_chain(fs, name, ctx, visited, trail);
            res.status == Status::Resolved ==> res.targets.len() == 1 && fs.file(res.targets[0])
        }),
    decreases resolve::renames(ctx) + 1 - visited.len(),
{
    if let Some((cands, redirect)) = resolve::module_step(fs, name, ctx) {
        first_file_is_one_of(fs, cands, 0);
        if resolve::first_file(fs, cands, 0) is None && redirect is Some && !crate::fs::among(
            visited,
            redirect->0,
        ) && visited.len() <= resolve::renames(ctx) {
            chain_exists(fs, redirect->0, ctx, visited.push(redirect->0), trail + cands);
        }
    }
}

// ------------------------------------------------------------------ other values

/// An absolute file of variables is that file; one below `~` is in the home directory; and one in
/// `vars` is not looked for in `vars/vars`.
pub proof fn special_vars_files<F: Fs>(fs: &F, r: RefModel, ctx: CtxModel)
    requires
        plain(r, ReferenceKind::VarsFiles),
        r.value.len() > 0,
        !r.grouped,
    ensures
        ({
            let res = resolve::resolved(fs, r, ctx);
            let v = r.value;
            let rest = v.subrange(2, v.len() as int);
            &&& v[0] == '/' && fs.file(paths::normal(v)) ==> ends_at(res, paths::normal(v))
            &&& v[0] == '/' && !fs.file(paths::normal(v)) ==> ends_nowhere(res)
            &&& v.len() >= 2 && v[0] == '~' && v[1] == '/' && ctx.home is Some ==> {
                let p = place(ctx.home->0, rest);
                if fs.file(p) {
                    ends_at(res, p)
                } else {
                    ends_nowhere(res)
                }
            }
            &&& v[0] != '/' && v[0] != '~' && paths::parts(v, '/')[0] == "vars"@ ==> {
                let p = place(ctx.file_dir, v);
                if fs.file(p) {
                    ends_at(res, p)
                } else {
                    ends_nowhere(res)
                }
            }
        }),
{
    literal_is_plain(r.value, ctx);
    reveal_strlit("~/");
    let v = r.value;
    assert("~/"@.len() == 2 && "~/"@[0] == '~' && "~/"@[1] == '/');
    if text::begins_with(v, "~/"@) {
        assert(v.subrange(0, 2)[0] == v[0]);
    }
    if v.len() >= 2 && v[0] == '~' && v[1] == '/' {
        assert(v.subrange(0, 2) =~= "~/"@);
    }
    reveal_with_fuel(resolve::first_file, 3);
}

/// A path with an expression in it is never missing, other than a static import of a playbook,
/// which is. Of task files and files of variables it leads to what it could reach.
pub proof fn expressions_are_followed<F: Fs>(fs: &F, r: RefModel, ctx: CtxModel, i: int)
    requires
        r.vars_files_group is None,
        ctx.project_root is None,
        0 <= i < r.value.len() - 1,
        r.value[i] == '{',
        r.value[i + 1] == '{',
        r.templated,
    ensures
        r.kind == ReferenceKind::ImportPlaybook ==> ends_nowhere(resolve::resolved(fs, r, ctx)),
        r.kind == ReferenceKind::IncludeTasks || r.kind == ReferenceKind::ImportTasks
            ==> resolve::resolved(fs, r, ctx).targets == fs.reached(ctx.task_dirs, r.value)
            && resolve::resolved(fs, r, ctx).status != Status::Missing,
        r.kind == ReferenceKind::VarsFiles ==> resolve::resolved(fs, r, ctx).targets == fs.reached(
            seq![paths::joined(ctx.file_dir, "vars"@), ctx.file_dir],
            r.value,
        ) && resolve::resolved(fs, r, ctx).status != Status::Missing,
{
    reveal_strlit("{{");
    let v = r.value;
    assert(v.subrange(i, i + 2) =~= "{{"@);
    text::find_from_is_first(v, "{{"@, 0);
    assert(text::stands_at(v, "{{"@, i));
    let values = resolve::expanded(v, ctx);
    assert(values[0] == v);
    assert(text::occurs(values[0], "{{"@));
}

/// The directory of variables that was loaded is resolved to its files, though there be none; what
/// failed to load is missing.
pub proof fn a_loaded_directory_is_resolved(
    outcome: crate::fs::OutcomeModel,
    role: Option<Seq<char>>,
)
    ensures
        outcome matches crate::fs::OutcomeModel::Loaded { files, .. } ==> resolve::dir_resolution(
            outcome,
            role,
        ).status == Status::Resolved && resolve::dir_resolution(outcome, role).targets == files,
        !(outcome is Loaded) ==> ends_nowhere(resolve::dir_resolution(outcome, role)),
        outcome matches crate::fs::OutcomeModel::CwdFallback { relative } ==> (role is Some
            ==> resolve::dir_resolution(outcome, role).candidates == seq![
            paths::joined(role->0, relative),
        ]),
{
}

/// A module in the first of the directories of modules, in the one file there that holds it, is
/// that file.
pub proof fn a_local_module_is_found<F: Fs>(
    fs: &F,
    r: RefModel,
    ctx: CtxModel,
    file: Seq<char>,
)
    requires
        plain(r, ReferenceKind::Module),
        paths::parts(r.value, '.') == seq![r.value],
        ctx.module_dirs.len() > 0,
        fs.names(ctx.module_dirs[0]) == seq![file],
        resolve::holds_module(file, r.value),
        fs.file(paths::joined(ctx.module_dirs[0], file)),
    ensures
        ends_at(resolve::resolved(fs, r, ctx), paths::joined(ctx.module_dirs[0], file)),
{
    literal_is_plain(r.value, ctx);
    let dir = ctx.module_dirs[0];
    let names = fs.names(dir);
    let p = paths::joined(dir, file);
    assert(names[0] == file && names.len() == 1);
    reveal_with_fuel(resolve::module_paths, 2);
    assert(resolve::module_paths(names, 1, dir, r.value) =~= seq![p]);
    assert(resolve::modules_in(fs, dir, r.value) == seq![p]);
    local_first(fs, ctx.module_dirs, ctx.module_dirs.len() as int, r.value, p);
    let cands = resolve::bare_candidates(fs, r.value, ctx);
    assert(cands.len() > 0 && cands[0] == p);
    chain_ends_at_the_first(fs, r.value, ctx, cands);
}

proof fn local_first<F: Fs>(
    fs: &F,
    dirs: Seq<Seq<char>>,
    n: int,
    name: Seq<char>,
    p: Seq<char>,
)
    requires
        0 < n <= dirs.len(),
        resolve::modules_in(fs, dirs[0], name) == seq![p],
    ensures
        resolve::legacy_candidates(fs, dirs, n, name).len() > 0,
        resolve::legacy_candidates(fs, dirs, n, name)[0] == p,
    decreases n,
{
    if n > 1 {
        local_first(fs, dirs, n - 1, name, p);
    } else {
        reveal_with_fuel(resolve::legacy_candidates, 2);
        assert(seq![p][0] == p);
    }
}

/// The id that a reference is reported under: a templated import of a playbook has its own, and so
/// has a directory of variables.
pub proof fn reports_are_named(r: RefModel)
    ensures
        resolve::rule_of(r) == if r.kind == ReferenceKind::ImportPlaybook && r.templated {
            "templated-import"@
        } else if r.kind == ReferenceKind::IncludeVarsDir {
            "missing-dir"@
        } else {
            "missing-file"@
        },
{
}

} // verus!
