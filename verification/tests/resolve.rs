//! Where references lead.

use ansible_core::fs::{Listing, Outcome};
use ansible_core::parse::Document;
use ansible_core::references::{extract, Reference, ReferenceKind};
use ansible_core::resolve::{
    resolve_dir, resolve_in, resolve_with_in, rule_id, substitute_literals, vars_files_candidates,
    AnsibleInstall, FileContext, Resolution, RoleExts, Route, SkipReason, Status,
};

fn strings(v: &[&str]) -> Vec<String> {
    v.iter().map(|s| s.to_string()).collect()
}

fn files(v: &[&str]) -> Listing {
    Listing { files: strings(v), ..Listing::default() }
}

/// Where a file of the project `/d` stands.
fn context(file: &str) -> FileContext {
    let dir = file.rsplit_once('/').map(|(d, _)| d.to_string()).unwrap_or_default();
    let role = file.find("/roles/").map(|i| {
        let rest = &file[i + 7..];
        let name = rest.split('/').next().unwrap_or_default();
        format!("{}/roles/{name}", &file[..i])
    });
    let mut task_dirs = Vec::new();
    if let Some(role) = &role {
        if dir.starts_with(&format!("{role}/handlers")) {
            task_dirs.push(format!("{role}/handlers"));
        }
        task_dirs.push(format!("{role}/tasks"));
    }
    task_dirs.push(dir.clone());
    FileContext {
        file_dir: dir,
        role_dir: role,
        project_root: Some("/d".to_string()),
        task_dirs,
        roles_roots: strings(&["/d/roles"]),
        collection_roots: strings(&["/d/collections/ansible_collections"]),
        module_dirs: strings(&["/d/library"]),
        install: AnsibleInstall { package_dir: None, builtins: Vec::new(), redirects: Vec::new() },
        routes: Vec::new(),
        home: Some("/home/me".to_string()),
    }
}

fn resolve_at(ctx: &FileContext, fs: &Listing, src: &str) -> Vec<(Reference, Resolution)> {
    extract(&Document::new(src.to_string()).parse().expect("valid yaml"))
        .refs
        .into_iter()
        .map(|r| {
            let res = resolve_in(&r, ctx, fs);
            (r, res)
        })
        .collect()
}

fn resolve_src(file: &str, fs: &Listing, src: &str) -> Vec<(Reference, Resolution)> {
    resolve_at(&context(file), fs, src)
}

fn first(out: &[(Reference, Resolution)], kind: ReferenceKind) -> &Resolution {
    &out.iter().find(|(r, _)| r.kind == kind).expect("kind").1
}

#[test]
fn handler_includes_anchor_at_handlers_not_tasks() {
    let fs = files(&[
        "/d/roles/r/handlers/restart.yml",
        "/d/roles/r/tasks/restart.yml",
        "/d/roles/r/tasks/shared.yml",
        "/d/roles/r/handlers/main.yml",
    ]);
    let handler_file = "/d/roles/r/handlers/main.yml";

    let out = resolve_src(handler_file, &fs, "- include_tasks: restart.yml\n");
    let res = first(&out, ReferenceKind::IncludeTasks);
    assert_eq!(res.status, Status::Resolved);
    assert_eq!(res.targets, ["/d/roles/r/handlers/restart.yml"]);

    let out = resolve_src(handler_file, &fs, "- include_tasks: shared.yml\n");
    let res = first(&out, ReferenceKind::IncludeTasks);
    assert_eq!(res.status, Status::Resolved, "tried {:#?}", res.candidates);
    assert_eq!(res.targets, ["/d/roles/r/tasks/shared.yml"]);

    let out = resolve_src("/d/roles/r/tasks/main.yml", &fs, "- include_tasks: restart.yml\n");
    let res = first(&out, ReferenceKind::IncludeTasks);
    assert_eq!(res.targets, ["/d/roles/r/tasks/restart.yml"]);
}

#[test]
fn demo_notifier_handler_includes_resolve_as_documented() {
    let fs = files(&[
        "/d/roles/notifier/handlers/main.yml",
        "/d/roles/notifier/handlers/restart.yml",
        "/d/roles/notifier/tasks/restart.yml",
        "/d/roles/notifier/tasks/shared.yml",
    ]);
    let file = "/d/roles/notifier/handlers/main.yml";

    let out = resolve_src(file, &fs, "- include_tasks: restart.yml\n");
    let res = first(&out, ReferenceKind::IncludeTasks);
    assert_eq!(res.status, Status::Resolved);
    assert!(
        res.targets[0].ends_with("notifier/handlers/restart.yml"),
        "handlers/ must win over the tasks/ decoy: {:?}",
        res.targets
    );

    let out = resolve_src(file, &fs, "- include_tasks: shared.yml\n");
    let res = first(&out, ReferenceKind::IncludeTasks);
    assert_eq!(res.status, Status::Resolved, "tried {:#?}", res.candidates);
    assert!(
        res.targets[0].ends_with("notifier/tasks/shared.yml"),
        "the tasks/ fallback resolves shared.yml: {:?}",
        res.targets
    );
}

#[test]
fn vars_files_candidate_order_vars_subdir_wins() {
    let fs = files(&["/d/x.yml", "/d/vars/x.yml"]);
    let out = resolve_src("/d/site.yml", &fs, "- hosts: all\n  vars_files: [x.yml]\n");
    let res = first(&out, ReferenceKind::VarsFiles);
    assert_eq!(res.status, Status::Resolved);
    assert_eq!(res.targets, ["/d/vars/x.yml"]);
    assert_eq!(res.candidates, ["/d/vars/x.yml", "/d/x.yml"]);
}

#[test]
fn vars_files_vars_prefixed_entry_skips_the_prepend() {
    let fs = files(&["/d/vars/x.yml"]);
    let out = resolve_src("/d/site.yml", &fs, "- hosts: all\n  vars_files: [vars/x.yml]\n");
    let res = first(&out, ReferenceKind::VarsFiles);
    assert_eq!(res.status, Status::Resolved);
    assert_eq!(res.candidates, ["/d/vars/x.yml"]);

    let out = resolve_src("/d/site.yml", &fs, "- hosts: all\n  vars_files: [./vars/x.yml]\n");
    let res = first(&out, ReferenceKind::VarsFiles);
    assert_eq!(res.status, Status::Resolved);
    assert_eq!(res.candidates, ["/d/vars/vars/x.yml", "/d/vars/x.yml"]);
}

#[test]
fn vars_files_parent_paths_normalise_before_the_check() {
    let fs = files(&["/d/shared/x.yml"]);
    let out =
        resolve_src("/d/plays/site.yml", &fs, "- hosts: all\n  vars_files: [../shared/x.yml]\n");
    let res = first(&out, ReferenceKind::VarsFiles);
    assert_eq!(res.status, Status::Resolved);
    assert_eq!(res.targets, ["/d/shared/x.yml"]);
    for c in &res.candidates {
        assert!(!c.contains(".."), "candidates are normalised before the check: {c:?}");
    }
}

#[test]
fn vars_files_absolute_entry_is_one_candidate() {
    let fs = files(&["/d/abs.yml"]);
    let out = resolve_src("/d/site.yml", &fs, "- hosts: all\n  vars_files: ['/d/abs.yml']\n");
    let res = first(&out, ReferenceKind::VarsFiles);
    assert_eq!(res.status, Status::Resolved);
    assert_eq!(res.candidates, ["/d/abs.yml"]);
    assert_eq!(res.targets, ["/d/abs.yml"]);
}

#[test]
fn vars_files_no_role_vars_or_project_root_fallback() {
    let fs = files(&["/d/only-at-root.yml", "/d/ansible.cfg"]);
    let out =
        resolve_src("/d/playbooks/site.yml", &fs, "- hosts: all\n  vars_files: [only-at-root.yml]\n");
    let res = first(&out, ReferenceKind::VarsFiles);
    assert_eq!(res.status, Status::Missing);
    assert_eq!(
        res.candidates,
        ["/d/playbooks/vars/only-at-root.yml", "/d/playbooks/only-at-root.yml"]
    );
}

#[test]
fn vars_files_group_first_found_wins_and_all_missing_is_one_missing() {
    let fs = files(&["/d/vars/b.yml", "/d/vars/c.yml"]);
    let out = resolve_src(
        "/d/site.yml",
        &fs,
        "- hosts: all\n  vars_files:\n    - - vars/a.yml\n      - vars/b.yml\n      - vars/c.yml\n",
    );
    let group = &out.iter().find(|(r, _)| r.vars_files_group.is_some()).unwrap().1;
    assert_eq!(group.status, Status::Resolved);
    assert_eq!(group.targets, ["/d/vars/b.yml"]);
    let (_, a_res) = out.iter().find(|(r, _)| r.value == "vars/a.yml").unwrap();
    assert_eq!(a_res.status, Status::Skipped);
    assert_eq!(a_res.skip_reason, Some(SkipReason::GroupAlternative));

    let out = resolve_src(
        "/d/site.yml",
        &fs,
        "- hosts: all\n  vars_files:\n    - - vars/nope-a.yml\n      - vars/nope-b.yml\n",
    );
    let missing: Vec<_> = out.iter().filter(|(_, res)| res.status == Status::Missing).collect();
    assert_eq!(missing.len(), 1);
    assert!(missing[0].0.vars_files_group.is_some());
    assert_eq!(missing[0].1.candidates, ["/d/vars/nope-a.yml", "/d/vars/nope-b.yml"]);
}

#[test]
fn vars_files_group_with_templated_alternative_never_warns() {
    let out = resolve_src(
        "/d/site.yml",
        &files(&[]),
        "- hosts: all\n  vars_files:\n    - - \"{{ env }}.yml\"\n      - vars/nope.yml\n",
    );
    let group = &out.iter().find(|(r, _)| r.vars_files_group.is_some()).unwrap().1;
    assert_eq!(group.status, Status::Skipped);
    assert_eq!(group.skip_reason, Some(SkipReason::Templated));
    assert!(out.iter().all(|(_, res)| res.status != Status::Missing));
}

#[test]
fn vars_files_templated_entry_globs_for_navigation() {
    let mut fs = files(&["/d/vars/prod.yml", "/d/vars/staging.yml"]);
    fs.globs.push((
        "vars/{{ env }}.yml".to_string(),
        strings(&["/d/vars/prod.yml", "/d/vars/staging.yml"]),
    ));
    let out = resolve_src("/d/site.yml", &fs, "- hosts: all\n  vars_files: [\"vars/{{ env }}.yml\"]\n");
    let res = first(&out, ReferenceKind::VarsFiles);
    assert_eq!(res.status, Status::Resolved);
    assert_eq!(res.skip_reason, Some(SkipReason::Templated), "offer, never assert");
    assert!(res.targets.contains(&"/d/vars/prod.yml".to_string()));
    assert!(res.targets.contains(&"/d/vars/staging.yml".to_string()));
}

#[test]
fn resolve_with_substitutes_known_literals_for_vars_files() {
    let fs = files(&["/d/vars/prod.yml"]);
    let ctx = context("/d/site.yml");
    let doc = Document::new("- hosts: all\n  vars_files: [\"vars/{{ env }}.yml\"]\n".to_string());
    let refs = extract(&doc.parse().unwrap()).refs;
    let r = refs.iter().find(|r| r.kind == ReferenceKind::VarsFiles).unwrap();
    let literals = vec![("env".to_string(), strings(&["prod"]))];
    let res = resolve_with_in(r, &ctx, &literals, &fs);
    assert_eq!(res.status, Status::Resolved);
    assert_eq!(res.skip_reason, Some(SkipReason::Templated), "navigation only");
    assert_eq!(res.targets, ["/d/vars/prod.yml"]);
}

fn installed(mut ctx: FileContext) -> FileContext {
    ctx.install = AnsibleInstall {
        package_dir: Some("/usr/ansible".to_string()),
        builtins: vec![("systemd".to_string(), "/usr/ansible/modules/systemd.py".to_string())],
        redirects: vec![(
            "docker_container".to_string(),
            "community.docker.docker_container".to_string(),
        )],
    };
    ctx.collection_roots.push("/usr/ansible_collections".to_string());
    ctx
}

#[test]
fn bare_module_names_resolve_in_the_loaders_order() {
    let fs = files(&[
        "/d/demo/library/ping.py",
        "/usr/ansible/modules/debug.py",
        "/usr/ansible/modules/ping.py",
        "/usr/ansible_collections/community/docker/plugins/modules/docker_container.py",
    ]);
    let mut ctx = installed(context("/d/demo/playbook.yml"));
    ctx.module_dirs = strings(&["/d/demo/library"]);

    let out = resolve_at(&ctx, &fs, "- ping:\n    data: x\n");
    let res = first(&out, ReferenceKind::Module);
    assert_eq!(res.status, Status::Resolved, "tried {:#?}", res.candidates);
    assert!(res.targets[0].ends_with("demo/library/ping.py"), "got {:?}", res.targets);

    let out = resolve_at(&ctx, &fs, "- debug:\n    msg: hi\n");
    let res = first(&out, ReferenceKind::Module);
    assert_eq!(res.status, Status::Resolved, "tried {:#?}", res.candidates);
    assert!(res.targets[0].ends_with("ansible/modules/debug.py"), "got {:?}", res.targets);
    assert!(
        res.candidates[0].ends_with("demo/library/debug.py"),
        "library dirs searched first: {:#?}",
        res.candidates
    );

    let out = resolve_at(&ctx, &fs, "- docker_container:\n    name: x\n");
    let res = first(&out, ReferenceKind::Module);
    assert_eq!(res.status, Status::Resolved);
    assert!(
        res.targets[0].contains("community/docker/plugins/modules/docker_container.py"),
        "got {:?}",
        res.targets
    );

    let out = resolve_at(&ctx, &fs, "- builtin.debug:\n    msg: hi\n");
    assert!(out.iter().all(|(r, _)| r.kind != ReferenceKind::Module));
}

#[test]
fn legacy_modules_match_any_extension() {
    let fs = files(&["/d/library/winmod.ps1", "/d/library/rawmod", "/d/library/notes.md"]);
    let out = resolve_src("/d/site.yml", &fs, "- winmod:\n    path: x\n");
    let res = first(&out, ReferenceKind::Module);
    assert_eq!(res.status, Status::Resolved, "tried {:#?}", res.candidates);
    assert_eq!(res.targets, ["/d/library/winmod.ps1"]);

    let out = resolve_src("/d/site.yml", &fs, "- rawmod:\n    path: x\n");
    let res = first(&out, ReferenceKind::Module);
    assert_eq!(res.status, Status::Resolved, "tried {:#?}", res.candidates);
    assert_eq!(res.targets, ["/d/library/rawmod"]);

    let out = resolve_src("/d/site.yml", &fs, "- notes:\n    path: x\n");
    let res = first(&out, ReferenceKind::Module);
    assert_ne!(res.status, Status::Resolved, "got {:#?}", res.targets);
}

#[test]
fn ambiguous_module_match_takes_sorted_first() {
    let fs = files(&["/d/library/both.py", "/d/library/both", "/d/library/both.ps1"]);
    let out = resolve_src("/d/site.yml", &fs, "- both:\n    path: x\n");
    let res = first(&out, ReferenceKind::Module);
    assert_eq!(res.status, Status::Resolved, "tried {:#?}", res.candidates);
    assert_eq!(res.targets, ["/d/library/both"]);
    assert!(res.candidates.contains(&"/d/library/both.ps1".to_string()), "{:#?}", res.candidates);
    assert!(res.candidates.contains(&"/d/library/both.py".to_string()), "{:#?}", res.candidates);
}

fn demo_collections() -> (FileContext, Listing) {
    let root = "/d/demo/collections/ansible_collections";
    let mut ctx = context("/d/demo/playbook.yml");
    ctx.module_dirs = strings(&["/d/demo/library"]);
    ctx.collection_roots = strings(&[root]);
    let alpha = format!("{root}/demo/alpha/meta/runtime.yml");
    let bravo = format!("{root}/demo/bravo/meta/runtime.yml");
    let route = |table: &str, module: &str, to: &str| Route {
        table: table.to_string(),
        module: module.to_string(),
        to: to.to_string(),
    };
    ctx.routes = vec![
        route(&alpha, "relay", "demo.bravo.relay"),
        route(&bravo, "relay", "demo.charlie.relay"),
        route(&alpha, "loop_a", "demo.bravo.loop_b"),
        route(&bravo, "loop_b", "demo.alpha.loop_a"),
    ];
    let fs = files(&[
        "/d/demo/library/sweep.sh",
        &format!("{root}/demo/charlie/plugins/modules/pulse.sh"),
        &format!("{root}/demo/charlie/plugins/modules/relay.py"),
        &alpha,
        &bravo,
    ]);
    (ctx, fs)
}

#[test]
fn demo_non_python_modules_resolve() {
    let (ctx, fs) = demo_collections();
    let out = resolve_at(&ctx, &fs, "- sweep:\n    paths: /var/tmp\n");
    let res = first(&out, ReferenceKind::Module);
    assert_eq!(res.status, Status::Resolved, "tried {:#?}", res.candidates);
    assert!(res.targets[0].ends_with("demo/library/sweep.sh"), "got {:?}", res.targets);

    let out = resolve_at(&ctx, &fs, "- demo.charlie.pulse:\n    interval: 5\n");
    let res = first(&out, ReferenceKind::Module);
    assert_eq!(res.status, Status::Resolved, "tried {:#?}", res.candidates);
    assert!(
        res.targets[0].ends_with("demo/charlie/plugins/modules/pulse.sh"),
        "got {:?}",
        res.targets
    );
}

#[test]
fn chained_module_redirects_resolve_and_cycles_terminate() {
    let (ctx, fs) = demo_collections();
    let out = resolve_at(&ctx, &fs, "- demo.alpha.relay:\n    x: 1\n");
    let res = first(&out, ReferenceKind::Module);
    assert_eq!(res.status, Status::Resolved, "tried {:#?}", res.candidates);
    assert!(
        res.targets[0].ends_with("demo/charlie/plugins/modules/relay.py"),
        "got {:?}",
        res.targets
    );
    assert!(
        res.candidates.iter().any(|c| c.contains("demo/alpha/plugins")),
        "first hop in the trail: {:#?}",
        res.candidates
    );

    let out = resolve_at(&ctx, &fs, "- demo.alpha.loop_a:\n    x: 1\n");
    let res = first(&out, ReferenceKind::Module);
    assert_eq!(res.status, Status::Skipped, "cycle must give up: {:#?}", res.candidates);
    assert_eq!(res.skip_reason, Some(SkipReason::NotInWorkspace));
}

#[test]
fn resolve_with_substitutes_a_known_literal_for_navigation() {
    let fs = files(&["/d/prod.yml"]);
    let ctx = context("/d/play.yml");
    let nodes = Document::new("- include_vars: \"{{ env }}.yml\"\n".to_string()).parse().unwrap();
    let refs = extract(&nodes).refs;
    let r = refs.iter().find(|r| r.kind == ReferenceKind::IncludeVars).unwrap();

    let lit = vec![("env".to_string(), strings(&["prod"]))];
    let res = resolve_with_in(r, &ctx, &lit, &fs);
    assert_eq!(res.status, Status::Resolved);
    assert!(res.targets.iter().any(|t| t.ends_with("prod.yml")));
    assert_eq!(res.skip_reason, Some(SkipReason::Templated));

    let res2 = resolve_with_in(r, &ctx, &Vec::new(), &fs);
    assert_ne!(res2.status, Status::Missing);
}

#[test]
fn substitute_literals_needs_every_token_and_a_bare_identifier() {
    let lit = vec![("env".to_string(), strings(&["prod", "staging"]))];
    let mut got = substitute_literals("{{ env }}.yml", &lit);
    got.sort();
    assert_eq!(got, vec!["prod.yml".to_string(), "staging.yml".to_string()]);
    assert!(substitute_literals("{{ env | upper }}.yml", &lit).is_empty());
    assert!(substitute_literals("{{ other }}.yml", &lit).is_empty());
}

#[test]
fn playbook_dir_tries_every_plausible_location() {
    let fs = files(&["/d/roles/common/tasks/check-prerequisites.yml"]);
    let out = resolve_src(
        "/d/roles/lustre-storage/tasks/main.yml",
        &fs,
        "- include_tasks: \"{{ playbook_dir }}/../roles/common/tasks/check-prerequisites.yml\"\n",
    );
    let res = first(&out, ReferenceKind::IncludeTasks);
    assert_eq!(res.status, Status::Resolved, "resolves via <root>/playbooks, not <root>");
}

#[test]
fn role_path_outside_a_role_is_not_substituted() {
    let out = resolve_src(
        "/d/site.yml",
        &files(&[]),
        "- include_tasks: \"{{ role_path }}/tasks/whatever.yml\"\n",
    );
    assert_ne!(
        first(&out, ReferenceKind::IncludeTasks).status,
        Status::Missing,
        "must not warn on an unknown value"
    );
}

#[test]
fn include_vars_dir_targets_the_loaded_files_not_the_directory() {
    let mut fs = files(&[]);
    fs.vars_dirs = vec![
        (
            "/d/roles/db/vars/prod".to_string(),
            strings(&["/d/roles/db/vars/prod/a.yml", "/d/roles/db/vars/prod/sub/b.json"]),
        ),
        ("/d/roles/db/vars/empty".to_string(), Vec::new()),
    ];
    let file = "/d/roles/db/tasks/main.yml";

    let out = resolve_src(
        file,
        &fs,
        "- include_vars: { dir: prod, ignore_unknown_extensions: true }\n",
    );
    let res = first(&out, ReferenceKind::IncludeVarsDir);
    assert_eq!(res.status, Status::Resolved);
    assert_eq!(
        res.targets,
        ["/d/roles/db/vars/prod/a.yml", "/d/roles/db/vars/prod/sub/b.json"]
    );

    let res = resolve_src(file, &fs, "- include_vars: { dir: empty }\n");
    let res = first(&res, ReferenceKind::IncludeVarsDir);
    assert_eq!(res.status, Status::Resolved);
    assert!(res.targets.is_empty());

    let res = resolve_src(file, &fs, "- include_vars: { dir: vars/nope }\n");
    let res = first(&res, ReferenceKind::IncludeVarsDir);
    assert_eq!(res.status, Status::Missing);
    assert_eq!(res.candidates, ["/d/roles/db/vars/nope"]);

    let res = resolve_src(file, &fs, "- include_vars: { dir: \"{{ env }}\" }\n");
    let res = first(&res, ReferenceKind::IncludeVarsDir);
    assert_eq!(res.status, Status::Skipped);
}

#[test]
fn include_vars_dir_outside_a_role_uses_the_task_files_dir() {
    let mut fs = files(&[]);
    fs.vars_dirs = vec![(
        "/d/playbooks/setup/settings".to_string(),
        strings(&["/d/playbooks/setup/settings/c.yml"]),
    )];
    let out =
        resolve_src("/d/playbooks/setup/tasks.yml", &fs, "- include_vars: { dir: settings }\n");
    let res = first(&out, ReferenceKind::IncludeVarsDir);
    assert_eq!(res.status, Status::Resolved);
    assert_eq!(res.targets, ["/d/playbooks/setup/settings/c.yml"]);
}

#[test]
fn inventory_dir_is_not_substituted() {
    let mut fs = files(&["/d/only_here.yml"]);
    fs.globs.push((
        "{{ inventory_dir }}/only_here.yml".to_string(),
        strings(&["/d/only_here.yml"]),
    ));
    let out = resolve_src(
        "/d/tasks/main.yml",
        &fs,
        "- include_tasks: \"{{ inventory_dir }}/only_here.yml\"\n",
    );
    let res = first(&out, ReferenceKind::IncludeTasks);
    assert_eq!(res.skip_reason, Some(SkipReason::Templated));

    let out = resolve_src(
        "/d/tasks/main.yml",
        &fs,
        "- include_tasks: \"{{ inventory_dir }}/absent.yml\"\n",
    );
    let res = first(&out, ReferenceKind::IncludeTasks);
    assert_eq!(res.status, Status::Skipped);
}

#[test]
fn templated_paths_never_warn() {
    for value in
        ["\"{{ ap_protocol }}/validate.yml\"", "\"{{ nothing_matches_this }}/xyzzy.yml\""]
    {
        let out = resolve_src(
            "/d/roles/sync-state/tasks/http_access_point/reconcile.yml",
            &files(&[]),
            &format!("- include_tasks: {value}\n"),
        );
        let res = first(&out, ReferenceKind::IncludeTasks);
        assert_ne!(res.status, Status::Missing, "{value} must not warn");
        assert_eq!(res.skip_reason, Some(SkipReason::Templated));
    }
}

#[test]
fn templated_import_playbook_is_reported_not_skipped() {
    let out = resolve_src(
        "/d/playbooks/site.yml",
        &files(&[]),
        "- import_playbook: \"{{ env }}-setup.yml\"\n",
    );
    let res = first(&out, ReferenceKind::ImportPlaybook);
    assert_eq!(res.status, Status::Missing);
    assert!(res.candidates.is_empty(), "must not imply it went looking for a braces-named file");
}

#[test]
fn import_playbook_resolves_relative_to_the_importer() {
    let fs = files(&["/d/playbooks/lustre-infrastructure.yml", "/d/network-setup.yml"]);
    for (from, target, want) in [
        (
            "/d/playbooks/lustre-full-deploy.yml",
            "lustre-infrastructure.yml",
            "/d/playbooks/lustre-infrastructure.yml",
        ),
        ("/d/playbooks/app/setup.yml", "../../network-setup.yml", "/d/network-setup.yml"),
    ] {
        let out = resolve_src(from, &fs, &format!("- import_playbook: {target}\n"));
        let res = first(&out, ReferenceKind::ImportPlaybook);
        assert_eq!(res.status, Status::Resolved);
        assert_eq!(res.targets, [want]);
    }
}

#[test]
fn role_by_name_resolves_via_roles_path() {
    let fs = files(&["/d/roles/podman/tasks/main.yml"]);
    let out = resolve_src("/d/playbooks/site.yml", &fs, "- include_role:\n    name: podman\n");
    let res = first(&out, ReferenceKind::Role);
    assert_eq!(res.status, Status::Resolved, "tried {:#?}", res.candidates);
    assert!(res.targets[0].ends_with("roles/podman/tasks/main.yml"));
}

#[test]
fn role_without_main_is_fine_when_tasks_from_is_given() {
    let fs = files(&["/d/roles/cib-batch/tasks/begin.yml"]);
    let out = resolve_src(
        "/d/playbooks/site.yml",
        &fs,
        "- include_role: { name: cib-batch, tasks_from: begin }\n",
    );
    assert_eq!(first(&out, ReferenceKind::Role).status, Status::Skipped);
    assert_eq!(first(&out, ReferenceKind::TasksFrom).status, Status::Resolved);
}

#[test]
fn role_without_main_and_without_tasks_from_is_missing() {
    let fs = files(&["/d/roles/cib-batch/tasks/begin.yml"]);
    let out = resolve_src("/d/playbooks/site.yml", &fs, "- include_role:\n    name: cib-batch\n");
    assert_eq!(first(&out, ReferenceKind::Role).status, Status::Missing);
}

#[test]
fn unknown_role_name_is_reported() {
    let out = resolve_src("/d/site.yml", &files(&[]), "- hosts: all\n  roles:\n    - lustre\n");
    let res = first(&out, ReferenceKind::Role);
    assert_eq!(res.status, Status::Missing);
    assert!(!res.candidates.is_empty(), "must report where it looked");
}

#[test]
fn roles_block_entries_resolve() {
    let fs = files(&["/d/roles/podman/tasks/main.yml"]);
    let out = resolve_src("/d/playbooks/site.yml", &fs, "- hosts: all\n  roles:\n    - podman\n");
    assert_eq!(first(&out, ReferenceKind::Role).status, Status::Resolved);
}

#[test]
fn tasks_from_resolves_inside_its_own_role() {
    let fs = files(&["/d/roles/cib-batch/tasks/begin.yml"]);
    let out = resolve_src(
        "/d/playbooks/site.yml",
        &fs,
        "- include_role: { name: cib-batch, tasks_from: begin }\n",
    );
    let res = first(&out, ReferenceKind::TasksFrom);
    assert_eq!(res.status, Status::Resolved, "tried {:#?}", res.candidates);
    assert!(res.targets[0].ends_with("roles/cib-batch/tasks/begin.yml"));
}

#[test]
fn role_file_extension_order_flips_with_tasks_from() {
    let tasks = "/d/roles/r/tasks";
    let fs = files(&[
        "/d/roles/r/tasks/main.yml",
        "/d/roles/r/tasks/main.yaml",
        "/d/roles/r/tasks/setup",
        "/d/roles/r/tasks/setup.yml",
        "/d/roles/r/tasks/data.json",
        "/d/roles/bare/tasks/main",
    ]);
    let play = "/d/site.yml";

    let out = resolve_src(play, &fs, "- include_role:\n    name: r\n");
    let res = first(&out, ReferenceKind::Role);
    assert_eq!(res.targets, ["/d/roles/r/tasks/main.yml"]);
    assert_eq!(
        res.candidates,
        ["main.yml", "main.yaml", "main.json", "main"].map(|f| format!("{tasks}/{f}"))
    );

    let out = resolve_src(play, &fs, "- include_role: { name: r, tasks_from: setup }\n");
    let res = first(&out, ReferenceKind::TasksFrom);
    assert_eq!(res.targets, ["/d/roles/r/tasks/setup"]);
    assert_eq!(
        res.candidates,
        ["setup", "setup.yml", "setup.yaml", "setup.json"].map(|f| format!("{tasks}/{f}"))
    );

    let old = RoleExts { exts: &[".yml", ".yaml"] };
    let hit = |exts: RoleExts, stem: &str, bare_first: bool| {
        exts.candidates(tasks, stem, bare_first).into_iter().find(|p| fs.files.contains(p))
    };
    assert_eq!(hit(old, "data", true), None, "the old list must miss data.json");
    assert_eq!(hit(RoleExts::default(), "data", true), Some(format!("{tasks}/data.json")));
    for exts in [old, RoleExts::default()] {
        assert_eq!(hit(exts, "setup", true), Some(format!("{tasks}/setup")), "{exts:?}");
        assert_eq!(hit(exts, "setup", false), Some(format!("{tasks}/setup.yml")), "{exts:?}");
    }

    let out = resolve_src(play, &fs, "- include_role: { name: r, tasks_from: data }\n");
    assert_eq!(first(&out, ReferenceKind::TasksFrom).targets, ["/d/roles/r/tasks/data.json"]);
    let out = resolve_src(play, &fs, "- include_role:\n    name: bare\n");
    assert_eq!(first(&out, ReferenceKind::Role).targets, ["/d/roles/bare/tasks/main"]);
}

#[test]
fn in_repo_collection_module_resolves() {
    let fs = files(&[
        "/d/collections/ansible_collections/community/lvm/plugins/modules/pool_create.py",
    ]);
    let out =
        resolve_src("/d/playbooks/site.yml", &fs, "- community.lvm.pool_create:\n    name: p\n");
    let res = first(&out, ReferenceKind::Module);
    assert_eq!(res.status, Status::Resolved, "tried {:#?}", res.candidates);
    assert!(res.targets[0].ends_with("community/lvm/plugins/modules/pool_create.py"));
}

#[test]
fn builtin_modules_resolve_into_the_installed_ansible() {
    let fs = files(&["/usr/ansible/modules/systemd.py"]);
    let ctx = installed(context("/d/playbooks/site.yml"));
    let out = resolve_at(&ctx, &fs, "- ansible.builtin.systemd:\n    name: x\n");
    let res = first(&out, ReferenceKind::Module);
    assert_eq!(res.status, Status::Resolved, "tried {:#?}", res.candidates);
    assert!(res.targets[0].ends_with("ansible/modules/systemd.py"));
}

#[test]
fn installed_collection_modules_resolve() {
    let fs = files(&[
        "/usr/ansible_collections/community/postgresql/plugins/modules/postgresql_user.py",
    ]);
    let ctx = installed(context("/d/playbooks/site.yml"));
    let out = resolve_at(&ctx, &fs, "- community.postgresql.postgresql_user:\n    name: x\n");
    let res = first(&out, ReferenceKind::Module);
    assert_eq!(res.status, Status::Resolved, "tried {:#?}", res.candidates);
    assert!(res.targets[0].ends_with("postgresql/plugins/modules/postgresql_user.py"));
}

#[test]
fn uninstalled_collection_is_skipped_not_warned() {
    let out = resolve_src(
        "/d/playbooks/site.yml",
        &files(&[]),
        "- nosuch.collection.module:\n    name: x\n",
    );
    assert_eq!(first(&out, ReferenceKind::Module).status, Status::Skipped);
}

#[test]
fn matches_ansible_when_a_name_exists_in_two_search_paths() {
    let from = "/d/roles/amb/tasks/sub/inner.yml";
    let fs = files(&["/d/roles/amb/tasks/dup.yml", "/d/roles/amb/tasks/sub/dup.yml"]);
    let out = resolve_src(from, &fs, "- include_tasks: dup.yml\n");
    let res = &out[0].1;

    assert_eq!(res.status, Status::Resolved);
    assert!(
        res.targets[0].ends_with("amb/tasks/dup.yml"),
        "ansible picks the role tasks dir, got {:?}",
        res.targets[0]
    );
    assert!(fs.files.contains(&"/d/roles/amb/tasks/sub/dup.yml".to_string()));
}

#[test]
fn missing_file_reports_every_candidate_tried() {
    let out = resolve_src(
        "/d/roles/sync-state/tasks/http_access_point/reconcile.yml",
        &files(&[]),
        "- include_tasks: definitely_not_here.yml\n",
    );
    let res = first(&out, ReferenceKind::IncludeTasks);
    assert_eq!(res.status, Status::Missing);
    assert_eq!(
        res.candidates,
        [
            "/d/roles/sync-state/tasks/definitely_not_here.yml",
            "/d/roles/sync-state/tasks/http_access_point/definitely_not_here.yml",
        ]
    );
}

#[test]
fn a_home_relative_entry_is_expanded() {
    let home = Some("/home/me".to_string());
    assert_eq!(vars_files_candidates("~/x.yml", "/d", &home), ["/home/me/x.yml"]);
    assert_eq!(vars_files_candidates("x.yml", "/d", &home), ["/d/vars/x.yml", "/d/x.yml"]);
}

#[test]
fn a_directory_of_variables_says_what_was_loaded() {
    let ctx = context("/d/roles/db/tasks/main.yml");
    let loaded = resolve_dir(
        Outcome::Loaded { dir: Some("/x".to_string()), files: strings(&["/x/a.yml"]) },
        &ctx,
    );
    assert_eq!(loaded.status, Status::Resolved);
    assert_eq!(loaded.targets, ["/x/a.yml"]);
    assert_eq!(loaded.candidates, ["/x"]);
    let decayed = resolve_dir(Outcome::CwdFallback { relative: "prod".to_string() }, &ctx);
    assert_eq!(decayed.status, Status::Missing);
    assert_eq!(decayed.candidates, ["/d/roles/db/prod"]);
    let failed = resolve_dir(Outcome::Failed { root: None }, &ctx);
    assert_eq!(failed.status, Status::Missing);
    assert!(failed.candidates.is_empty());
}

#[test]
fn rules_are_named_by_what_failed() {
    let ids: Vec<&str> = extract(
        &Document::new(
            "- import_playbook: \"{{ a }}.yml\"\n- hosts: all\n  roles: [r]\n  tasks:\n    - include_tasks: a.yml\n"
                .to_string(),
        )
        .parse()
        .unwrap(),
    )
    .refs
    .iter()
    .map(rule_id)
    .collect();
    assert_eq!(ids, ["templated-import", "missing-file", "missing-file"]);
}

#[test]
fn two_spellings_of_a_candidate_are_one() {
    let mut ctx = context("/d/site.yml");
    ctx.home = None;
    let src = "- hosts: all\n  vars_files:\n    - - ~/a//b\n      - ~/a/b\n      - ~/a/c\n";
    let out = resolve_at(&ctx, &files(&[]), src);
    let group = &out.iter().find(|(r, _)| r.vars_files_group.is_some()).unwrap().1;
    assert_eq!(group.candidates, ["~/a//b", "~/a/c"]);
}
