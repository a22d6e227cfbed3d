//! The references that a file makes.

use ansible_core::parse::Document;
use ansible_core::references::{extract, meta_dependencies, Reference, ReferenceKind};

fn refs(src: &str) -> Vec<Reference> {
    let doc = Document::new(src.to_string());
    extract(&doc.parse().expect("valid yaml")).refs
}

fn of(src: &str, kind: ReferenceKind) -> Vec<Reference> {
    refs(src).into_iter().filter(|r| r.kind == kind).collect()
}

#[test]
fn only_the_static_forms_propagate_their_when() {
    let propagates = |src: &str| {
        let r = refs(src);
        let hit = r
            .iter()
            .find(|r| matches!(r.kind, ReferenceKind::Role | ReferenceKind::ImportTasks
                | ReferenceKind::IncludeTasks | ReferenceKind::ImportPlaybook))
            .unwrap_or_else(|| panic!("no reference in {src:?}"));
        (hit.when_propagates, hit.conditions.clone())
    };
    let w = "when: not (done | default(false))";
    for src in [
        format!("- import_playbook: p.yml\n  {w}\n"),
        format!("- hosts: all\n  tasks:\n    - import_tasks: t.yml\n      {w}\n"),
        format!("- hosts: all\n  tasks:\n    - import_role: {{name: r}}\n      {w}\n"),
        format!("- hosts: all\n  roles:\n    - role: r\n      {w}\n"),
    ] {
        let (p, c) = propagates(&src);
        assert!(p, "should propagate: {src}");
        assert_eq!(c.len(), 1, "condition must reach the reference: {src}");
    }
    for src in [
        format!("- hosts: all\n  tasks:\n    - include_tasks: t.yml\n      {w}\n"),
        format!("- hosts: all\n  tasks:\n    - include_role: {{name: r}}\n      {w}\n"),
    ] {
        let (p, c) = propagates(&src);
        assert!(!p, "must not propagate: {src}");
        assert_eq!(c.len(), 1, "the condition is still recorded, just not propagated");
    }
}

#[test]
fn apply_is_read_on_the_dynamic_includes_and_never_on_an_import() {
    let of_action = |action: &str, arg: &str| {
        let src = format!(
            "- hosts: all\n  tasks:\n    - {action}:\n        {arg}\n        apply:\n          \
             vars:\n            applied: 1\n          when: go\n"
        );
        let nodes = Document::new(src).parse().expect("fixture parses");
        let refs = extract(&nodes).refs;
        assert!(!refs.is_empty(), "{action} produced a reference at all");
        refs.iter()
            .map(|r| {
                (
                    r.apply_vars.iter().map(|(n, _)| n.clone()).collect::<Vec<_>>(),
                    r.apply_when.clone(),
                )
            })
            .collect::<Vec<_>>()
    };

    let applied = (vec!["applied".to_string()], vec!["go".to_string()]);
    let none: (Vec<String>, Vec<String>) = (Vec::new(), Vec::new());

    assert_eq!(of_action("include_tasks", "file: inc.yml"), vec![applied.clone()]);
    assert_eq!(of_action("include_role", "name: r"), vec![applied]);
    assert_eq!(of_action("import_tasks", "file: inc.yml"), vec![none.clone()]);
    assert_eq!(of_action("import_role", "name: r"), vec![none]);
}

#[test]
fn a_roles_entry_apply_binds_nothing() {
    let src = "- hosts: all\n  roles:\n    - role: re\n      apply:\n        vars:\n          applied: 1\n";
    let nodes = Document::new(src.to_string()).parse().expect("fixture parses");
    let refs = extract(&nodes).refs;
    let role: Vec<_> = refs.iter().filter(|r| r.kind == ReferenceKind::Role).collect();
    assert_eq!(role.len(), 1, "the entry still resolves as a role: {refs:#?}");
    assert!(role[0].apply_vars.is_empty(), "and carries no apply vars");
    assert!(role[0].apply_when.is_empty(), "nor an apply when");
}

#[test]
fn an_apply_when_propagates_while_the_includes_own_when_does_not() {
    let src = "- hosts: all\n  tasks:\n    - include_tasks:\n        file: t.yml\n        \
               apply: {when: not done}\n      when: run_it\n";
    let r = of(src, ReferenceKind::IncludeTasks);
    let r = &r[0];
    assert_eq!(r.conditions, ["run_it"]);
    assert!(!r.when_propagates);
    assert_eq!(r.apply_when, ["not done"]);
    let (conds, span) = r.propagated_condition().expect("apply when propagates");
    assert_eq!(conds, ["not done"]);
    assert_eq!(span.slice(src), "not done");

    let plain = of("- hosts: all\n  tasks:\n    - include_tasks: t.yml\n      when: x\n",
                   ReferenceKind::IncludeTasks);
    assert!(plain[0].propagated_condition().is_none());

    let imp = of("- hosts: all\n  tasks:\n    - import_tasks: t.yml\n      when: x\n",
                 ReferenceKind::ImportTasks);
    assert_eq!(imp[0].propagated_condition().unwrap().0, ["x"]);
}

#[test]
fn noqa_reaches_the_propagated_condition_of_every_spelling() {
    let suppressed = |src: &str| {
        let doc = Document::new(src.to_string());
        let nodes = doc.parse().expect("valid yaml");
        let r = extract(&nodes).refs;
        let hit = r
            .iter()
            .find_map(|r| r.propagated_condition())
            .unwrap_or_else(|| panic!("nothing propagates in {src:?}"));
        doc.is_suppressed(hit.1.start, "when-import-var-mutated")
    };
    let cases = [
        "- import_playbook: p.yml\n  when: not done{}\n",
        "- hosts: all\n  tasks:\n    - import_tasks: t.yml\n      when: not done{}\n",
        "- hosts: all\n  tasks:\n    - import_role: {name: r}\n      when: not done{}\n",
        "- hosts: all\n  roles:\n    - role: r\n      when: not done{}\n",
        "- hosts: all\n  tasks:\n    - include_tasks:\n        file: t.yml\n        \
         apply: {when: not done}{}\n",
    ];
    for c in cases {
        assert!(!suppressed(&c.replace("{}", "")), "unsuppressed: {c}");
        assert!(
            suppressed(&c.replace("{}", " # noqa: when-import-var-mutated")),
            "noqa did not reach it: {c}"
        );
    }
}

#[test]
fn vars_files_singles_and_bare_string_extract() {
    let src = "- name: web\n  hosts: all\n  vars_files:\n    - vars/a.yml\n    - b.yml\n";
    let r = of(src, ReferenceKind::VarsFiles);
    assert_eq!(r.len(), 2);
    assert_eq!(r[0].value, "vars/a.yml");
    assert_eq!(r[0].span.slice(src), "vars/a.yml");
    assert!(!r[0].grouped);
    assert!(r.iter().all(|r| r.vars_files_group.is_none()));
    assert_eq!(r[0].task_name.as_deref(), Some("web"));

    let bare = of("- hosts: all\n  vars_files: a.yml\n", ReferenceKind::VarsFiles);
    assert_eq!(bare.len(), 1);
    assert_eq!(bare[0].value, "a.yml");
}

#[test]
fn vars_files_group_emits_alternatives_then_anchor() {
    let src = "- hosts: all\n  vars_files:\n    - - a.yml\n      - b.yml\n";
    let r = of(src, ReferenceKind::VarsFiles);
    assert_eq!(r.len(), 3);
    assert!(r[0].grouped && r[1].grouped);
    assert!(r[0].vars_files_group.is_none());
    let g = &r[2];
    assert_eq!(g.vars_files_group.as_deref(), Some(&["a.yml".to_string(), "b.yml".to_string()][..]));
    assert_eq!(g.value, "a.yml, b.yml");
    assert!(g.span.start <= r[0].span.start && r[1].span.end <= g.span.end);

    let single = of("- hosts: all\n  vars_files: [[only.yml]]\n", ReferenceKind::VarsFiles);
    assert_eq!(single.len(), 1);
    assert!(!single[0].grouped);
}

#[test]
fn vars_files_templated_alternative_taints_the_group() {
    let src = "- hosts: all\n  vars_files:\n    - - \"{{ env }}.yml\"\n      - fallback.yml\n";
    let r = of(src, ReferenceKind::VarsFiles);
    let g = r.last().unwrap();
    assert!(g.vars_files_group.is_some());
    assert!(g.templated);
    assert!(!r[1].templated, "the literal alternative itself is not templated");
}

#[test]
fn inline_and_block_forms() {
    let r = of(
        "- include_tasks: a.yml\n- include_tasks:\n    file: b.yml\n",
        ReferenceKind::IncludeTasks,
    );
    assert_eq!(r.len(), 2);
    assert_eq!(r[0].value, "a.yml");
    assert_eq!(r[1].value, "b.yml");
}

#[test]
fn fqcn_normalises_to_the_same_kind() {
    let r = refs("- ansible.builtin.include_tasks: a.yml\n- import_tasks: b.yml\n");
    assert_eq!(r[0].kind, ReferenceKind::IncludeTasks);
    assert_eq!(r[1].kind, ReferenceKind::ImportTasks);
}

#[test]
fn include_vars_file_forms_are_references_dir_form_is_not() {
    let r = of(
        "- include_vars: a.yml\n- include_vars: { file: b.yml }\n- include_vars: { dir: vars }\n",
        ReferenceKind::IncludeVars,
    );
    assert_eq!(r.len(), 2);
    assert_eq!(r[0].value, "a.yml");
    assert_eq!(r[1].value, "b.yml");
}

#[test]
fn meta_dependencies_both_forms_empty_and_unrelated_keys() {
    let deps = |src: &str| {
        meta_dependencies(&Document::new(src.to_string()).parse().unwrap())
    };
    let r = deps(r#"
            dependencies:
              - docker-network
              - role: podman
                vars: { rootless: true }
              - name: legacy
"#);
    assert_eq!(r.len(), 3);
    assert_eq!(r[0].value, "docker-network");
    assert_eq!(r[1].value, "podman");
    assert_eq!(r[2].value, "legacy");
    assert!(r.iter().all(|x| x.kind == ReferenceKind::Role));
    assert!(deps("dependencies: []\n").is_empty());
    assert!(deps("galaxy_info:\n  author: x\n").is_empty());
}

#[test]
fn include_vars_dir_forms_get_their_own_kind() {
    let r = of(
        "- include_vars: { dir: vars/prod }\n- include_vars: dir=prod name=db\n",
        ReferenceKind::IncludeVarsDir,
    );
    assert_eq!(r.len(), 2);
    assert_eq!(r[0].value, "vars/prod");
    assert_eq!(r[1].value, "prod");
    assert!(r[0].include_vars.is_some());
}

#[test]
fn include_vars_dir_params_are_carried() {
    let r = of(
        "- include_vars:\n    dir: prod\n    extensions: [yml]\n    depth: 1\n",
        ReferenceKind::IncludeVarsDir,
    );
    let p = r[0].include_vars.as_ref().unwrap();
    assert_eq!(p.extensions, ["yml"]);
    assert_eq!(p.depth, 1);
}

#[test]
fn include_vars_free_form_kv_remainder_is_the_file() {
    let r = of("- include_vars: x.yml name=db\n", ReferenceKind::IncludeVars);
    assert_eq!(r.len(), 1);
    assert_eq!(r[0].value, "x.yml");
}

#[test]
fn include_vars_options_only_yields_no_reference() {
    assert!(refs("- include_vars: vars/we=ird.yml\n").is_empty());
}

#[test]
fn commented_out_includes_are_not_references() {
    let r = refs("# - include_tasks: ghost.yml\n- include_tasks: real.yml\n");
    assert_eq!(r.len(), 1);
    assert_eq!(r[0].value, "real.yml");
}

#[test]
fn templated_values_are_flagged_not_dropped() {
    let r = refs("- include_tasks: \"{{ ap_protocol }}/validate.yml\"\n");
    assert!(r[0].templated);
}

#[test]
fn span_points_at_the_value() {
    let src = "- include_tasks: _converge_one_ap.yml\n";
    assert_eq!(refs(src)[0].span.slice(src), "_converge_one_ap.yml");
}

#[test]
fn task_conditions_attach_to_the_reference() {
    let r = refs(
        "- name: maybe\n  include_tasks: a.yml\n  when: x is defined\n\
         - name: many\n  include_tasks: b.yml\n  loop: [1, 2]\n\
         - name: always\n  include_tasks: c.yml\n",
    );
    assert!(r[0].conditional && !r[0].repeated);
    assert!(r[1].repeated && !r[1].conditional);
    assert!(!r[2].conditional && !r[2].repeated);
    assert_eq!(r[0].task_name.as_deref(), Some("maybe"));
}

#[test]
fn with_items_counts_as_repeated() {
    let r = refs("- include_tasks: a.yml\n  with_items: [1]\n");
    assert!(r[0].repeated);
}

#[test]
fn import_playbook_is_extracted() {
    let r = of(
        "- name: infra\n  import_playbook: lustre-infrastructure.yml\n  when: x\n\
         - ansible.builtin.import_playbook: ../../network-setup.yml\n",
        ReferenceKind::ImportPlaybook,
    );
    assert_eq!(r.len(), 2);
    assert_eq!(r[0].value, "lustre-infrastructure.yml");
    assert_eq!(r[1].value, "../../network-setup.yml");
    assert!(r[0].conditional);
}

#[test]
fn roles_block_bare_and_dict_forms() {
    let r = of(
        "- hosts: all\n  roles:\n    - postgres_setup\n    - role: podman\n",
        ReferenceKind::Role,
    );
    assert_eq!(r.len(), 2);
    assert_eq!(r[0].value, "postgres_setup");
    assert_eq!(r[1].value, "podman");
}

#[test]
fn a_roles_entry_named_with_name_is_a_role_reference() {
    let r = of("- hosts: all\n  roles:\n    - name: podman\n", ReferenceKind::Role);
    assert_eq!(r.len(), 1);
    assert_eq!(r[0].value, "podman");
}

#[test]
fn tasks_from_binds_to_its_own_role_in_flow_form() {
    let r = of(
        "- include_role: { name: cib-batch, tasks_from: begin }\n",
        ReferenceKind::TasksFrom,
    );
    assert_eq!(r.len(), 1);
    assert_eq!(r[0].value, "begin");
    assert_eq!(r[0].role.as_deref(), Some("cib-batch"));
}

#[test]
fn tasks_from_binds_correctly_across_adjacent_tasks() {
    let r = of(
        "- include_role:\n    name: alpha\n    tasks_from: one\n\
         - include_role:\n    name: beta\n    tasks_from: two\n",
        ReferenceKind::TasksFrom,
    );
    assert_eq!(r[0].role.as_deref(), Some("alpha"));
    assert_eq!(r[1].role.as_deref(), Some("beta"));
}

#[test]
fn fqcn_and_bare_module_keys_are_references_but_urls_are_not() {
    let r = of(
        "- community.lvm.pool_create:\n    name: p\n- debug:\n    msg: example.atlassian.net\n",
        ReferenceKind::Module,
    );
    assert_eq!(r.len(), 2);
    assert_eq!(r[0].value, "community.lvm.pool_create");
    assert_eq!(r[1].value, "debug");
}

#[test]
fn only_core_spellings_are_actions() {
    let cases: &[(&str, &str, ReferenceKind)] = &[
        ("include_tasks", "x.yml", ReferenceKind::IncludeTasks),
        ("import_tasks", "x.yml", ReferenceKind::ImportTasks),
        ("import_playbook", "x.yml", ReferenceKind::ImportPlaybook),
        ("include_role", "{name: r}", ReferenceKind::Role),
        ("import_role", "{name: r}", ReferenceKind::Role),
        ("include_vars", "x.yml", ReferenceKind::IncludeVars),
    ];
    for (action, args, kind) in cases {
        for prefix in ["", "ansible.builtin.", "ansible.legacy."] {
            let src = format!("- {prefix}{action}: {args}\n");
            assert_eq!(of(&src, *kind).len(), 1, "not an action: {src}");
        }
        let fqcn = format!("community.general.{action}");
        let src = format!("- {fqcn}: {args}\n");
        assert!(of(&src, *kind).is_empty(), "treated as an action: {src}");
        let m = of(&src, ReferenceKind::Module);
        assert_eq!(m.len(), 1, "not a module: {src}");
        assert_eq!(m[0].value, fqcn);
    }
}

#[test]
fn a_playbook_is_told_from_a_task_file() {
    let playbook = |src: &str| extract(&Document::new(src.to_string()).parse().expect("valid yaml")).in_playbook;
    assert!(playbook("- hosts: all\n  tasks: []\n"));
    assert!(playbook("- import_playbook: a.yml\n"));
    assert!(!playbook("- include_tasks: a.yml\n"));
    assert!(!playbook("a: b\n"));
}

#[test]
fn blocks_and_handlers_are_searched() {
    let src = "- hosts: all\n  tasks:\n    - block:\n        - include_tasks: a.yml\n      rescue:\n        - include_tasks: b.yml\n      always:\n        - include_tasks: c.yml\n  handlers:\n    - include_tasks: d.yml\n";
    let values: Vec<String> = of(src, ReferenceKind::IncludeTasks).into_iter().map(|r| r.value).collect();
    assert_eq!(values, ["a.yml", "b.yml", "c.yml", "d.yml"]);
}

#[test]
fn every_kind_has_a_name() {
    assert_eq!(ReferenceKind::IncludeTasks.name(), "include_tasks");
    assert_eq!(ReferenceKind::ImportPlaybook.name(), "import_playbook");
    assert_eq!(ReferenceKind::TasksFrom.name(), "tasks_from");
}

#[test]
fn a_template_src_carries_its_delimiters() {
    let r = of(
        "- template:\n    src: a.j2\n    dest: /x\n    variable_start_string: \"[[\"\n",
        ReferenceKind::TemplateSrc,
    );
    assert_eq!(r.len(), 1);
    assert_eq!(r[0].value, "a.j2");
}
