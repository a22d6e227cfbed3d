//! Which variables a playbook changes while it runs.

use ansible_core::fs::{Fs, Listing, Outcome, Source};
use ansible_core::include_vars::Params;
use ansible_core::mutation::{collect_assignments, mutated_vars_in};
use ansible_core::parse::Document;
use ansible_core::resolve::{AnsibleInstall, FileContext};

fn context(dir: &str) -> FileContext {
    FileContext {
        file_dir: dir.to_string(),
        role_dir: None,
        project_root: Some("/p".to_string()),
        task_dirs: vec![dir.to_string()],
        roles_roots: vec!["/p/roles".to_string()],
        collection_roots: Vec::new(),
        module_dirs: Vec::new(),
        install: AnsibleInstall { package_dir: None, builtins: Vec::new(), redirects: Vec::new() },
        routes: Vec::new(),
        home: None,
    }
}

fn write(fs: &mut Listing, rel: &str, body: &str) -> String {
    let path = format!("/p/{rel}");
    let dir = path.rsplit_once('/').map(|(d, _)| d.to_string()).expect("absolute");
    fs.files.push(path.clone());
    if let Some(source) = Source::parse(body.to_string(), context(&dir)) {
        fs.sources.push((path.clone(), source));
    }
    path
}

fn mutated(fs: &Listing, playbook: &str) -> Vec<String> {
    mutated_vars_in(playbook, fs)
}

fn has(got: &[String], name: &str) -> bool {
    got.iter().any(|n| n == name)
}

#[test]
fn finds_set_fact_and_register_in_the_playbook_itself() {
    let mut d = Listing::default();
    let pb = write(
        &mut d,
        "play.yml",
        r#"
            - hosts: all
              tasks:
                - set_fact:
                    skip_it: true
                    cacheable: yes

                - command: echo hi
                  register: result
"#,
    );
    let got = mutated(&d, &pb);
    assert!(has(&got, "skip_it"));
    assert!(has(&got, "result"));
    assert!(!has(&got, "cacheable"));
}

#[test]
fn follows_roles_into_their_task_files() {
    let mut d = Listing::default();
    write(
        &mut d,
        "roles/storage/tasks/main.yml",
        r#"
            - name: mark done
              set_fact:
                skip_format: true
"#,
    );
    let pb = write(
        &mut d,
        "play.yml",
        r#"
            - hosts: all
              roles:
                - storage
"#,
    );
    assert!(has(&mutated(&d, &pb), "skip_format"));
}

#[test]
fn follows_include_tasks() {
    let mut d = Listing::default();
    write(
        &mut d,
        "sub.yml",
        r#"
            - set_fact:
                deep_var: 1
"#,
    );
    let pb = write(
        &mut d,
        "play.yml",
        r#"
            - hosts: all
              tasks:
                - include_tasks: sub.yml
"#,
    );
    assert!(has(&mutated(&d, &pb), "deep_var"));
}

#[test]
fn cycles_terminate() {
    let mut d = Listing::default();
    write(
        &mut d,
        "b.yml",
        r#"
            - include_tasks: a.yml
            - set_fact:
                from_b: 1
"#,
    );
    let pb = write(
        &mut d,
        "a.yml",
        r#"
            - hosts: all
              tasks:
                - include_tasks: b.yml
"#,
    );
    assert!(has(&mutated(&d, &pb), "from_b"));
}

#[test]
fn follows_a_real_upstream_include_chain() {
    let mut d = Listing::default();
    write(
        &mut d,
        "selinux.yml",
        r#"
            - name: Get current SELinux config
              ansible.builtin.slurp:
                src: /etc/sysconfig/selinux
              register: selinux_config_original_base64

            - name: Decode the config
              ansible.builtin.set_fact:
                selinux_config_original_raw: "{{ selinux_config_original_base64.content | b64decode }}"
                before_test_sestatus: "{{ ansible_selinux }}"
"#,
    );
    let pb = write(
        &mut d,
        "main.yml",
        r#"
            - hosts: all
              tasks:
                - name: Include_tasks for when SELinux is enabled
                  ansible.builtin.include_tasks: selinux.yml
                  when:
                    - ansible_selinux is defined
                    - ansible_selinux.status == 'enabled'
"#,
    );

    let got = mutated(&d, &pb);
    assert!(has(&got, "selinux_config_original_base64"), "register, found {got:?}");
    assert!(has(&got, "selinux_config_original_raw"), "set_fact, found {got:?}");
    assert!(has(&got, "before_test_sestatus"), "second set_fact key, found {got:?}");
    assert!(!has(&got, "src"));
    assert!(!has(&got, "content"));
}

#[test]
fn play_vars_are_not_mutations() {
    let mut d = Listing::default();
    let pb = write(
        &mut d,
        "play.yml",
        r#"
            - hosts: all
              vars:
                bound_early: true
              tasks:
                - command: echo
"#,
    );
    assert!(!has(&mutated(&d, &pb), "bound_early"));
}

#[test]
fn a_role_brings_every_task_file_that_it_has() {
    let mut d = Listing::default();
    write(&mut d, "roles/r/tasks/main.yml", "- debug:\n");
    write(&mut d, "roles/r/tasks/other.yaml", "- set_fact: {other: 1}\n");
    write(&mut d, "roles/r/tasks/sub/deep.yml", "- set_fact: {deep: 1}\n");
    write(&mut d, "roles/r/tasks/notes.txt", "- set_fact: {notes: 1}\n");
    let pb = write(&mut d, "play.yml", "- hosts: all\n  roles: [r]\n");
    let got = mutated(&d, &pb);
    assert!(has(&got, "other") && has(&got, "deep"), "{got:?}");
    assert!(!has(&got, "notes"), "{got:?}");
}

#[test]
fn blocks_handlers_and_imports_count_and_variables_files_do_not() {
    let mut d = Listing::default();
    write(&mut d, "vars.yml", "v: 1\n");
    write(&mut d, "next.yml", "- hosts: all\n  handlers:\n    - set_fact: {h: 1}\n");
    let pb = write(
        &mut d,
        "play.yml",
        "- import_playbook: next.yml\n- hosts: all\n  vars_files: [vars.yml]\n  tasks:\n    - block:\n        - set_fact: {b: 1}\n      rescue:\n        - command: x\n          register: r\n",
    );
    let mut got = mutated(&d, &pb);
    got.sort();
    assert_eq!(got, ["b", "h", "r"]);
}

#[test]
fn nothing_comes_of_a_file_that_is_not_there() {
    assert!(mutated(&Listing::default(), "/p/none.yml").is_empty());
}

#[test]
fn names_are_collected_once() {
    let nodes = Document::new("- set_fact: {a: 1}\n- set_fact: {a: 2}\n- command: x\n  register: a\n".to_string())
        .parse()
        .expect("valid yaml");
    let mut out = vec!["z".to_string()];
    collect_assignments(&nodes, &mut out);
    assert_eq!(out, ["z", "a"]);
}

/// Files of which one is a link to another, and each reads as its own.
struct Linked(Listing);

impl Fs for Linked {
    fn is_file(&self, p: &str) -> bool {
        self.0.is_file(p)
    }

    fn canonical(&self, p: &str) -> Option<String> {
        self.0.canonical(if p == "/p/link.yml" { "/p/file.yml" } else { p })
    }

    fn source(&self, p: &str) -> Option<&Source> {
        self.0.source(p)
    }

    fn yaml_files(&self, dir: &str) -> Vec<String> {
        self.0.yaml_files(dir)
    }

    fn is_dir(&self, p: &str) -> bool {
        self.0.is_dir(p)
    }

    fn files_in(&self, dir: &str) -> Vec<String> {
        self.0.files_in(dir)
    }

    fn glob(&self, bases: &Vec<String>, pattern: &str) -> Vec<String> {
        self.0.glob(bases, pattern)
    }

    fn load_dir(&self, params: &Params, role: &Option<String>, task_dir: &str) -> Outcome {
        self.0.load_dir(params, role, task_dir)
    }
}

#[test]
fn what_a_file_leads_to_is_walked_before_what_stood_behind_it() {
    let mut d = Listing::default();
    let pb = write(
        &mut d,
        "play.yml",
        "- hosts: all\n  tasks:\n    - include_tasks: one.yml\n    - include_tasks: file.yml\n",
    );
    write(&mut d, "one.yml", "- include_tasks: link.yml\n- set_fact: {one: 1}\n");
    write(&mut d, "link.yml", "- set_fact: {by_link: 1}\n");
    write(&mut d, "file.yml", "- set_fact: {by_file: 1}\n");
    let got = mutated_vars_in(&pb, &Linked(d));
    assert!(has(&got, "one") && has(&got, "by_link"));
    assert!(!has(&got, "by_file"), "the file was walked under its other name: {got:?}");
}
