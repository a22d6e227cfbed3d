//! Arguments of a task: directories of variables, actions, conditions and roles.

use ansible_core::ast::{
    clauses_of, find_action, find_import, is_looped, key_span, role_of, word_of,
};
use ansible_core::include_vars::{params_from_args, read_depth};
use ansible_core::parse::{Document, Node};

fn first(src: &str) -> Node {
    let mut nodes = Document::new(src.to_string()).parse().expect("valid yaml");
    match nodes.remove(0) {
        Node::Sequence { mut items, .. } => items.remove(0),
        other => other,
    }
}

fn args(src: &str) -> Node {
    match first(src) {
        Node::Mapping { mut entries, .. } => entries.remove(0).1,
        other => other,
    }
}

#[test]
fn a_directory_is_named_by_a_mapping() {
    let p = params_from_args(&args("include_vars:\n  dir: env\n  depth: 2\n  extensions: [yml, j2]\n"))
        .expect("a mapping");
    assert_eq!(p.dir.as_deref(), Some("env"));
    assert_eq!(p.depth, 2);
    assert_eq!(p.extensions, ["yml", "j2"]);
}

#[test]
fn a_directory_is_named_by_a_line() {
    let p = params_from_args(&args("include_vars: dir=env depth=1\n")).expect("a line");
    assert_eq!(p.dir.as_deref(), Some("env"));
    assert_eq!(p.depth, 1);
    assert_eq!(p.extensions, ["json", "yaml", "yml"]);
    let q = params_from_args(&args("include_vars: dir=env extensions=j2\n")).expect("a line");
    assert_eq!(q.extensions, ["j2"]);
}

#[test]
fn a_line_that_does_not_split_has_no_parameters() {
    assert!(params_from_args(&args("include_vars: dir=\"env\n")).is_none());
    assert!(params_from_args(&args("include_vars: [a]\n")).is_none());
}

#[test]
fn a_depth_that_is_no_number_is_without_a_limit() {
    assert_eq!(read_depth(Some("3")), 3);
    assert_eq!(read_depth(Some("x")), 0);
    assert_eq!(read_depth(Some("-1")), 0);
    assert_eq!(read_depth(None), 0);
}

#[test]
fn the_action_is_the_first_key_that_is_no_directive() {
    let task = first("- name: x\n  when: y\n  ansible.builtin.copy:\n    src: a\n  tags: [t]\n");
    let action = find_action(&task).expect("an action");
    assert_eq!(action.name, "ansible.builtin.copy");
    assert_eq!(word_of(action.args, "src"), Some("a"));
    assert!(find_action(&first("- name: x\n  when: y\n")).is_none());
}

#[test]
fn a_condition_is_one_clause_or_a_list() {
    let one = first("- when: a is defined\n");
    assert_eq!(clauses_of(one.get("when").expect("there")), ["a is defined"]);
    let two = first("- when:\n    - a\n    - b\n");
    assert_eq!(clauses_of(two.get("when").expect("there")), ["a", "b"]);
}

#[test]
fn keys_are_found_where_they_stand() {
    let src = "- name: x\n  when: y\n";
    let task = first(src);
    let span = key_span(&task, "when").expect("there");
    assert_eq!(span.slice(src), "when");
    assert!(key_span(&task, "loop").is_none());
    assert!(!is_looped(&task));
    assert!(is_looped(&first("- debug:\n  loop: [1]\n")));
    assert!(is_looped(&first("- debug:\n  with_items: [1]\n")));
}

#[test]
fn a_playbook_is_imported_by_any_of_its_spellings() {
    for key in ["import_playbook", "ansible.builtin.import_playbook"] {
        let node = first(&format!("- {key}: site.yml\n"));
        assert_eq!(find_import(&node).and_then(|v| v.as_str()), Some("site.yml"), "{key}");
    }
    assert!(find_import(&first("- hosts: all\n")).is_none());
}

#[test]
fn a_role_is_a_name_or_a_mapping() {
    assert_eq!(role_of(&first("- common\n")).and_then(|v| v.as_str()), Some("common"));
    assert_eq!(role_of(&first("- role: web\n  when: x\n")).and_then(|v| v.as_str()), Some("web"));
    assert_eq!(role_of(&first("- name: db\n")).and_then(|v| v.as_str()), Some("db"));
    assert!(role_of(&first("- tags: [a]\n")).is_none());
}
