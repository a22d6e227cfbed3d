//! Which references reach a file.

use ansible_core::fs::Listing;
use ansible_core::parse::{Document, Span};
use ansible_core::references::{extract, Reference, ReferenceKind};
use ansible_core::resolve::{resolve_in, AnsibleInstall, FileContext, Resolution};
use ansible_core::reverse::{edges_of, Edge, ReverseIndex, SourceEdges};

struct Project {
    fs: Listing,
    texts: Vec<(String, String)>,
}

fn project(files: &[(&str, &str)]) -> Project {
    let mut fs = Listing::default();
    let mut texts = Vec::new();
    for (path, text) in files {
        fs.files.push(format!("/p/{path}"));
        texts.push((path.to_string(), text.to_string()));
    }
    Project { fs, texts }
}

fn context() -> FileContext {
    FileContext {
        file_dir: "/p".to_string(),
        role_dir: None,
        project_root: Some("/p".to_string()),
        task_dirs: vec!["/p".to_string()],
        roles_roots: vec!["/p/roles".to_string()],
        collection_roots: Vec::new(),
        module_dirs: Vec::new(),
        install: AnsibleInstall { package_dir: None, builtins: Vec::new(), redirects: Vec::new() },
        routes: Vec::new(),
        home: None,
    }
}

/// The edges of one file.
fn edges(p: &Project, rel: &str) -> SourceEdges {
    let (_, text) = p.texts.iter().find(|(path, _)| path == rel).expect("in the project");
    let doc = Document::new(text.clone());
    let ctx = context();
    let refs: Vec<(Reference, Resolution)> = extract(&doc.parse().expect("parses"))
        .refs
        .into_iter()
        .map(|r| {
            let res = resolve_in(&r, &ctx, &p.fs);
            (r, res)
        })
        .collect();
    edges_of(&p.fs, &format!("/p/{rel}"), &refs, &doc)
}

fn lines_into(idx: &ReverseIndex, p: &Project, rel: &str) -> Vec<(String, u32, ReferenceKind, bool)> {
    idx.inbound(&p.fs, &format!("/p/{rel}"))
        .iter()
        .map(|e| {
            let rel = e.source.strip_prefix("/p/").unwrap_or(&e.source);
            (rel.to_string(), e.line, e.kind, e.templated)
        })
        .collect()
}

#[test]
fn a_literal_include_is_one_edge_at_its_line() {
    let p = project(&[
        ("tasks/shared.yml", "- debug: {msg: hi}\n"),
        ("play.yml", "- hosts: all\n  tasks:\n    - import_tasks: tasks/shared.yml\n    - include_tasks: tasks/shared.yml\n"),
    ]);
    let mut idx = ReverseIndex::default();
    idx.replace(edges(&p, "play.yml"));
    assert_eq!(
        lines_into(&idx, &p, "tasks/shared.yml"),
        vec![
            ("play.yml".into(), 2, ReferenceKind::ImportTasks, false),
            ("play.yml".into(), 3, ReferenceKind::IncludeTasks, false),
        ],
        "two lines, two edges — a file pair is not the unit"
    );
    assert!(idx.inbound(&p.fs, "/p/play.yml").is_empty());
}

#[test]
fn a_templated_include_contributes_an_edge_per_candidate() {
    let mut p = project(&[
        ("tasks/validate-expose.yml", "- debug: {msg: a}\n"),
        ("tasks/validate-attach.yml", "- debug: {msg: b}\n"),
        ("tasks/other.yml", "- debug: {msg: c}\n"),
        ("play.yml", "- hosts: all\n  tasks:\n    - include_tasks: \"tasks/validate-{{ op }}.yml\"\n"),
    ]);
    p.fs.globs.push((
        "tasks/validate-{{ op }}.yml".to_string(),
        vec!["/p/tasks/validate-attach.yml".to_string(), "/p/tasks/validate-expose.yml".to_string()],
    ));
    let mut idx = ReverseIndex::default();
    idx.replace(edges(&p, "play.yml"));
    assert_eq!(
        lines_into(&idx, &p, "tasks/validate-expose.yml"),
        vec![("play.yml".into(), 2, ReferenceKind::IncludeTasks, true)]
    );
    assert_eq!(
        lines_into(&idx, &p, "tasks/validate-attach.yml"),
        vec![("play.yml".into(), 2, ReferenceKind::IncludeTasks, true)]
    );
    assert!(idx.inbound(&p.fs, "/p/tasks/other.yml").is_empty());
    assert_eq!(idx.len(), 2);
}

#[test]
fn replacing_a_source_drops_its_old_edges_and_only_those() {
    let mut p = project(&[
        ("tasks/a.yml", "- debug: {msg: a}\n"),
        ("tasks/b.yml", "- debug: {msg: b}\n"),
        ("one.yml", "- hosts: all\n  tasks:\n    - import_tasks: tasks/a.yml\n"),
        ("two.yml", "- hosts: all\n  tasks:\n    - import_tasks: tasks/a.yml\n"),
    ]);
    let mut idx = ReverseIndex::default();
    idx.replace(edges(&p, "one.yml"));
    idx.replace(edges(&p, "two.yml"));
    assert_eq!(idx.inbound(&p.fs, "/p/tasks/a.yml").len(), 2);

    p.texts[2].1 = "- hosts: all\n  tasks:\n    - import_tasks: tasks/b.yml\n".to_string();
    idx.replace(edges(&p, "one.yml"));
    assert_eq!(lines_into(&idx, &p, "tasks/a.yml"), vec![("two.yml".into(), 2, ReferenceKind::ImportTasks, false)]);
    assert_eq!(lines_into(&idx, &p, "tasks/b.yml"), vec![("one.yml".into(), 2, ReferenceKind::ImportTasks, false)]);

    idx.replace(SourceEdges { source: "/p/one.yml".to_string(), edges: Vec::new() });
    assert!(idx.inbound(&p.fs, "/p/tasks/b.yml").is_empty());
    assert_eq!(idx.sources().len(), 1);

    idx.retain_sources(|_| false);
    assert!(idx.is_empty());
}

#[test]
fn keys_collapse_spellings_of_one_path() {
    let p = project(&[
        ("tasks/a.yml", "- debug: {msg: a}\n"),
        ("play.yml", "- hosts: all\n  tasks:\n    - import_tasks: tasks/a.yml\n    - import_tasks: ./tasks/../tasks/a.yml\n"),
    ]);
    let mut idx = ReverseIndex::default();
    idx.replace(edges(&p, "play.yml"));
    assert_eq!(idx.inbound(&p.fs, "/p/tasks/a.yml").len(), 2, "{:?}", idx.targets());
    assert_eq!(idx.targets().len(), 1);
}

#[test]
fn targets_and_their_edges_come_in_path_order() {
    let p = project(&[
        ("b.yml", "- debug:\n"),
        ("a-b.yml", "- debug:\n"),
        ("a/b.yml", "- debug:\n"),
        ("z.yml", "- hosts: all\n  tasks:\n    - include_tasks: b.yml\n    - include_tasks: a-b.yml\n    - include_tasks: a/b.yml\n"),
        ("y.yml", "- hosts: all\n  tasks:\n    - include_tasks: b.yml\n"),
    ]);
    let mut idx = ReverseIndex::default();
    idx.replace(edges(&p, "z.yml"));
    idx.replace(edges(&p, "y.yml"));
    let names: Vec<&str> = idx.targets().iter().map(|(t, _)| *t).collect();
    assert_eq!(names, ["/p/a/b.yml", "/p/a-b.yml", "/p/b.yml"]);
    let sources: Vec<String> = lines_into(&idx, &p, "b.yml").into_iter().map(|e| e.0).collect();
    assert_eq!(sources, ["y.yml", "z.yml"]);
    assert_eq!(idx.len(), 4);
}

#[test]
fn sources_are_removed_and_kept_by_name() {
    let p = project(&[
        ("a.yml", "- debug:\n"),
        ("x.yml", "- hosts: all\n  tasks:\n    - include_tasks: a.yml\n"),
        ("y.yml", "- hosts: all\n  tasks:\n    - include_tasks: a.yml\n"),
        ("z.yml", "- hosts: all\n  tasks:\n    - include_tasks: a.yml\n"),
    ]);
    let mut idx = ReverseIndex::default();
    for rel in ["x.yml", "y.yml", "z.yml"] {
        idx.replace(edges(&p, rel));
    }
    idx.remove(&p.fs, "/p/./y.yml");
    assert_eq!(idx.len(), 2);
    idx.retain_sources(|s| s.ends_with("z.yml"));
    assert_eq!(idx.sources(), ["/p/z.yml"]);
    assert_eq!(lines_into(&idx, &p, "a.yml").len(), 1);
}

#[test]
fn a_first_match_list_is_counted_by_its_winner_only() {
    let p = project(&[
        ("vars/b.yml", "x: 1\n"),
        ("play.yml", "- hosts: all\n  vars_files:\n    - - vars/a.yml\n      - vars/b.yml\n  tasks: []\n"),
    ]);
    let mut idx = ReverseIndex::default();
    idx.replace(edges(&p, "play.yml"));
    assert_eq!(lines_into(&idx, &p, "vars/b.yml").len(), 1);
}

/// The edges of one file into files that need not be there.
fn made(source: &str, targets: &[&str]) -> SourceEdges {
    let edges = targets
        .iter()
        .enumerate()
        .map(|(i, t)| {
            let edge = Edge {
                source: source.to_string(),
                span: Span { start: i, end: i + 1 },
                line: i as u32,
                kind: ReferenceKind::IncludeTasks,
                templated: false,
            };
            (t.to_string(), edge)
        })
        .collect();
    SourceEdges { source: source.to_string(), edges }
}

#[test]
fn spellings_of_a_file_that_is_not_there_are_one_key() {
    let fs = Listing::default();
    let mut idx = ReverseIndex::default();
    idx.replace(made("/p/x.yml", &["/q//a.yml", "/q/./a.yml", "/q/b.yml"]));
    let names: Vec<&str> = idx.targets().iter().map(|(t, _)| *t).collect();
    assert_eq!(names, ["/q//a.yml", "/q/b.yml"], "the first spelling stays");
    assert_eq!(idx.inbound(&fs, "/q/a.yml").len(), 2);
    idx.replace(made("/p//x.yml", &["/q/a.yml"]));
    assert_eq!(idx.len(), 1);
    assert_eq!(idx.sources(), ["/p//x.yml"]);
    idx.remove(&fs, "/p/x.yml");
    assert!(idx.is_empty());
}

#[test]
fn removing_a_new_file_undoes_its_replacement() {
    let fs = Listing::default();
    let mut idx = ReverseIndex::default();
    idx.replace(made("/p/x.yml", &["/q/a.yml", "/q/b.yml"]));
    let before = format!("{idx:?}");
    idx.replace(made("/p/a.yml", &["/q/b.yml", "/q/c.yml", "/q/b.yml"]));
    assert_eq!(idx.len(), 5);
    let own = |t: &str| idx.inbound(&fs, t).iter().filter(|e| e.source == "/p/a.yml").count();
    assert_eq!((own("/q/a.yml"), own("/q/b.yml"), own("/q/c.yml")), (0, 2, 1));
    let sum: usize = idx.targets().iter().map(|(_, edges)| edges.len()).sum();
    assert_eq!(sum, idx.len());
    idx.remove(&fs, "/p/a.yml");
    assert_eq!(format!("{idx:?}"), before);
}
