//! Documents: spans, positions and suppressions.

use ansible_core::parse::{Document, Span};

#[test]
fn parse_spans_are_byte_accurate_past_non_ascii() {
    let src = "---\n\
               - name: \"title with — an em dash\"\n  \
               ansible.builtin.include_role: { name: cib-batch, tasks_from: begin }\n";
    let doc = Document::new(src.to_string());
    let nodes = doc.parse().expect("valid yaml");

    let task = &nodes[0].items()[0];
    let inc = task
        .get("ansible.builtin.include_role")
        .expect("include_role");
    let name = inc.get("name").expect("name");
    let from = inc.get("tasks_from").expect("tasks_from");

    assert_eq!(name.span().slice(src), "cib-batch");
    assert_eq!(from.span().slice(src), "begin");
}

#[test]
fn emoji_and_utf16_roundtrip() {
    let src = "- name: \"🚀 launch\"\n  include_tasks: go.yml\n";
    let doc = Document::new(src.to_string());
    let nodes = doc.parse().expect("valid yaml");
    let target = nodes[0].items()[0].get("include_tasks").unwrap();
    assert_eq!(target.span().slice(src), "go.yml");

    let (line, col) = doc.byte_to_lsp(target.span().start);
    assert_eq!(line, 1);
    assert_eq!(doc.lsp_to_byte(line, col), target.span().start);

    let quote = src.find("🚀").unwrap();
    let (l, c) = doc.byte_to_lsp(quote);
    assert_eq!((l, c), (0, 9));
    assert_eq!(doc.lsp_to_byte(l, c), quote);
}

#[test]
fn quoted_scalar_span_excludes_the_quotes() {
    let src = "- include_tasks: \"{{ proto }}/x.yml\"\n";
    let doc = Document::new(src.to_string());
    let nodes = doc.parse().unwrap();
    let v = nodes[0].items()[0].get("include_tasks").unwrap();
    assert_eq!(v.span().slice(src), "{{ proto }}/x.yml");
}

#[test]
fn bare_noqa_suppresses_on_the_line_and_the_line_above() {
    let src = "- include_tasks: a.yml\n\
               - include_tasks: b.yml  # noqa\n\
               # noqa\n\
               - include_tasks: c.yml\n";
    let doc = Document::new(src.to_string());
    let at = |needle: &str| src.find(needle).unwrap();
    assert!(!doc.is_suppressed(at("a.yml"), "missing-file"));
    assert!(doc.is_suppressed(at("b.yml"), "missing-file"));
    assert!(doc.is_suppressed(at("c.yml"), "missing-file"));
}

#[test]
fn another_tools_noqa_does_not_silence_ours() {
    let src = "- include_tasks: a.yml  # noqa: command-instead-of-module\n\
               - include_tasks: b.yml  # noqa: missing-file\n\
               - include_tasks: c.yml  # noqa: yaml[line-length] missing-file\n";
    let doc = Document::new(src.to_string());
    let at = |needle: &str| src.find(needle).unwrap();
    assert!(!doc.is_suppressed(at("a.yml"), "missing-file"));
    assert!(doc.is_suppressed(at("b.yml"), "missing-file"));
    assert!(doc.is_suppressed(at("c.yml"), "missing-file"));
    assert!(!doc.is_suppressed(at("c.yml"), "templated-import"));
}

#[test]
fn unparseable_yields_none_not_panic() {
    let doc = Document::new("- name: \"unterminated\n  bad: [".to_string());
    assert!(doc.parse().is_none());
}

#[test]
fn comments_are_not_references() {
    let src = "# - include_tasks: commented_out.yml\n- include_tasks: real.yml\n";
    let doc = Document::new(src.to_string());
    let nodes = doc.parse().unwrap();
    assert_eq!(nodes[0].items().len(), 1);
}

#[test]
fn a_span_outside_the_text_slices_to_nothing() {
    assert_eq!(Span { start: 2, end: 9 }.slice("abc"), "");
    assert_eq!(Span { start: 2, end: 1 }.slice("abc"), "");
    assert_eq!(Span { start: 1, end: 2 }.slice("é"), "");
    assert_eq!(Span { start: 1, end: 3 }.slice("abc"), "bc");
}

#[test]
fn a_repeated_key_has_its_last_value() {
    let doc = Document::new("- name: one\n  name: two\n".to_string());
    let nodes = doc.parse().expect("valid yaml");
    assert_eq!(nodes[0].items()[0].get("name").and_then(|n| n.as_str()), Some("two"));
    assert_eq!(nodes[0].items()[0].entries().len(), 2);
    assert!(nodes[0].items()[0].get("hosts").is_none());
}

#[test]
fn positions_and_bytes_convert_both_ways() {
    let doc = Document::new("a: é🚀b\r\nc: d".to_string());
    for byte in [0, 3, 5, 9, 10, 12, 15] {
        let (line, col) = doc.byte_to_lsp(byte);
        assert_eq!(doc.lsp_to_byte(line, col), byte);
    }
    assert_eq!(doc.byte_to_lsp(9), (0, 6));
    assert_eq!(doc.byte_to_lsp(12), (1, 0));
}

#[test]
fn a_position_past_the_end_is_clamped() {
    let doc = Document::new("ab\ncd".to_string());
    assert_eq!(doc.lsp_to_byte(7, 0), 5);
    assert_eq!(doc.lsp_to_byte(1, 99), 5);
    assert_eq!(doc.byte_to_lsp(99), (1, 0));
}
