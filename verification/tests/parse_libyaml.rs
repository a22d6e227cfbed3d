//! The tree, the duplicate keys and the errors of YAML texts.

use ansible_core::parse::{Document, Node};
use ansible_core::parse_libyaml::{
    documents, duplicate_keys, parse_lenient, parse_lenient_error, repeated_keys, underline,
    YamlData, YamlEvent,
};
use ansible_core::yaml_input::{find_clashes, lay_out, meets_comma};

fn texts(node: &Node) -> Vec<&str> {
    node.items().iter().filter_map(|n| n.as_str()).collect()
}

#[test]
fn a_plain_empty_scalar_is_null_not_an_empty_string() {
    let when = |src: &str| {
        let doc = Document::new(src.to_string());
        let nodes = doc.parse().expect("valid yaml");
        nodes[0].items()[0].get("when").expect("a when: key").clone()
    };
    assert!(matches!(when("- when:\n  debug: x\n"), Node::Null { .. }));
    assert!(matches!(when("- when: ~\n  debug: x\n"), Node::Scalar { .. }), "`~` is written");

    let empty = when("- when: \"\"\n  debug: x\n");
    assert!(matches!(empty, Node::Scalar { .. }), "an explicit empty string is a value");
    assert_eq!(empty.as_str(), Some(""));
    assert_eq!(when("- when: '  '\n  debug: x\n").as_str(), Some("  "));

    let src = "- when:\n  debug: x\n";
    let Node::Null { span } = when(src) else { unreachable!() };
    assert_eq!(span.start, span.end);
    assert_eq!(&src[..span.start], "- when:", "positioned after its key");
}

#[test]
fn finds_duplicates_at_every_level() {
    let src = "- hosts: webservers\n  hosts: localhost\n  vars:\n    p: 80\n    p: 8080\n  \
               tasks:\n    - when: false\n      when: true\n";
    let d = duplicate_keys(src);
    let names: Vec<&str> = d.iter().map(|d| d.key.as_str()).collect();
    assert_eq!(names, ["hosts", "p", "when"]);
    assert_eq!(d[1].span.slice(src), "p");
    assert_eq!(&src[d[1].span.start..d[1].span.start + 7], "p: 8080");
    assert_eq!(&src[d[1].first.start..d[1].first.start + 5], "p: 80");
}

#[test]
fn the_same_key_in_sibling_mappings_is_not_a_duplicate() {
    let src = "- name: one\n  debug: a\n- name: two\n  debug: b\n";
    assert_eq!(duplicate_keys(src), []);
    let src = "- name: outer\n  include_role:\n    name: inner\n";
    assert_eq!(duplicate_keys(src), []);
}

#[test]
fn a_key_written_three_times_reports_twice() {
    let src = "a: 1\na: 2\na: 3\n";
    let d = duplicate_keys(src);
    assert_eq!(d.len(), 2);
    assert!(d.iter().all(|d| d.first.start == 0), "both point back at the first");
    assert!(d[0].span.start < d[1].span.start);
}

#[test]
fn flow_and_json_mappings_are_scanned_too() {
    assert_eq!(duplicate_keys("{a: 1, a: 2}\n").len(), 1);
    assert_eq!(duplicate_keys("[{\"p\": 80, \"p\": 8080}]\n").len(), 1);
}

#[test]
fn unparseable_input_yields_nothing_rather_than_panicking() {
    assert_eq!(duplicate_keys("- name: Block form with a file: parameter\n"), []);
}

#[test]
fn a_block_scalar_at_end_of_input_parses_instead_of_aborting() {
    let cmd = |src: &str| {
        let nodes = parse_lenient(src)
            .unwrap_or_else(|| panic!("must parse, not abort: {src:?}"));
        nodes[0].get("cmd").and_then(|v| v.as_str()).map(str::to_owned)
    };
    assert_eq!(cmd("cmd: >\n  mv a b\n  creates=c\n").as_deref(), Some("mv a b creates=c\n"));
    assert_eq!(cmd("cmd: >\n  mv a b\n  creates=c").as_deref(), Some("mv a b creates=c"));
    assert_eq!(cmd("cmd: |\n  mv a b\n  creates=c\n").as_deref(), Some("mv a b\ncreates=c\n"));
    assert_eq!(cmd("cmd: |\n  mv a b\n  creates=c").as_deref(), Some("mv a b\ncreates=c"));
}

#[test]
fn accepts_the_underindented_scalar_class() {
    let src = "vars:\n  s: \"{{\n  (a | default(['{}']))\n  }}\"\n";
    let docs = parse_lenient(src).expect("libyaml should accept");
    let s = docs[0].get("vars").unwrap().get("s").unwrap();
    assert!(s.as_str().unwrap().contains("default"));
    assert!(parse_lenient_error(src).is_none(), "valid-to-Ansible → no error");
}

#[test]
fn reports_error_only_when_broken_for_ansible_too() {
    let src = "---\n- name: Block form with a file: parameter\n";
    assert!(parse_lenient(src).is_none());
    let span = parse_lenient_error(src).expect("genuinely broken → a position");
    assert!(span.end > span.start);
}

#[test]
fn parse_libyaml_spans_are_byte_accurate_past_non_ascii() {
    let src = "---\n\
               - name: \"title with — an em dash\"\n  \
               ansible.builtin.include_role: { name: cib-batch, tasks_from: begin }\n";
    let docs = parse_lenient(src).expect("valid yaml");
    let task = &docs[0].items()[0];
    let inc = task.get("ansible.builtin.include_role").expect("include_role");
    let name = inc.get("name").expect("name");
    let from = inc.get("tasks_from").expect("tasks_from");
    assert_eq!(name.span().slice(src), "cib-batch");
    assert_eq!(from.span().slice(src), "begin");
}

#[test]
fn emoji_span_slices_exactly() {
    let src = "- name: \"🚀 launch\"\n  include_tasks: go.yml\n";
    let docs = parse_lenient(src).expect("valid yaml");
    let target = docs[0].items()[0].get("include_tasks").unwrap();
    assert_eq!(target.span().slice(src), "go.yml");
}

#[test]
fn a_file_that_does_not_parse_always_reports_where() {
    let cases = [
        "",
        "---\n",
        "- hosts: all\n",
        "{a: 1}\n",
        "---\n- one\n---\n- two\n",
        "- name: Block form with a file: parameter\n",
        "- a: [1, 2\n",
        "- a: \"unclosed\n",
        "key: value\n\tkey2: tab\n",
        "- *never_anchored\n",
        "%YAML 1.9\n---\n- x\n",
        "a: 1\n a: 2\n",
        "- !!binary not base64 !\n",
    ];
    for c in cases {
        assert_eq!(
            parse_lenient(c).is_none(),
            parse_lenient_error(c).is_some(),
            "the two disagree on {c:?}"
        );
    }
    assert!(
        cases.iter().filter(|c| parse_lenient(c).is_none()).count() >= 4,
        "these cases must include real failures, or the invariant is untested"
    );
}

#[test]
fn a_last_line_that_is_not_ended_adds_nothing_to_a_scalar() {
    let last = |src: &str| {
        let nodes = parse_lenient(src).expect("parses");
        nodes[0].get("cmd").and_then(|v| v.as_str()).map(str::to_owned)
    };
    assert_eq!(last("cmd: |+\n  a\n  b").as_deref(), Some("a\nb"));
    assert_eq!(last("cmd: |-\n  a\n  b").as_deref(), Some("a\nb"));
    assert_eq!(last("cmd: |\n  a\n ").as_deref(), Some("a\n"));
    assert_eq!(last("cmd: a").as_deref(), Some("a"));
    assert_eq!(last("cmd: 'a'").as_deref(), Some("a"));
    assert!(parse_lenient("cmd: \"a\\").is_none());
}

#[test]
fn spans_end_with_the_text_though_its_last_line_is_not_ended() {
    for src in ["a: b", "- a\n- b", "k: |\n  x", "k:\n  - {a: b}"] {
        let nodes = parse_lenient(src).expect("parses");
        assert_eq!(nodes[0].span().end, src.len(), "{src:?}");
    }
    let span = parse_lenient_error("- a: \"unclosed").expect("broken");
    assert!(span.end <= 14);
}

#[test]
fn a_comma_behind_a_tag_is_read() {
    let src = "- [!a, b]\n- 'w !x, y'\n- k: w!z,\n";
    let all = find_clashes(src);
    let places: Vec<usize> = (0..all.len()).filter(|&k| all[k]).collect();
    assert_eq!(places, [3, 15]);
    assert_eq!(lay_out(src, all.len(), &all, 'x').text, "- [xa, b]\n- 'w xx, y'\n- k: w!z,\n");
    let none = vec![false; all.len()];
    let laid = lay_out(src, all.len(), &none, 'x');
    assert_eq!(laid.text, "- [!a , b]\n- 'w !x , y'\n- k: w!z,\n");
    assert_eq!(laid.gaps, [5, 18]);

    let src = "- [!a, b]\n- 'w !x, y'\n- last\n";
    let nodes = parse_lenient(src).expect("parses");
    let items = nodes[0].items();
    assert_eq!(items[0].items().len(), 2);
    assert_eq!(items[0].items()[1].span().slice(src), "b");
    assert_eq!(items[1].as_str(), Some("w !x, y"));
    assert_eq!(items[1].span().slice(src), "w !x, y");
    assert_eq!(items[2].span().slice(src), "last");
}

#[test]
fn an_ordinary_text_is_handed_on_unchanged() {
    for src in ["", "a: b\n", "- !tag x\n- 'a, b!'\n", "- !z,\n- k: w !,\n", "[a!,b]\n", "[x!:,y]\n"] {
        assert!(!meets_comma(src), "{src:?}");
        assert!(!find_clashes(src).contains(&true), "{src:?}");
    }
    assert!(meets_comma("[!a,b]\n") && meets_comma("[a]\n- !b,\n") && meets_comma("[!<a>,b]\n"));
}

#[test]
fn a_bang_in_a_scalar_is_no_tag() {
    let read = |src: &str| {
        let nodes = parse_lenient(src).unwrap_or_else(|| panic!("must parse: {src:?}"));
        nodes[0].get("b").and_then(|v| v.as_str()).map(str::to_owned)
    };
    for value in ["x!:,y", "x !:,y", "x !a,y", "x !a:!b,c", "x !<a>,b", "x ! ,b"] {
        let src = format!("a: [1]\nb: {value}\n");
        assert_eq!(read(&src).as_deref(), Some(value), "{src:?}");
        let quoted = format!("a: [1]\nb: '{value}'\n");
        assert_eq!(read(&quoted).as_deref(), Some(value), "{quoted:?}");
    }
    assert_eq!(read("a: {}\nb: |\n  x\n  !y,z\n").as_deref(), Some("x\n!y,z\n"));
    assert_eq!(read("a: [] # !x,\nb: \"!y,\\\n  !z,\"\n").as_deref(), Some("!y,!z,"));
    assert_eq!(read("a: ['x !a':!b,c]\nb: d\n"), Some("d".to_string()));
    for src in ["[x!:,y]\n", "[x !:,y]\n"] {
        assert!(parse_lenient(src).is_none(), "{src:?}");
    }
}

#[test]
fn a_tag_before_a_comma_outside_of_a_flow_collection_is_refused_there() {
    for src in ["a: [1]\nb: !z,\n", "a: [1]\nb: !z,\nc: [1\n", "a: [1]\nb: !z,y\n", "a: [1]\nb: !z,"] {
        let span = parse_lenient_error(src).expect("broken");
        assert_eq!(span.start, 12, "{src:?}");
    }
    let span = parse_lenient_error("a: 1\nb: !z,\n").expect("broken");
    assert_eq!(span.start, 10);
}

#[test]
fn a_byte_order_mark_is_not_counted() {
    let value = |src: &str| {
        let nodes = parse_lenient(src).expect("parses");
        nodes[0].get("a").and_then(|v| v.as_str()).map(str::to_owned)
    };
    assert_eq!(value("\u{feff}a: |+\n  x\n  ").as_deref(), Some("x\n"));
    assert_eq!(value("\u{feff}a: |\n  x").as_deref(), Some("x"));
    assert_eq!(value("\u{feff}a: b").as_deref(), Some("b"));
    let nodes = parse_lenient("\u{feff}a: |").expect("parses");
    let span = nodes[0].get("a").expect("a value").span();
    assert_eq!((span.start, span.end), (3, 4));
    assert_eq!(nodes[0].span().end, 4);
    let src = "\u{feff}[!a, bc, '!d, e']\n";
    let nodes = parse_lenient(src).expect("parses");
    let span = nodes[0].items()[1].span();
    assert_eq!(&src[span.start + 3..span.end + 3], "bc");
    assert_eq!(nodes[0].items()[2].as_str(), Some("!d, e"));
}

#[test]
fn a_tree_is_built_from_events() {
    let ev = |data, start, end| YamlEvent { data, start, end };
    let text = "a: 'b'\na: c\n";
    let events = [
        ev(YamlData::DocumentStart, 0, 0),
        ev(YamlData::MappingStart, 0, 0),
        ev(YamlData::Scalar("a".to_string()), 0, 1),
        ev(YamlData::Scalar("b".to_string()), 3, 6),
        ev(YamlData::Scalar("a".to_string()), 7, 8),
        ev(YamlData::Scalar("c".to_string()), 10, 11),
        ev(YamlData::MappingEnd, 12, 12),
        ev(YamlData::Other, 12, 12),
    ];
    let docs = documents(&events, text);
    assert_eq!(docs.len(), 1);
    assert_eq!(docs[0].entries().len(), 2);
    assert_eq!(docs[0].entries()[0].1.span().slice(text), "b");
    assert_eq!(docs[0].get("a").and_then(|v| v.as_str()), Some("c"));
    let dupes = repeated_keys(&events, text);
    assert_eq!(dupes.len(), 1);
    assert_eq!((dupes[0].first.start, dupes[0].span.start), (0, 7));
}

#[test]
fn an_error_underlines_to_the_end_of_its_line() {
    assert_eq!(underline("ab\ncd\n", Some(1)).slice("ab\ncd\n"), "b");
    assert_eq!(underline("ab\ncd\n", Some(2)).slice("ab\ncd\n"), "\n");
    assert_eq!(underline("ab", None).slice("ab"), "ab");
    assert_eq!((underline("ab", Some(9)).start, underline("ab", Some(9)).end), (1, 2));
    assert_eq!(underline("a\u{e9}", Some(3)).slice("a\u{e9}"), "\u{e9}");
    assert_eq!(underline("ab\n", Some(3)).slice("ab\n"), "\n");
    assert_eq!((underline("", None).start, underline("", None).end), (0, 0));
}

#[test]
fn an_error_at_the_end_of_a_text_underlines_something() {
    for src in ["- a: [1, 2\n", "- a: [1, 2", "a: {b: c\n\n", "- \"\u{e9}", "[\u{e9}", "'"] {
        let span = parse_lenient_error(src).expect("broken");
        assert!(span.start < span.end && span.end <= src.len(), "{src:?}: {span:?}");
        assert!(src.is_char_boundary(span.start) && src.is_char_boundary(span.end), "{src:?}");
    }
}

#[test]
fn a_last_line_of_spaces_is_read() {
    let value = |src: &str| {
        let nodes = parse_lenient(src).expect("parses");
        nodes[0].get("a").and_then(|v| v.as_str()).map(str::to_owned)
    };
    assert_eq!(value("a: |\n  x\n    ").as_deref(), Some("x\n  "));
    assert_eq!(value("a: |-\n  x\n    ").as_deref(), Some("x\n  "));
    assert_eq!(value("a: |+\n  x\n    ").as_deref(), Some("x\n  "));
    for head in ["|", "|+", ">", ">+"] {
        for blanks in [" ", "  "] {
            let src = format!("a: {head}\n  x\n{blanks}");
            assert_eq!(value(&src).as_deref(), Some("x\n"), "{src:?}");
        }
    }
    assert_eq!(value("a: |-\n  x\n  ").as_deref(), Some("x"));
    assert_eq!(value("a: |+\n  x\n\n  ").as_deref(), Some("x\n\n"));

    let src = "a: b\n   ";
    let nodes = parse_lenient(src).expect("parses");
    assert_eq!(nodes[0].span().end, 8);
    assert_eq!(nodes[0].get("a").map(|v| v.span().slice(src)), Some("b"));
    assert_eq!(parse_lenient("   ").map(|nodes| nodes.len()), Some(0));
}

#[test]
fn only_the_blanks_that_were_put_in_are_taken_out() {
    let nodes = parse_lenient("[\"!\\t,\",\"!,\"]\n").expect("parses");
    assert_eq!(texts(&nodes[0]), ["!\t,", "!,"]);
    let nodes = parse_lenient("- [\"!\t,\", '! ,', \"!,\"]\n- a!,b\n- 'a!,  b'\n").expect("parses");
    assert_eq!(texts(&nodes[0].items()[0]), ["!\t,", "! ,", "!,"]);
    assert_eq!(nodes[0].items()[1].as_str(), Some("a!,b"));
    assert_eq!(nodes[0].items()[2].as_str(), Some("a!,  b"));
}

#[test]
fn verbatim_tags_and_directives_are_left_alone() {
    let nodes = parse_lenient("!<!a,b> c\n").expect("parses");
    assert_eq!(nodes[0].as_str(), Some("c"));
    let src = "[!<!a,b> c, !d, 'e!,f']\n";
    let nodes = parse_lenient(src).expect("parses");
    assert_eq!(texts(&nodes[0]).first(), Some(&"c"));
    assert_eq!(texts(&nodes[0]).last(), Some(&"e!,f"));
    assert_eq!(nodes[0].items().len(), 3);
    assert_eq!(nodes[0].items()[2].span().slice(src), "e!,f");
    let nodes = parse_lenient("[x !<y,!a,b>]\n").expect("parses");
    assert_eq!(nodes[0].items().len(), 3);
    let nodes = parse_lenient("%TAG !e! !foo,bar\n---\n- !e!x y\n").expect("parses");
    assert_eq!(texts(&nodes[0]), ["y"]);
    let nodes = parse_lenient("--- [a]\n...\n%TAG !e! !foo,bar\n---\n- !e!x y\n").expect("parses");
    assert_eq!(texts(&nodes[1]), ["y"]);
    assert!(parse_lenient("[!<!a b> c]\n").is_none());
}
