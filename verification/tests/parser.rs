//! Expressions and their trees.

use ansible_core::jinja::ast::{Args, Const, Expr, ExprKind};
use ansible_core::jinja::lexer::{tokens, Cause};
use ansible_core::jinja::parser::{expression_at, parse};
use serde_json::{Map as Fields, Value};

fn json(text: &str) -> Value {
    serde_json::from_str(text).expect("valid JSON")
}

fn object(fields: &[(&str, Value)]) -> Value {
    let mut map = Fields::new();
    for (k, v) in fields {
        map.insert(k.to_string(), v.clone());
    }
    Value::Object(map)
}

fn list(items: &[Expr]) -> Value {
    Value::Array(items.iter().map(dump).collect())
}

fn maybe(e: &Option<Box<Expr>>) -> Value {
    e.as_ref().map(|x| dump(x)).unwrap_or(Value::Null)
}

fn with_args(mut fields: Vec<(&str, Value)>, a: &Args) -> Value {
    let kwargs = a
        .kwargs
        .iter()
        .map(|(k, v)| {
            object(&[
                ("t", Value::from("Keyword")),
                ("key", Value::from(k.as_str())),
                ("value", dump(v)),
            ])
        })
        .collect();
    fields.push(("args", list(&a.args)));
    fields.push(("kwargs", Value::Array(kwargs)));
    fields.push(("dyn_args", maybe(&a.dyn_args)));
    fields.push(("dyn_kwargs", maybe(&a.dyn_kwargs)));
    object(&fields)
}

fn dump(e: &Expr) -> Value {
    let t = |name: &str| ("t", Value::from(name));
    match &e.kind {
        ExprKind::Const(c) => {
            let v = match c {
                Const::Str(s) => Value::from(s.as_str()),
                Const::Int(i) => Value::from(*i),
                Const::Float(f) => Value::from(f.parse::<f64>().expect("a float")),
                Const::Bool(b) => Value::from(*b),
                Const::Null => Value::Null,
            };
            object(&[t("Const"), ("value", v)])
        }
        ExprKind::Name(n) => object(&[t("Name"), ("name", Value::from(n.as_str()))]),
        ExprKind::List(items) => object(&[t("List"), ("items", list(items))]),
        ExprKind::Tuple(items) => object(&[t("Tuple"), ("items", list(items))]),
        ExprKind::Dict(items) => {
            let pairs = items
                .iter()
                .map(|(k, v)| object(&[t("Pair"), ("key", dump(k)), ("value", dump(v))]))
                .collect();
            object(&[t("Dict"), ("items", Value::Array(pairs))])
        }
        ExprKind::Getattr { node, attr } => {
            object(&[t("Getattr"), ("node", dump(node)), ("attr", Value::from(attr.as_str()))])
        }
        ExprKind::Getitem { node, arg } => {
            object(&[t("Getitem"), ("node", dump(node)), ("arg", dump(arg))])
        }
        ExprKind::Slice { start, stop, step } => object(&[
            t("Slice"),
            ("start", maybe(start)),
            ("stop", maybe(stop)),
            ("step", maybe(step)),
        ]),
        ExprKind::Filter { node, name, args } => {
            with_args(vec![t("Filter"), ("node", dump(node)), ("name", Value::from(name.as_str()))], args)
        }
        ExprKind::Test { node, name, args } => {
            with_args(vec![t("Test"), ("node", dump(node)), ("name", Value::from(name.as_str()))], args)
        }
        ExprKind::Call { node, args } => with_args(vec![t("Call"), ("node", dump(node))], args),
        ExprKind::Compare { expr, ops } => {
            let operands = ops
                .iter()
                .map(|(op, e)| {
                    object(&[t("Operand"), ("op", Value::from(op.op_name())), ("expr", dump(e))])
                })
                .collect();
            object(&[t("Compare"), ("expr", dump(expr)), ("ops", Value::Array(operands))])
        }
        ExprKind::Concat(nodes) => object(&[t("Concat"), ("nodes", list(nodes))]),
        ExprKind::CondExpr { test, value, or_else } => object(&[
            t("CondExpr"),
            ("test", dump(test)),
            ("expr1", dump(value)),
            ("expr2", maybe(or_else)),
        ]),
        ExprKind::Bin { op, left, right } => {
            object(&[t(op.node_name()), ("left", dump(left)), ("right", dump(right))])
        }
        ExprKind::Unary { op, node } => object(&[t(op.node_name()), ("node", dump(node))]),
    }
}

fn tree(src: &str) -> Value {
    dump(&parse(src).unwrap_or_else(|e| panic!("{src:?} must parse: {}", e.msg)))
}

#[test]
fn a_filter_applies_to_the_whole_accessor_path_not_to_its_root() {
    assert_eq!(
        tree("r.stdout | length > 0"),
        json(r#"{"t": "Compare",
               "expr": {"t": "Filter", "name": "length", "args": [], "kwargs": [],
                        "dyn_args": null, "dyn_kwargs": null,
                        "node": {"t": "Getattr", "attr": "stdout",
                                 "node": {"t": "Name", "name": "r"}}},
               "ops": [{"t": "Operand", "op": "gt", "expr": {"t": "Const", "value": 0}}]}"#)
    );
}

#[test]
fn spelling_does_not_change_the_tree() {
    let want = tree("hosts | length > 0");
    for src in ["hosts|length>0", "hosts  |  length  >  0", "hosts\n|\tlength\n> 0"] {
        assert_eq!(tree(src), want, "{src:?}");
    }
}

#[test]
fn exponentiation_is_left_associative_unlike_python() {
    assert_eq!(
        tree("2**3**2"),
        json(r#"{"t": "Pow",
               "left": {"t": "Pow", "left": {"t": "Const", "value": 2},
                        "right": {"t": "Const", "value": 3}},
               "right": {"t": "Const", "value": 2}}"#)
    );
}

#[test]
fn comparisons_chain_into_one_node() {
    let t = tree("1 < 2 < 3");
    assert_eq!(t["t"], "Compare");
    assert_eq!(t["ops"].as_array().expect("ops").len(), 2);
}

#[test]
fn a_negated_test_is_a_not_around_the_test() {
    assert_eq!(
        tree("x is not defined"),
        json(r#"{"t": "Not",
               "node": {"t": "Test", "name": "defined", "args": [], "kwargs": [],
                        "dyn_args": null, "dyn_kwargs": null,
                        "node": {"t": "Name", "name": "x"}}}"#)
    );
}

#[test]
fn accessors_normalise_to_getattr_and_getitem() {
    assert_eq!(tree("a.0"), tree("a[0]"));
    assert_eq!(
        tree("hostvars[h].x"),
        json(r#"{"t": "Getattr", "attr": "x",
               "node": {"t": "Getitem", "node": {"t": "Name", "name": "hostvars"},
                        "arg": {"t": "Name", "name": "h"}}}"#)
    );
}

#[test]
fn keyword_literals_become_constants_in_the_parser() {
    for (src, want) in [
        ("true", json(r#"true"#)),
        ("True", json(r#"true"#)),
        ("false", json(r#"false"#)),
        ("False", json(r#"false"#)),
        ("none", Value::Null),
        ("None", Value::Null),
    ] {
        assert_eq!(tree(src), object(&[("t", Value::from("Const")), ("value", want)]), "{src}");
    }
    assert_eq!(tree("truthy"), json(r#"{"t": "Name", "name": "truthy"}"#));
}

#[test]
fn adjacent_strings_fold_into_one_constant() {
    assert_eq!(tree("'a' 'b'"), json(r#"{"t": "Const", "value": "ab"}"#));
}

#[test]
fn a_filter_after_a_negation_applies_to_the_negation() {
    assert_eq!(
        tree("-1|foo"),
        json(r#"{"t": "Filter", "name": "foo", "args": [], "kwargs": [],
               "dyn_args": null, "dyn_kwargs": null,
               "node": {"t": "Neg", "node": {"t": "Const", "value": 1}}}"#)
    );
}

#[test]
fn a_filter_after_a_negated_subscript_wraps_the_whole_negation() {
    assert_eq!(
        tree("-foo[\"bar\"]|abs"),
        json(r#"{"t": "Filter", "name": "abs", "args": [], "kwargs": [],
               "dyn_args": null, "dyn_kwargs": null,
               "node": {"t": "Neg", "node": {"t": "Getitem",
                        "node": {"t": "Name", "name": "foo"},
                        "arg": {"t": "Const", "value": "bar"}}}}"#)
    );
    assert_eq!(tree("-foo[\"bar\"]")["t"], "Neg");
}

#[test]
fn a_test_applied_to_a_keyword_literal_sees_a_constant() {
    assert_eq!(
        tree("none is defined")["node"],
        json(r#"{"t": "Const", "value": null}"#)
    );
    assert_eq!(
        tree("missing is defined")["node"],
        json(r#"{"t": "Name", "name": "missing"}"#)
    );
}

#[test]
fn upstreams_error_message_suite_is_statement_level_and_belongs_to_t_040() {
    for body in ["for item in seq", "if foo", "block foo"] {
        assert_eq!(parse(body).expect_err("not an expression").msg, "chunk after expression");
    }
    assert_eq!(tree("unknown_tag"), json(r#"{"t": "Name", "name": "unknown_tag"}"#));
}

#[test]
fn deep_nesting_is_refused_rather_than_overflowing_the_stack() {
    let deep = 50_000;
    let cases = [
        ("parens", format!("{}1{}", "(".repeat(deep), ")".repeat(deep))),
        ("not", format!("{}x", "not ".repeat(deep))),
        ("neg", format!("{}x", "-".repeat(deep))),
        ("pos", format!("{}x", "+".repeat(deep))),
        ("list", format!("{}1{}", "[".repeat(deep), "]".repeat(deep))),
        ("dict", format!("{}1{}", "{'a':".repeat(deep), "}".repeat(deep))),
        ("call", format!("f{}1{}", "(".repeat(deep), ")".repeat(deep))),
        ("subscript", format!("x{}1{}", "[".repeat(deep), "]".repeat(deep))),
        ("filter args", format!("x|d{}1{}", "(".repeat(deep), ")".repeat(deep))),
    ];
    for (label, src) in cases {
        let e = parse(&src).expect_err("must be refused");
        assert_eq!(e.msg, "expression nests too deeply", "{label}");
        assert_eq!(e.cause, Cause::Depth, "{label}");
    }
}

#[test]
fn the_depth_ceiling_is_where_it_says_it_is() {
    let ok = format!("{}1{}", "(".repeat(23), ")".repeat(23));
    assert!(parse(&ok).is_ok(), "one below the ceiling must parse");
    let over = format!("{}1{}", "(".repeat(24), ")".repeat(24));
    assert!(parse(&over).is_err(), "the ceiling must actually stop something");
}

#[test]
fn depth_is_not_charged_for_breadth() {
    let wide: Vec<String> = (0..2_000).map(|i| i.to_string()).collect();
    let src = format!("[{}]", wide.join(", "));
    assert!(parse(&src).is_ok(), "2000 flat list items is not deep nesting");
    let chained = format!("x{}", " | d".repeat(2_000));
    assert!(parse(&chained).is_ok(), "2000 chained filters is not deep nesting");
    let added = format!("1{}", " + 1".repeat(2_000));
    assert!(parse(&added).is_ok(), "2000 additions is not deep nesting");
}

#[test]
fn anything_left_over_is_refused_rather_than_silently_dropped() {
    for src in ["foo bar", "1, 2", "a b c", "x | length y"] {
        let e = parse(src).expect_err("must not parse");
        assert_eq!(e.msg, "chunk after expression", "{src:?}");
    }
    for src in ["foo", "1", "a", "x | length"] {
        assert!(parse(src).is_ok(), "{src:?}");
    }
}

#[test]
fn incomplete_expressions_are_refused() {
    for src in ["x ==", "not", "foo.", "x is", "(1", "[1", "{'a':", "f(a=1, 2)"] {
        assert!(parse(src).is_err(), "{src:?} must not parse");
    }
}

#[test]
fn a_refusal_points_at_the_offending_token() {
    let e = parse("foo bar").expect_err("must not parse");
    assert_eq!(e.span.slice("foo bar"), "bar");
    let e = parse("x @ y").expect_err("must not parse");
    assert_eq!(e.span.slice("x @ y"), "@");
}

#[test]
fn every_node_spans_the_text_it_was_built_from() {
    let src = "r.results[0].stdout | length > 0";
    let e = parse(src).expect("parses");
    assert_eq!(e.span.slice(src), src);
    let ExprKind::Compare { expr, ops } = &e.kind else { panic!("expected a comparison") };
    assert_eq!(expr.span.slice(src), "r.results[0].stdout | length");
    assert_eq!(ops[0].1.span.slice(src), "0");
    let ExprKind::Filter { node, .. } = &expr.kind else { panic!("expected a filter") };
    assert_eq!(node.span.slice(src), "r.results[0].stdout");
    let ExprKind::Getattr { node, .. } = &node.kind else { panic!("expected an accessor") };
    assert_eq!(node.span.slice(src), "r.results[0]");
}

#[test]
fn a_parenthesised_expression_spans_its_parentheses() {
    let src = "(1 + 2)";
    let e = parse(src).expect("parses");
    assert_eq!(e.span.slice(src), "(1 + 2)");
}

#[test]
fn spans_are_byte_ranges_past_non_ascii() {
    let src = "'♨' ~ tail";
    let e = parse(src).expect("parses");
    let ExprKind::Concat(parts) = &e.kind else { panic!("expected a concat") };
    assert_eq!(parts[1].span.slice(src), "tail");
}

#[test]
fn the_root_of_an_accessor_path_is_the_name_at_its_base() {
    for (src, want) in [
        ("r", Some("r")),
        ("r.stdout", Some("r")),
        ("r['stdout']", Some("r")),
        ("r.results[0].stdout", Some("r")),
        ("hostvars[h].x", Some("hostvars")),
        ("r.stdout | length", None),
        ("'literal'", None),
        ("a + b", None),
    ] {
        assert_eq!(parse(src).expect("parses").root_name(), want, "{src}");
    }
}

#[test]
fn each_stage_names_itself() {
    assert_eq!(parse("a ! b").expect_err("refused").cause, Cause::Lex);
    assert_eq!(parse("x ==").expect_err("refused").cause, Cause::Eof);
    assert_eq!(parse("(1 +)").expect_err("refused").cause, Cause::Parse);
    assert_eq!(parse("foo bar").expect_err("refused").cause, Cause::Trailing);
    let deep = format!("{}1{}", "(".repeat(30), ")".repeat(30));
    assert_eq!(parse(&deep).expect_err("refused").cause, Cause::Depth);
}

#[test]
fn an_expression_is_read_from_the_middle_of_its_tokens() {
    let src = "in a + b , c";
    let toks = tokens(src).expect("lexes");
    let (e, next) = expression_at(src, &toks, 1).expect("parses");
    assert_eq!(e.span.slice(src), "a + b");
    assert_eq!(next, 4);
}

#[test]
fn calls_slices_and_conditions_have_their_nodes() {
    assert_eq!(
        tree("f(1, k=2, *a, **b)"),
        json(
            r#"{"t": "Call", "node": {"t": "Name", "name": "f"},
                "args": [{"t": "Const", "value": 1}],
                "kwargs": [{"t": "Keyword", "key": "k", "value": {"t": "Const", "value": 2}}],
                "dyn_args": {"t": "Name", "name": "a"}, "dyn_kwargs": {"t": "Name", "name": "b"}}"#
        )
    );
    assert_eq!(
        tree("x[1::2]"),
        json(
            r#"{"t": "Getitem", "node": {"t": "Name", "name": "x"},
                "arg": {"t": "Slice", "start": {"t": "Const", "value": 1}, "stop": null,
                        "step": {"t": "Const", "value": 2}}}"#
        )
    );
    assert_eq!(
        tree("a if b"),
        json(
            r#"{"t": "CondExpr", "test": {"t": "Name", "name": "b"},
                "expr1": {"t": "Name", "name": "a"}, "expr2": null}"#
        )
    );
    assert_eq!(tree("1.5_0"), json(r#"{"t": "Const", "value": 1.5}"#));
    assert_eq!(tree("{'k': (1, 2)}")["items"][0]["value"]["t"], "Tuple");
    assert_eq!(tree("a not in b")["ops"][0]["op"], "notin");
    assert_eq!(tree("'a' ~ b ~ 'c'")["nodes"].as_array().map(|v| v.len()), Some(3));
}

#[test]
fn the_root_spans_every_token() {
    for src in ["a", "  (a) ", "a if b else c", "x | f(1) is not none ~ 'z' ", " not [1, 2][0]"] {
        let toks = tokens(src).expect("lexes");
        let root = parse(src).expect("parses").span;
        assert_eq!(root.start, toks[0].span.start, "{src:?}");
        assert_eq!(root.end, toks[toks.len() - 2].span.end, "{src:?}");
    }
}

#[test]
fn a_clone_is_equal() {
    let src = "a[1:b] | f(x, k=-1, *y, **z) if {1: (2, 3)}.c is not t else 'd' ~ 1.5 < none";
    let tree = parse(src).expect("parses");
    let copy = tree.clone();
    assert_eq!(dump(&copy), dump(&tree));
    assert!(copy == tree);
    assert!(tree != parse("a").expect("parses"));
    assert!(Args::default().is_empty());
}
