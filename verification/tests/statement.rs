//! Statements, their nesting, and the templates that they name.

use ansible_core::jinja::statement::{
    check, parse, references, will_not_render, RefTag, Reference, Stmt,
};
use ansible_core::jinja::template::{blocks, Delimiters};
use ansible_core::parse::Span;

fn refs(src: &str) -> Vec<Reference> {
    references(src, &Delimiters::default()).expect("renders")
}

fn names(src: &str) -> Vec<String> {
    refs(src).into_iter().map(|r| r.template).collect()
}

fn refusal(src: &str) -> String {
    references(src, &Delimiters::default()).expect_err("must not render").msg
}

#[test]
fn the_nine_templates_jinja_refuses_are_refused() {
    let cases = [
        ("{% for x in xs %}{{ x }}", "endfor"),
        ("{% if a %}x{% endfor %}", "endfor"),
        ("{% forr x in xs %}{% endforr %}", "forr"),
        ("{% include 'a.j2' %}{% endif %}", "endif"),
        ("{% macro m(a,) %}{% endmacro %}", "name"),
        ("{% set x = %}", "expression"),
        ("{% for x in %}{% endfor %}", "expression"),
        ("{% raw %}{% include 'x.j2' %}", "raw"),
        ("{{ x }", "print statement"),
    ];
    for (src, needle) in cases {
        let msg = refusal(src);
        assert!(msg.contains(needle), "{src:?}: {msg:?} does not mention {needle:?}");
    }
}

#[test]
fn the_repaired_form_of_each_refusal_is_accepted() {
    for src in [
        "{% for x in xs %}{{ x }}{% endfor %}",
        "{% if a %}x{% endif %}",
        "{% for x in xs %}{% endfor %}",
        "{% include 'a.j2' %}",
        "{% macro m(a) %}{% endmacro %}",
        "{% set x = 1 %}",
        "{% raw %}{% include 'x.j2' %}{% endraw %}",
        "{{ x }}",
    ] {
        assert!(
            references(src, &Delimiters::default()).is_ok(),
            "{src:?} must render: {:?}",
            refusal(src)
        );
    }
}

#[test]
fn the_four_target_naming_tags_are_read() {
    assert_eq!(names("{% extends 'base.j2' %}"), ["base.j2"]);
    assert_eq!(names("{% include 'partials/header.j2' %}"), ["partials/header.j2"]);
    assert_eq!(names("{% import 'macros.j2' as m %}"), ["macros.j2"]);
    assert_eq!(names("{% from 'macros.j2' import a, b as c %}"), ["macros.j2"]);
    assert_eq!(names("{% include 'a.j2' ignore missing %}"), ["a.j2"]);
    assert!(refs("{% include 'a.j2' ignore missing %}")[0].ignore_missing);
    assert!(!refs("{% include 'a.j2' %}")[0].ignore_missing);
    assert!(!refs("{% extends 'a.j2' %}")[0].ignore_missing);
    let two = refs("{% include 'a.j2' ignore missing %}{% include 'b.j2' %}");
    assert_eq!((two[0].ignore_missing, two[1].ignore_missing), (true, false));
    assert_eq!(names("{% include 'a.j2' with context %}"), ["a.j2"]);
    assert_eq!(names("{% include 'a.j2' without context %}"), ["a.j2"]);
}

#[test]
fn a_templated_include_name_stays_silent() {
    assert_eq!(names("{% include some_var %}"), Vec::<String>::new());
    assert_eq!(names("{% include 'a/' ~ name %}"), Vec::<String>::new());
    assert_eq!(names("{% include 'a.j2' %}"), ["a.j2"]);
}

#[test]
fn a_reference_hidden_by_the_lexer_is_not_a_reference() {
    assert_eq!(names("{% raw %}{% include 'x.j2' %}{% endraw %}"), Vec::<String>::new());
    assert_eq!(names("{# {% include 'x.j2' %} #}"), Vec::<String>::new());
    assert_eq!(names("{{ '{% include \"x.j2\" %}' }}"), Vec::<String>::new());
}

#[test]
fn a_reference_carries_the_span_of_its_literal() {
    let src = "head\n{% include 'partials/header.j2' %}\ntail";
    let r = &refs(src)[0];
    assert_eq!(r.tag, RefTag::Include);
    assert_eq!(&src[r.span.start..r.span.end], "'partials/header.j2'");
}

#[test]
fn a_block_must_be_closed_by_its_own_end_tag() {
    assert!(refusal("{% if a %}{% endfor %}").contains("'if'"));
    assert!(refusal("{% for x in xs %}{% endif %}").contains("'for'"));
    assert!(refusal("{% block b %}").contains("endblock"));
    assert!(refusal("{% macro m() %}").contains("endmacro"));
    let msg = refusal("{% for x in xs %}{% if a %}{% endfor %}{% endif %}{% endfor %}");
    assert!(msg.contains("'if'"), "{msg}");
    assert!(references("{% for x in xs %}{% if a %}{% endif %}{% endfor %}", &Delimiters::default()).is_ok());
}

#[test]
fn a_continuation_needs_an_open_block_and_does_not_open_one() {
    assert!(references("{% if a %}x{% else %}y{% endif %}", &Delimiters::default()).is_ok());
    assert!(references("{% if a %}x{% elif b %}y{% endif %}", &Delimiters::default()).is_ok());
    assert!(references("{% for x in xs %}a{% else %}b{% endfor %}", &Delimiters::default()).is_ok());
    assert!(refusal("{% else %}").contains("else"));
    assert!(refusal("{% for x in xs %}{% elif b %}{% endfor %}").contains("elif"));
}

#[test]
fn all_fourteen_statement_forms_are_known() {
    for src in [
        "{% for x in xs %}{% endfor %}",
        "{% if a %}{% endif %}",
        "{% block b %}{% endblock %}",
        "{% extends 'a.j2' %}",
        "{% print x %}",
        "{% macro m() %}{% endmacro %}",
        "{% include 'a.j2' %}",
        "{% from 'a.j2' import x %}",
        "{% import 'a.j2' as m %}",
        "{% set x = 1 %}",
        "{% with a = 1 %}{% endwith %}",
        "{% autoescape true %}{% endautoescape %}",
        "{% call m() %}{% endcall %}",
        "{% filter upper %}{% endfilter %}",
    ] {
        let got = references(src, &Delimiters::default());
        assert!(got.is_ok(), "{src:?} must be known: {:?}", refusal(src));
    }
    assert!(refusal("{% frobnicate %}").contains("frobnicate"));
    assert!(refusal("{% endfrobnicate %}").contains("frobnicate"));
}

#[test]
fn a_statement_says_how_it_nests() {
    let stmt = |src: &str| parse(src, Span { start: 0, end: src.len() }).expect("parses");
    assert!(matches!(stmt(" if x "), Stmt::Open { end: "endif", .. }));
    assert!(matches!(stmt("else"), Stmt::Continuation { .. }));
    match stmt("endfor") {
        Stmt::End { tag, opener } => assert_eq!((tag.as_str(), opener.as_str()), ("endfor", "for")),
        other => panic!("{other:?}"),
    }
    match stmt(" include 'a.j2' ") {
        Stmt::Standalone { tag, references } => {
            assert_eq!(tag, "include");
            assert_eq!(references[0].tag, RefTag::Include);
        }
        other => panic!("{other:?}"),
    }
    assert!(parse("nonsense x", Span { start: 0, end: 10 }).is_err());
}

#[test]
fn blocks_are_checked_by_themselves() {
    let src = "{% if a %}{% include 'b.j2' %}{% endif %}";
    let split = blocks(src, &Delimiters::default()).expect("splits");
    assert_eq!(check(src, &split).expect("renders").len(), 1);
    assert!(check(src, &split[..2]).is_err());
}

#[test]
fn extensions_hold_the_verdict_back() {
    let bad = "{% frobnicate %}";
    assert!(will_not_render(bad, &Delimiters::default(), &[]).is_some());
    assert!(will_not_render(bad, &Delimiters::default(), &["jinja2.ext.do".to_string()]).is_none());
    assert!(will_not_render("{{ x }}", &Delimiters::default(), &[]).is_none());
}

#[test]
fn an_elif_must_reach_an_expression() {
    assert!(refusal("{% if a %}x{% elif %}y{% endif %}").contains("expression"));
    assert!(references("{% if a %}x{% elif ) %}y{% endif %}", &Delimiters::default()).is_err());
    assert!(references("{% if a %}x{% elif b is defined %}y{% endif %}", &Delimiters::default()).is_ok());
}
