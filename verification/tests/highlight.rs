//! The colours of templates.

use ansible_core::jinja::highlight::TokenType::{
    Function, Keyword, Label, Namespace, Parameter, Property, Variable, WordOperator,
};
use ansible_core::jinja::highlight::{expression_tokens, tokens, TokenType};
use ansible_core::jinja::template::Delimiters;

fn toks(src: &str) -> Vec<(&str, TokenType)> {
    tokens(src, &Delimiters::default(), true)
        .into_iter()
        .map(|t| (t.span.slice(src), t.ty))
        .collect()
}

#[test]
fn non_ascii_anywhere_in_a_template_does_not_panic() {
    let pieces = ["café", "שלום", "🎉", "日本語", "ß", "e\u{301}"];
    let shapes: Vec<String> = pieces
        .iter()
        .flat_map(|w| {
            vec![
                format!("{{{{ {w} }}}}"),
                format!("{{{{ {w}|upper }}}}"),
                format!("{{{{ a.{w} }}}}"),
                format!("{{{{ f({w}) }}}}"),
                format!("{{% if {w} %}}x{{% endif %}}"),
                format!("{{% raw %}}{w} {{% endraw %}}"),
                format!("{{% for {w} in xs %}}{w}{{% endfor %}}"),
                format!("{w}{{{{ a }}}}{w}"),
                format!("{{{{ '{w}' ~ b }}}}"),
                format!("{{{{ {w}"),
                format!("{{# {w} #}}"),
                format!("#jinja2: block_start_string:'<%'\n<% if {w} %>y<% endif %>"),
            ]
        })
        .collect();
    for src in &shapes {
        for t in tokens(src, &Delimiters::default(), true) {
            assert!(src.is_char_boundary(t.span.start) && src.is_char_boundary(t.span.end), "{src}");
        }
    }
    assert!(
        tokens("{{ café_port }}", &Delimiters::default(), true).len() == 3,
        "the sweep's subject must tokenize, not merely survive"
    );
}

#[test]
fn a_literal_curly_comment_is_repainted_when_the_delimiters_moved() {
    let src = "#jinja2: comment_start_string:'<#', comment_end_string:'#>'\n\
               <# real #>\nkeepalive {# not a comment #} 65;\n";
    let got = toks(src);
    let repainted: Vec<_> =
        got.iter().filter(|(_, ty)| *ty == TokenType::Text).map(|(t, _)| *t).collect();
    assert_eq!(repainted, ["{# not a comment #}"], "{got:?}");
    let comments: Vec<_> =
        got.iter().filter(|(_, ty)| *ty == TokenType::Comment).map(|(t, _)| *t).collect();
    assert_eq!(comments, ["<# real #>"], "{got:?}");
}

#[test]
fn without_the_header_the_same_text_is_a_real_comment_and_is_not_repainted() {
    let src = "keepalive {# not a comment #} 65;\n";
    let got = toks(src);
    assert!(
        got.iter().all(|(_, ty)| *ty != TokenType::Text),
        "nothing to repaint when the grammar is right: {got:?}"
    );
    let comments: Vec<_> =
        got.iter().filter(|(_, ty)| *ty == TokenType::Comment).map(|(t, _)| *t).collect();
    assert_eq!(comments, ["{# not a comment #}"], "{got:?}");
}

#[test]
fn the_delimiters_are_tokens_too_not_just_what_is_between_them() {
    let got = toks("{% if x %}{{ y }}");
    let delims: Vec<_> =
        got.iter().filter(|(_, ty)| *ty == TokenType::Delimiter).map(|(t, _)| *t).collect();
    assert_eq!(delims, ["{%", "%}", "{{", "}}"], "{got:?}");
    assert!(
        tokens("{%%}", &Delimiters::default(), true).iter().all(|t| t.span.end > t.span.start)
    );
}

#[test]
fn the_delimiter_tokens_follow_an_overridden_pair() {
    let src = "#jinja2: block_start_string:'<%', block_end_string:'%>'\n<% if x %>\nand {% no %}\n";
    let got = toks(src);
    let delims: Vec<_> =
        got.iter().filter(|(_, ty)| *ty == TokenType::Delimiter).map(|(t, _)| *t).collect();
    assert!(delims.contains(&"<%"), "{delims:?}");
    assert!(delims.contains(&"%>"), "{delims:?}");
    assert!(!delims.contains(&"{%"), "painted a literal brace as a delimiter: {delims:?}");
}

#[test]
fn an_overridden_delimiter_moves_the_tokens_to_the_real_tags() {
    let src = "#jinja2: block_start_string:'<%', block_end_string:'%>'\n\
               <% if x %>t<% endif %>\n\
               and {% not a tag %} here\n";
    let got = toks(src);
    assert!(got.contains(&("if", TokenType::Keyword)), "{got:?}");
    assert!(got.contains(&("endif", TokenType::Keyword)), "{got:?}");
    assert!(got.contains(&("x", TokenType::Variable)), "{got:?}");
    for dead in ["not", "a", "tag"] {
        assert!(!got.iter().any(|(t, _)| *t == dead), "{dead:?} painted: {got:?}");
    }
}

#[test]
fn without_the_header_the_default_delimiters_win() {
    let src = "<% if x %>t<% endif %>\nand {% not a tag %} here\n";
    let got = toks(src);
    assert!(got.contains(&("not", TokenType::Keyword)), "{got:?}");
    assert!(got.contains(&("tag", TokenType::Variable)), "{got:?}");
    assert!(!got.iter().any(|(t, _)| *t == "endif"), "{got:?}");
}

#[test]
fn nothing_inside_a_raw_body_is_a_token() {
    assert_eq!(toks(r#"{% raw %}printf "x{%s}"{% endraw %}"#), []);
    assert!(!toks(r#"{{ printf }}"#).is_empty());
}

#[test]
fn a_tag_name_is_a_keyword_but_the_same_word_in_an_expression_is_not() {
    assert!(toks("{% include 'a.j2' %}").contains(&("include", TokenType::Keyword)));
    assert!(toks("{{ include }}").contains(&("include", TokenType::Variable)));
}

#[test]
fn a_filter_and_a_call_are_functions_and_a_bare_name_is_a_variable() {
    let got = toks("{{ app_port | default(8080) }}");
    assert!(got.contains(&("app_port", TokenType::Variable)), "{got:?}");
    assert!(got.contains(&("default", TokenType::Function)), "{got:?}");
    assert!(got.contains(&("8080", TokenType::Number)), "{got:?}");
    assert!(got.contains(&("|", TokenType::Operator)), "{got:?}");
}

#[test]
fn a_name_after_a_dot_is_a_property_unless_it_is_called() {
    let got = toks("{{ ansible_facts.hostname | default(x.y) }}");
    assert!(got.contains(&("ansible_facts", TokenType::Variable)), "{got:?}");
    assert!(got.contains(&("hostname", TokenType::Property)), "{got:?}");
    assert!(got.contains(&("x", TokenType::Variable)), "{got:?}");
    assert!(got.contains(&("y", TokenType::Property)), "{got:?}");
    let call = toks("{{ m.upstream('web') }}");
    assert!(call.contains(&("m", TokenType::Variable)), "{call:?}");
    assert!(call.contains(&("upstream", TokenType::Function)), "{call:?}");
}

fn decls(src: &str) -> Vec<(&str, bool)> {
    tokens(src, &Delimiters::default(), true)
        .into_iter()
        .filter(|t| t.ty == TokenType::Variable)
        .map(|t| (t.span.slice(src), t.declaration))
        .collect()
}

#[test]
fn the_names_between_for_and_in_are_declarations_and_nothing_after_in_is() {
    assert_eq!(decls("{% for h in hosts %}"), [("h", true), ("hosts", false)]);
    assert_eq!(
        decls("{% for k, v in d.items() if k in wanted %}"),
        [("k", true), ("v", true), ("d", false), ("k", false), ("wanted", false)]
    );
    assert_eq!(decls("{{ h }}"), [("h", false)]);
    assert_eq!(decls("{% if h in hosts %}"), [("h", false), ("hosts", false)]);
    assert_eq!(decls("{{ for }}"), [("for", false)]);
}

fn names(src: &str) -> Vec<(&str, TokenType, bool)> {
    tokens(src, &Delimiters::default(), true)
        .into_iter()
        .filter(|t| {
            !matches!(
                t.ty,
                TokenType::Delimiter | TokenType::Operator | TokenType::String | TokenType::Number
            )
        })
        .map(|t| (t.span.slice(src), t.ty, t.declaration))
        .collect()
}

#[test]
fn a_macro_declares_its_name_as_a_function_and_its_arguments_as_parameters() {
    assert_eq!(
        names("{% macro upstream(group, sep=default_sep) %}"),
        [
            ("macro", Keyword, false),
            ("upstream", Function, true),
            ("group", Parameter, true),
            ("sep", Parameter, true),
            ("default_sep", Variable, false),
        ]
    );
    assert_eq!(names("{% macro bare() %}"), [("macro", Keyword, false), ("bare", Function, true)]);
    assert_eq!(
        names("{% call upstream('web') %}"),
        [("call", Keyword, false), ("upstream", Function, false)]
    );
}

#[test]
fn import_and_from_import_declare_what_lands_in_scope() {
    assert_eq!(
        names("{% import 'macros.j2' as m %}"),
        [("import", Keyword, false), ("as", WordOperator, false), ("m", Namespace, true)]
    );
    assert_eq!(
        names("{% from 'macros.j2' import a, b as c with context %}"),
        [
            ("from", Keyword, false),
            ("import", Keyword, false),
            ("a", Function, true),
            ("b", Function, false),
            ("as", WordOperator, false),
            ("c", Function, true),
            ("with", WordOperator, false),
            ("context", Keyword, false),
        ]
    );
    assert_eq!(names("{{ m }}"), [("m", Variable, false)]);
}

#[test]
fn statement_words_are_keywords_in_their_statement_and_variables_elsewhere() {
    assert_eq!(
        names("{% include 'a.j2' ignore missing with context %}"),
        [
            ("include", Keyword, false),
            ("ignore", Keyword, false),
            ("missing", Keyword, false),
            ("with", WordOperator, false),
            ("context", Keyword, false),
        ]
    );
    assert_eq!(
        names("{% import 'a.j2' as m without context %}"),
        [
            ("import", Keyword, false),
            ("as", WordOperator, false),
            ("m", Namespace, true),
            ("without", WordOperator, false),
            ("context", Keyword, false),
        ]
    );
    assert_eq!(
        names("{% block body scoped required %}"),
        [("block", Keyword, false), ("body", Label, true), ("scoped", Keyword, false), ("required", Keyword, false)]
    );
    assert_eq!(names("{% endblock body %}"), [("endblock", Keyword, false), ("body", Label, false)]);
    assert_eq!(names("{% block body %}{{ body }}"), [("block", Keyword, false), ("body", Label, true), ("body", Variable, false)]);
    assert_eq!(names("{% filter upper %}"), [("filter", Keyword, false), ("upper", Function, false)]);
    assert_eq!(names("{% if context %}"), [("if", Keyword, false), ("context", Variable, false)]);
    assert_eq!(names("{{ missing }}"), [("missing", Variable, false)]);
    assert_eq!(names("{% set scoped = 1 %}"), [("set", Keyword, false), ("scoped", Variable, true)]);
    assert_eq!(names("{% include tuning_file %}"), [("include", Keyword, false), ("tuning_file", Variable, false)]);
}

#[test]
fn set_declares_its_targets_but_not_an_attribute_it_writes_to() {
    assert_eq!(
        names("{% set a, b = c %}"),
        [("set", Keyword, false), ("a", Variable, true), ("b", Variable, true), ("c", Variable, false)]
    );
    assert_eq!(
        names("{% set x | upper %}"),
        [("set", Keyword, false), ("x", Variable, true), ("upper", Function, false)]
    );
    assert_eq!(
        names("{% set ns.attr = 1 %}"),
        [("set", Keyword, false), ("ns", Variable, false), ("attr", Property, false)]
    );
    assert_eq!(names("{% set block_form %}"), [("set", Keyword, false), ("block_form", Variable, true)]);
}

#[test]
fn a_later_use_of_an_introduced_name_paints_as_what_introduced_it() {
    assert_eq!(
        names("{% import 'x' as m %}{{ m.a }}{{ m }}"),
        [
            ("import", Keyword, false),
            ("as", WordOperator, false),
            ("m", Namespace, true),
            ("m", Namespace, false),
            ("a", Property, false),
            ("m", Namespace, false),
        ]
    );
    assert_eq!(
        names("{% from 'x' import f %}{{ f }}"),
        [("from", Keyword, false), ("import", Keyword, false), ("f", Function, true), ("f", Function, false)]
    );
    assert_eq!(
        names("{{ m }}{% import 'x' as m %}"),
        [("m", Variable, false), ("import", Keyword, false), ("as", WordOperator, false), ("m", Namespace, true)]
    );
    assert_eq!(
        names("{% import 'x' as m %}{% for m in xs %}{{ m }}"),
        [
            ("import", Keyword, false),
            ("as", WordOperator, false),
            ("m", Namespace, true),
            ("for", Keyword, false),
            ("m", Variable, true),
            ("in", WordOperator, false),
            ("xs", Variable, false),
            ("m", Variable, false),
        ]
    );
    assert_eq!(
        names("{% macro f(p) %}{{ p }}{% endmacro %}"),
        [
            ("macro", Keyword, false),
            ("f", Function, true),
            ("p", Parameter, true),
            ("p", Variable, false),
            ("endmacro", Keyword, false),
        ]
    );
}

#[test]
fn a_keyword_argument_is_a_parameter_that_declares_nothing() {
    assert_eq!(
        names("{{ x | to_nice_yaml(indent=2, width=w) }}"),
        [
            ("x", Variable, false),
            ("to_nice_yaml", Function, false),
            ("indent", Parameter, false),
            ("width", Parameter, false),
            ("w", Variable, false),
        ]
    );
    assert_eq!(names("{{ dict(a=1) }}"), [("dict", Function, false), ("a", Parameter, false)]);
    assert_eq!(names("{% set a = 1 %}"), [("set", Keyword, false), ("a", Variable, true)]);
    assert_eq!(names("{{ f(a == b) }}"), [("f", Function, false), ("a", Variable, false), ("b", Variable, false)]);
    assert_eq!(
        names("{{ f(indent=2) }}{{ indent }}"),
        [("f", Function, false), ("indent", Parameter, false), ("indent", Variable, false)]
    );
}

#[test]
fn comments_and_strings_classify() {
    assert_eq!(toks("{# hi #}"), [("{# hi #}", TokenType::Comment)]);
    assert!(toks("{{ 'x' }}").contains(&("'x'", TokenType::String)));
}

#[test]
fn a_tag_name_a_word_operator_and_a_literal_are_three_kinds() {
    let got = toks("{% if a and true %}");
    assert!(got.contains(&("if", TokenType::Keyword)), "{got:?}");
    assert!(got.contains(&("and", TokenType::WordOperator)), "{got:?}");
    assert!(got.contains(&("true", TokenType::Constant)), "{got:?}");
    assert!(got.contains(&("a", TokenType::Variable)), "{got:?}");
    assert!(toks("{{ x | y }}").contains(&("|", TokenType::Operator)));
}

#[test]
fn the_name_after_is_is_a_test_not_a_variable() {
    assert!(toks("{{ x is defined }}").contains(&("defined", TokenType::Function)));
    assert!(toks("{{ x is not defined }}").contains(&("defined", TokenType::Function)));
    assert!(toks("{{ x is sameas y }}").contains(&("sameas", TokenType::Function)));
    let got = toks("{{ x is sameas y }}");
    assert!(got.contains(&("x", TokenType::Variable)), "{got:?}");
    assert!(got.contains(&("y", TokenType::Variable)), "{got:?}");
    assert!(toks("{{ x is none }}").contains(&("none", TokenType::Constant)));
}

#[test]
fn every_literal_spelling_is_a_constant_and_the_lookalikes_are_not() {
    for lit in ["true", "True", "false", "False", "none", "None"] {
        let src = format!("{{{{ {lit} }}}}");
        let got = tokens(&src, &Delimiters::default(), true);
        assert!(
            got.iter().any(|t| t.ty == TokenType::Constant && t.span.slice(&src) == lit),
            "{lit} should be a constant: {got:?}"
        );
    }
    for name in ["null", "nil", "TRUE"] {
        let src = format!("{{{{ {name} }}}}");
        let got = tokens(&src, &Delimiters::default(), true);
        assert!(
            got.iter().any(|t| t.ty == TokenType::Variable && t.span.slice(&src) == name),
            "{name} is a name jinja2 looks up, not a literal: {got:?}"
        );
    }
}

#[test]
fn a_line_statement_from_a_header_is_read_as_a_statement() {
    let got = toks("#jinja2: line_statement_prefix:'#'\n# if x\nbody\n# endif\n");
    assert!(got.contains(&("if", TokenType::Keyword)), "{got:?}");
    assert!(got.contains(&("endif", TokenType::Keyword)), "{got:?}");
}

#[test]
fn an_expression_alone_is_painted() {
    let src = "a.b | f(1)";
    let got: Vec<(&str, TokenType)> =
        expression_tokens(src).into_iter().map(|t| (t.span.slice(src), t.ty)).collect();
    assert!(got.contains(&("a", TokenType::Variable)), "{got:?}");
    assert!(got.contains(&("b", TokenType::Property)), "{got:?}");
    assert!(got.contains(&("f", TokenType::Function)), "{got:?}");
    assert!(got.contains(&("1", TokenType::Number)), "{got:?}");
    assert!(expression_tokens("a ! b").is_empty());
}

#[test]
fn tokens_come_in_order_and_do_not_overlap() {
    let src = "x {# c #} {% for h in hs %}{{ h.n | upper }}{% endfor %} {{ 'é' ~ y }}";
    let got = tokens(src, &Delimiters::default(), true);
    assert!(got.windows(2).all(|w| w[0].span.end <= w[1].span.start));
    assert!(got.iter().all(|t| t.span.end <= src.len()));
}

#[test]
fn a_template_that_does_not_split_is_not_painted() {
    assert!(tokens("{{ x }} {# open", &Delimiters::default(), true).is_empty());
}
