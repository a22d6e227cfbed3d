//! Templates and their blocks.

use ansible_core::jinja::lexer::Error;
use ansible_core::jinja::statement::references;
use ansible_core::jinja::template::{
    blocks, blocks_from, document, document_in, header, tag_name, Block, Delimiters, Kind,
};

fn split(src: &str) -> Vec<(Kind, String)> {
    blocks(src, &Delimiters::default())
        .expect("splits")
        .into_iter()
        .map(|b| (b.kind, b.inner.slice(src).to_string()))
        .collect()
}

fn err(src: &str) -> Error {
    blocks(src, &Delimiters::default()).expect_err("must be refused")
}

#[test]
fn without_the_prefixes_a_hash_is_just_a_hash() {
    let d = Delimiters::default();
    let src = "# for h in xs
host = {{ h }}   ## note
# endfor
";
    let got: Vec<Kind> = blocks(src, &d).expect("splits").into_iter().map(|b| b.kind).collect();
    assert_eq!(got, [Kind::Data, Kind::Expression, Kind::Data], "{got:?}");
    let on = Delimiters {
        line_statement_prefix: Some("#".into()),
        line_comment_prefix: Some("##".into()),
        ..Delimiters::default()
    };
    let kinds: Vec<Kind> =
        blocks(src, &on).expect("splits").into_iter().map(|b| b.kind).collect();
    assert_eq!(
        kinds,
        [
            Kind::Statement,
            Kind::Data,
            Kind::Expression,
            Kind::Comment,
            Kind::Data,
            Kind::Statement
        ]
    );
}

#[test]
fn a_header_can_turn_line_statements_on() {
    let src = "#jinja2: line_statement_prefix:\"#\"
# include \"partials/a.j2\"
";
    let (bs, d) = document(src, &Delimiters::default()).expect("splits");
    assert_eq!(d.line_statement_prefix.as_deref(), Some("#"));
    assert_eq!(bs.len(), 1);
    assert_eq!(bs[0].kind, Kind::Statement);
    let refs = references(src, &Delimiters::default()).expect("renders");
    assert_eq!(refs.iter().map(|r| r.template.as_str()).collect::<Vec<_>>(), ["partials/a.j2"]);
}

#[test]
fn a_block_opened_with_braces_can_be_closed_by_a_line_statement() {
    let d = Delimiters {
        line_statement_prefix: Some("#".into()),
        ..Delimiters::default()
    };
    let src = "{% if x %}
body
# endif
";
    assert!(references(src, &d).is_ok(), "{:?}", references(src, &d));
    let bare = references(src, &Delimiters::default());
    assert!(bare.is_err(), "the control no longer reproduces the false positive");
    assert!(bare.unwrap_err().msg.contains("endif"));
}

fn doc(src: &str) -> Vec<(Kind, String)> {
    document(src, &Delimiters::default())
        .expect("splits")
        .0
        .into_iter()
        .map(|b| (b.kind, b.inner.slice(src).to_string()))
        .collect()
}

fn header_err(src: &str) -> String {
    document(src, &Delimiters::default()).expect_err("must be refused").msg
}

const VAR_HEADER: &str =
    "#jinja2: variable_start_string:\"[%\", variable_end_string:\"%]\"\n";
const BLOCK_HEADER: &str = "#jinja2: block_start_string:\"<%\", block_end_string:\"%>\"\n";

#[test]
fn a_jinja2_header_replaces_the_delimiters_it_names() {
    let src = format!("{VAR_HEADER}[% name %] and {{{{ not_a_var }}}}\n");
    assert_eq!(
        doc(&src),
        [
            (Kind::Expression, " name ".to_string()),
            (Kind::Data, " and {{ not_a_var }}\n".to_string()),
        ]
    );
    assert!(!doc(&src).iter().any(|(_, s)| s.contains("#jinja2")));
}

#[test]
fn an_overridden_block_delimiter_makes_a_stray_tag_ordinary_text() {
    let body = "<% if true %>yes<% endif %>{% notatag %}\n";
    let got = doc(&format!("{BLOCK_HEADER}{body}"));
    assert_eq!(got[0], (Kind::Statement, " if true ".to_string()));
    assert!(
        got.iter().any(|(k, s)| *k == Kind::Data && s.contains("{% notatag %}")),
        "{got:?}"
    );
    assert!(references(body, &Delimiters::default()).is_err());
}

#[test]
fn a_jinja2_header_below_the_first_line_is_ordinary_text() {
    let got = doc(&format!("\n{VAR_HEADER}[% name %]\n"));
    assert_eq!(got.len(), 1);
    assert_eq!(got[0].0, Kind::Data);
    assert!(got[0].1.contains("#jinja2"), "{got:?}");
    assert!(got[0].1.contains("[% name %]"), "the override never took effect: {got:?}");
}

#[test]
fn header_pairs_tolerate_the_spacing_ansible_tolerates() {
    for src in [
        "#jinja2: variable_start_string:\"[%\", variable_end_string:\"%]\"\n[% name %]\n",
        "#jinja2:variable_start_string:\"[%\" ,variable_end_string:\"%]\"\n[% name %]\n",
    ] {
        assert_eq!(doc(src)[0], (Kind::Expression, " name ".to_string()), "{src:?}");
    }
}

#[test]
fn every_measured_header_refusal_is_refused_with_ansibles_words() {
    for (src, want) in [
        ("#jinja2: nosuchkey:\"x\"\nhi\n", "Invalid '#jinja2:' override key 'nosuchkey'."),
        (
            "#jinja2: variable_start_string\"[%\"\nhi\n",
            "Missing key-value separator `:` in '#jinja2:' override pair \
             ' variable_start_string\"[%\"'.",
        ),
        (
            "#jinja2: variable_start_string:\"[%\", , variable_end_string:\"%]\"\nhi\n",
            "Empty '#jinja2:' override pair not allowed.",
        ),
        (
            "#jinja2: variable_start_string:\"{%\"\nhi\n",
            "Block, variable and comment start strings must be different.",
        ),
        (
            "#jinja2: variable_start_string:\"[%\"",
            "Missing newline after '#jinja2:' override.",
        ),
    ] {
        assert_eq!(header_err(src), want, "{src:?}");
    }
    for ok in [
        "#jinja2: variable_start_string:\"[%\"\nhi\n",
        "#jinja2: variable_start_string:\"[%\", variable_end_string:\"%]\"\nhi\n",
        "#jinja2: trim_blocks:False\nhi\n",
        "#jinja2: line_statement_prefix:\"#\"\nhi\n",
    ] {
        assert!(document(ok, &Delimiters::default()).is_ok(), "{ok:?}");
    }
}

#[test]
fn an_included_files_own_header_is_inert() {
    let src = format!("{VAR_HEADER}[% name %] and {{{{ name }}}}
");
    let src = src.as_str();
    let (bs, d) = document_in(src, &Delimiters::default(), true).expect("splits");
    assert_eq!(d.variable_start, "[%");
    assert_eq!(bs[0].kind, Kind::Expression);
    assert_eq!(bs[0].inner.slice(src), " name ");

    let (bs, d) = document_in(src, &Delimiters::default(), false).expect("splits");
    assert_eq!(d.variable_start, "{{");
    assert_eq!(bs[0].kind, Kind::Data);
    assert!(bs[0].inner.slice(src).contains("#jinja2"), "{:?}", bs[0].inner.slice(src));
    let live: Vec<&str> = bs
        .iter()
        .filter(|b| b.kind == Kind::Expression)
        .map(|b| b.inner.slice(src))
        .collect();
    assert_eq!(live, [" name "], "the `{{ }}` pair is the live one when inherited");
}

#[test]
fn a_header_does_not_shift_the_spans_of_the_body() {
    let src = format!("{VAR_HEADER}[% name %]\n");
    let (bs, _) = document(&src, &Delimiters::default()).expect("splits");
    let e = bs.iter().find(|b| b.kind == Kind::Expression).expect("one expression");
    assert_eq!(&src[e.span.start..e.span.end], "[% name %]");
    assert_eq!(src[..e.span.start].matches('\n').count(), 1, "line 2, not line 1");
}

#[test]
fn a_tag_inside_raw_is_text_and_not_a_statement() {
    assert_eq!(
        split("{% raw %}{% include 'x.j2' %}{% endraw %}tail"),
        [(Kind::Data, "{% include 'x.j2' %}".into()), (Kind::Data, "tail".into())]
    );
    assert_eq!(
        split("{% include 'x.j2' %}"),
        [(Kind::Statement, " include 'x.j2' ".into())]
    );
}

#[test]
fn a_tag_inside_a_comment_is_text() {
    assert_eq!(
        split("{# {% include 'x.j2' %} #}"),
        [(Kind::Comment, " {% include 'x.j2' %} ".into())]
    );
}

#[test]
fn an_end_delimiter_inside_a_string_does_not_close_the_tag() {
    for src in ["{% if x == '%}' %}ok{% endif %}", "{% if x == \"%}\" %}ok{% endif %}"] {
        let got = split(src);
        assert_eq!(got.len(), 3, "{src:?} -> {got:?}");
        assert_eq!(got[0].0, Kind::Statement);
        assert!(got[0].1.contains("=="), "{src:?}: {:?}", got[0].1);
        assert_eq!(got[1], (Kind::Data, "ok".into()));
    }
    assert_eq!(split("{{ '}}' }}"), [(Kind::Expression, " '}}' ".into())]);
}

#[test]
fn an_end_delimiter_inside_brackets_does_not_close_the_tag() {
    assert_eq!(split("{{ {'a': 1} }}"), [(Kind::Expression, " {'a': 1} ".into())]);
    assert_eq!(
        split("{{ f(a, [1, 2], {'k': 'v'}) }}"),
        [(Kind::Expression, " f(a, [1, 2], {'k': 'v'}) ".into())]
    );
}

#[test]
fn whitespace_control_moves_the_data_boundaries() {
    assert_eq!(
        split("a  {%- if x -%}  b  {%- endif -%}  c"),
        [
            (Kind::Data, "a".into()),
            (Kind::Statement, " if x ".into()),
            (Kind::Data, "b".into()),
            (Kind::Statement, " endif ".into()),
            (Kind::Data, "c".into()),
        ]
    );
    assert_eq!(
        split("a  {% if x %}  b  {% endif %}  c"),
        [
            (Kind::Data, "a  ".into()),
            (Kind::Statement, " if x ".into()),
            (Kind::Data, "  b  ".into()),
            (Kind::Statement, " endif ".into()),
            (Kind::Data, "  c".into()),
        ]
    );
}

#[test]
fn a_stray_block_open_inside_a_raw_body_is_data() {
    assert_eq!(
        split("{% raw %}plain {%s} text{% endraw %}"),
        [(Kind::Data, "plain {%s} text".into())]
    );
    assert_eq!(
        split(r#"{% raw %}printf "x{%s} %.0f\n", s["k"]{% endraw %}"#),
        [(Kind::Data, r#"printf "x{%s} %.0f\n", s["k"]"#.into())]
    );
    assert_eq!(err("{% raw %}plain {%s} text").msg, "Missing end of raw directive");
    assert_eq!(split("a {% raw %} {%s} {%- endraw %} b")[0].1, "a ");
    assert_eq!(split("a {% raw %} {%s} {%- endraw %} b")[1].1, " {%s}");
    assert_eq!(split("a {% raw %} {%s} {% endraw -%} b")[2].1, "b");
}

#[test]
fn the_markers_are_not_part_of_the_tag_body() {
    assert_eq!(split("{%- if x -%}{%- endif -%}")[0].1, " if x ");
    assert_eq!(split("a {{- x -}} b")[1].1, " x ");
    assert_eq!(split("a {#- c -#} b")[1].1, " c ");
}

#[test]
fn a_template_that_cannot_render_is_refused() {
    assert_eq!(err("{# unclosed").msg, "Missing end of comment tag");
    assert_eq!(err("{% raw %}a").msg, "Missing end of raw directive");
    assert!(err("{{ x").msg.contains("end of print statement"));
    assert!(err("{% if x ").msg.contains("end of statement block"));
    for ok in ["{# c #}", "{% raw %}a{% endraw %}", "{{ x }}", "{% if x %}"] {
        assert!(blocks(ok, &Delimiters::default()).is_ok(), "{ok:?}");
    }
}

#[test]
fn delimiters_are_configuration_not_constants() {
    let d = Delimiters {
        variable_start: "[[".into(),
        variable_end: "]]".into(),
        ..Delimiters::default()
    };
    let src = "custom [[ name ]] and {{ not_a_var }}";
    let got: Vec<_> = blocks(src, &d)
        .expect("splits")
        .into_iter()
        .map(|b| (b.kind, b.inner.slice(src).to_string()))
        .collect();
    assert_eq!(
        got,
        [
            (Kind::Data, "custom ".into()),
            (Kind::Expression, " name ".into()),
            (Kind::Data, " and {{ not_a_var }}".into()),
        ]
    );
}

#[test]
fn the_longest_delimiter_wins_when_two_could_match() {
    let d = Delimiters {
        block_start: "{".into(),
        block_end: "}".into(),
        variable_start: "{{".into(),
        variable_end: "}}".into(),
        ..Delimiters::default()
    };
    let src = "{{ x }}";
    let got: Vec<_> = blocks(src, &d).expect("splits").into_iter().map(|b| b.kind).collect();
    assert_eq!(got, [Kind::Expression]);
}

/// What is left out between blocks: the tags of a raw body, and blanks beside a `-`.
fn gaps(src: &str) -> Vec<String> {
    let mut out = Vec::new();
    let mut at = 0;
    for b in blocks(src, &Delimiters::default()).expect("splits") {
        assert!(b.span.start >= at, "blocks overlap in {src:?}");
        if b.span.start > at {
            out.push(src[at..b.span.start].to_string());
        }
        at = b.span.end;
    }
    out
}

#[test]
fn only_raw_tags_and_marked_blanks_are_left_out() {
    assert!(gaps("a {% if x %} b {{ y }} {# c #} {% endif %} d").is_empty());
    assert_eq!(gaps("a {%- if x -%} b"), [" ", " "]);
    assert_eq!(gaps("{% raw %}x{% endraw %}y"), ["{% raw %}", "{% endraw %}"]);
}

#[test]
fn a_line_statement_takes_its_line() {
    let d = Delimiters {
        line_statement_prefix: Some("#".into()),
        line_comment_prefix: Some("##".into()),
        ..Delimiters::default()
    };
    let src = "a\n# if x:\nb ## note\n# endif\nc";
    let got: Vec<(Kind, &str)> =
        blocks(src, &d).expect("splits").iter().map(|b| (b.kind, b.inner.slice(src))).collect();
    assert_eq!(got[0], (Kind::Data, "a\n"));
    assert_eq!(got[1].0, Kind::Statement);
    assert!(got[1].1.contains("if x"), "{got:?}");
    assert!(got.iter().any(|(k, s)| *k == Kind::Comment && s.contains("note")), "{got:?}");
    assert!(got.iter().any(|(k, s)| *k == Kind::Statement && s.contains("endif")), "{got:?}");
}

#[test]
fn the_name_of_a_tag_is_its_first_word() {
    assert_eq!(tag_name(" if x "), Some("if"));
    assert_eq!(tag_name("- include 'a'"), Some("include"));
    assert_eq!(tag_name("   "), None);
}

#[test]
fn blocks_can_be_read_from_further_on() {
    let src = "{{ a }}{{ b }}";
    let got: Vec<Block> = blocks_from(src, &Delimiters::default(), 7).expect("splits");
    assert_eq!(got.len(), 1);
    assert_eq!(got[0].inner.slice(src), " b ");
}

#[test]
fn a_header_says_where_the_body_begins() {
    let h = header("#jinja2: trim_blocks:True\nbody", &Delimiters::default()).expect("reads");
    assert_eq!(h.body, 26);
    assert_eq!(h.delimiters, Delimiters::default());
    let none = header("body", &Delimiters::default()).expect("reads");
    assert_eq!(none.body, 0);
}

#[test]
fn a_refusal_points_at_its_opener() {
    let src = "text {# open";
    assert_eq!(err(src).span.start, 5);
    let src = "é {{ x";
    assert!(err(src).span.end <= src.len());
}
