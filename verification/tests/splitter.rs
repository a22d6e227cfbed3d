//! The `k=v` splitter.

use ansible_core::splitter::{join_args, parse_kv, sort_tokens, split_args, unescape, unquote, ParsedKv};

fn kv(s: &str) -> ParsedKv {
    parse_kv(s, false).expect("balanced")
}

#[test]
fn kv_options_and_quoted_values() {
    let p = kv(r#"a=b c="foo bar""#);
    assert_eq!(p.get("a"), Some("b"));
    assert_eq!(p.get("c"), Some("foo bar"));
    assert_eq!(p.raw_params, None);
}

#[test]
fn bare_tokens_join_into_raw_params() {
    let p = kv("x.yml name=db");
    assert_eq!(p.raw_params.as_deref(), Some("x.yml"));
    assert_eq!(p.get("name"), Some("db"));
}

#[test]
fn jinja_blocks_are_not_split() {
    let p = kv("dest={{ base + '/x' }} mode=0644");
    assert_eq!(p.get("dest"), Some("{{ base + '/x' }}"));
    assert_eq!(p.get("mode"), Some("0644"));
}

#[test]
fn consecutive_spaces_survive_in_raw_params() {
    let p = kv("echo  hi");
    assert_eq!(p.raw_params.as_deref(), Some("echo  hi"));
}

#[test]
fn check_raw_keeps_command_equals_raw_but_takes_shell_options() {
    let p = parse_kv("echo a=b creates=/tmp/x", true).unwrap();
    assert_eq!(p.raw_params.as_deref(), Some("echo a=b"));
    assert_eq!(p.get("creates"), Some("/tmp/x"));
}

#[test]
fn escaped_equals_token_is_raw_and_unescaped() {
    let p = kv(r"a\=b");
    assert_eq!(p.raw_params.as_deref(), Some("a=b"));
    assert!(p.options.is_empty());
}

#[test]
fn leading_equals_is_raw() {
    assert_eq!(kv("=foo").raw_params.as_deref(), Some("=foo"));
}

#[test]
fn value_containing_equals_splits_at_the_first() {
    let p = kv("vars/we=ird.yml");
    assert_eq!(p.get("vars/we"), Some("ird.yml"));
    assert_eq!(p.raw_params, None);
}

#[test]
fn quoting_does_not_protect_an_equals() {
    let p = kv("'we=ird.yml'");
    assert_eq!(p.get("'we"), Some("ird.yml'"));
}

#[test]
fn duplicate_keys_last_wins() {
    assert_eq!(kv("a=1 a=2").get("a"), Some("2"));
}

#[test]
fn unbalanced_quote_is_an_error() {
    assert!(parse_kv(r#"a="unclosed"#, false).is_err());
    assert!(parse_kv("x={{ open", false).is_err());
}

#[test]
fn escapes_decode_in_values() {
    assert_eq!(kv(r"msg=a\tb").get("msg"), Some("a\tb"));
}

const SPLIT_DATA: &[(&str, &[&str], &[(&str, &str)], Option<&str>)] = &[
    ("", &[], &[], None),
    ("a", &["a"], &[], Some("a")),
    ("a=b", &["a=b"], &[("a", "b")], None),
    ("a=\"foo bar\"", &["a=\"foo bar\""], &[("a", "foo bar")], None),
    ("\"foo bar baz\"", &["\"foo bar baz\""], &[], Some("\"foo bar baz\"")),
    ("foo bar baz", &["foo", "bar", "baz"], &[], Some("foo bar baz")),
    ("a=b c=\"foo bar\"", &["a=b", "c=\"foo bar\""], &[("a", "b"), ("c", "foo bar")], None),
    ("a=\"echo \\\"hello world\\\"\" b=bar",
        &["a=\"echo \\\"hello world\\\"\"", "b=bar"],
        &[("a", "echo \"hello world\""), ("b", "bar")], None),
    ("a=\"nest'ed\"", &["a=\"nest'ed\""], &[("a", "nest'ed")], None),
    (" ", &[" "], &[], Some(" ")),
    ("\\ ", &[" "], &[], Some(" ")),
    ("a\\=escaped", &["a\\=escaped"], &[], Some("a=escaped")),
    ("a=\"multi\nline\"", &["a=\"multi\nline\""], &[("a", "multi\nline")], None),
    ("a=\"blank\n\nline\"", &["a=\"blank\n\nline\""], &[("a", "blank\n\nline")], None),
    ("a=\"blank\n\n\nlines\"", &["a=\"blank\n\n\nlines\""], &[("a", "blank\n\n\nlines")], None),
    ("a=\"a long\nmessage\\\nabout a thing\n\"",
        &["a=\"a long\nmessage\\\nabout a thing\n\""],
        &[("a", "a long\nmessage\\\nabout a thing\n")], None),
    ("a=\"multiline\nmessage1\\\n\" b=\"multiline\nmessage2\\\n\"",
        &["a=\"multiline\nmessage1\\\n\"", "b=\"multiline\nmessage2\\\n\""],
        &[("a", "multiline\nmessage1\\\n"), ("b", "multiline\nmessage2\\\n")], None),
    ("line \\\ncontinuation", &["line", "continuation"], &[], Some("line continuation")),
    ("not jinja}}", &["not", "jinja}}"], &[], Some("not jinja}}")),
    ("a={{multiline\njinja}}", &["a={{multiline\njinja}}"], &[("a", "{{multiline\njinja}}")], None),
    ("a={{jinja}}", &["a={{jinja}}"], &[("a", "{{jinja}}")], None),
    ("a={{ jinja }}", &["a={{ jinja }}"], &[("a", "{{ jinja }}")], None),
    ("a={% jinja %}", &["a={% jinja %}"], &[("a", "{% jinja %}")], None),
    ("a={# jinja #}", &["a={# jinja #}"], &[("a", "{# jinja #}")], None),
    ("a=\"{{jinja}}\"", &["a=\"{{jinja}}\""], &[("a", "{{jinja}}")], None),
    ("a={{ jinja }}{{jinja2}}", &["a={{ jinja }}{{jinja2}}"], &[("a", "{{ jinja }}{{jinja2}}")], None),
    ("a=\"{{ jinja }}{{jinja2}}\"", &["a=\"{{ jinja }}{{jinja2}}\""], &[("a", "{{ jinja }}{{jinja2}}")], None),
    ("a={{jinja}} b={{jinja2}}", &["a={{jinja}}", "b={{jinja2}}"], &[("a", "{{jinja}}"), ("b", "{{jinja2}}")], None),
    ("a=\"{{jinja}}\n\" b=\"{{jinja2}}\n\"",
        &["a=\"{{jinja}}\n\"", "b=\"{{jinja2}}\n\""],
        &[("a", "{{jinja}}\n"), ("b", "{{jinja2}}\n")], None),
    ("a=\"café eñyei\"", &["a=\"café eñyei\""], &[("a", "café eñyei")], None),
    ("a=café b=eñyei", &["a=café", "b=eñyei"], &[("a", "café"), ("b", "eñyei")], None),
    ("a={{ foo | some_filter(' ', \" \") }} b=bar",
        &["a={{ foo | some_filter(' ', \" \") }}", "b=bar"],
        &[("a", "{{ foo | some_filter(' ', \" \") }}"), ("b", "bar")], None),
    ("One\n  Two\n    Three\n",
        &["One\n ", "Two\n   ", "Three\n"],
        &[], Some("One\n  Two\n    Three\n")),
    ("\nOne\n  Two\n    Three\n",
        &["\n", "One\n ", "Two\n   ", "Three\n"],
        &[], Some("\nOne\n  Two\n    Three\n")),
];

#[test]
fn ansible_upstream_split_data() {
    for (input, split, options, raw) in SPLIT_DATA {
        assert_eq!(&split_args(input).unwrap(), split, "split_args({input:?})");
        let p = parse_kv(input, false).unwrap();
        let want: Vec<(String, String)> =
            options.iter().map(|(k, v)| (k.to_string(), v.to_string())).collect();
        assert_eq!(p.options, want, "parse_kv({input:?}) options");
        assert_eq!(p.raw_params.as_deref(), *raw, "parse_kv({input:?}) raw");
    }
}

#[test]
fn ansible_upstream_check_raw_table() {
    let p = parse_kv("raw=yes", true).unwrap();
    assert_eq!(p.raw_params.as_deref(), Some("raw=yes"));
    assert!(p.options.is_empty());
    let p = parse_kv("creates=something", true).unwrap();
    assert_eq!(p.get("creates"), Some("something"));
    assert_eq!(p.raw_params, None);
}

#[test]
fn ansible_upstream_parser_errors() {
    for input in ["\"", "'", "{{", "{%", "{#"] {
        assert!(split_args(input).is_err(), "split_args({input:?}) should error");
        assert!(parse_kv(input, false).is_err(), "parse_kv({input:?}) should error");
    }
}

#[test]
fn an_escape_decodes_by_itself() {
    assert_eq!(unescape("\\n"), "\n");
    assert_eq!(unescape("\\x41"), "A");
    assert_eq!(unescape("\\u2668"), "\u{2668}");
    assert_eq!(unescape("\\q"), "\\q");
}

#[test]
fn only_a_matching_pair_of_quotes_is_taken_off() {
    assert_eq!(unquote("'a b'"), "a b");
    assert_eq!(unquote("\"a\""), "a");
    assert_eq!(unquote("'a\""), "'a\"");
    assert_eq!(unquote("'"), "'");
    assert_eq!(unquote("'a\\'"), "'a\\'");
}

#[test]
fn joining_undoes_splitting() {
    for args in ["a b c", "a=b  c", "x\n  y", "{{ a }} b"] {
        assert_eq!(join_args(&split_args(args).expect("balanced")), args);
    }
}

#[test]
fn tokens_sort_into_options_and_the_rest() {
    let tokens: Vec<String> = ["k=v", "rest", "chdir=/x", "k=w"].iter().map(|s| s.to_string()).collect();
    let plain = sort_tokens(&tokens, false);
    assert_eq!(plain.get("k"), Some("w"));
    assert_eq!(plain.get("chdir"), Some("/x"));
    assert_eq!(plain.raw_params.as_deref(), Some("rest"));
    let raw = sort_tokens(&tokens, true);
    assert_eq!(raw.get("k"), None);
    assert_eq!(raw.get("chdir"), Some("/x"));
    assert_eq!(raw.raw_params.as_deref(), Some("k=v rest k=w"));
}

#[test]
fn nothing_is_the_default() {
    assert_eq!(ParsedKv::default(), kv(""));
}
