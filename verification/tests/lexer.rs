//! The expression tokeniser.

use ansible_core::jinja::lexer::{
    float_text, int_value, scan_float, scan_int, scan_name, scan_operator, scan_string,
    string_value, tokens, Error, Kind,
};
use ansible_core::parse::Span;

fn lex(src: &str) -> Result<Vec<(Kind, &str)>, Error> {
    let toks = tokens(src)?;
    assert_eq!(toks.last().map(|t| t.kind), Some(Kind::Eof), "always terminated");
    Ok(toks[..toks.len() - 1].iter().map(|t| (t.kind, t.span.slice(src))).collect())
}

fn kinds(src: &str) -> Vec<Kind> {
    lex(src).expect("lexes").into_iter().map(|(k, _)| k).collect()
}

fn err(src: &str) -> Error {
    lex(src).expect_err("must not lex")
}

#[test]
fn every_operator_in_upstream_s_table_lexes_to_its_own_kind() {
    let expected: &[(&str, Kind)] = &[
        ("+", Kind::Add),
        ("-", Kind::Sub),
        ("/", Kind::Div),
        ("//", Kind::FloorDiv),
        ("*", Kind::Mul),
        ("%", Kind::Mod),
        ("**", Kind::Pow),
        ("~", Kind::Tilde),
        ("[", Kind::Lbracket),
        ("]", Kind::Rbracket),
        ("(", Kind::Lparen),
        (")", Kind::Rparen),
        ("{", Kind::Lbrace),
        ("}", Kind::Rbrace),
        ("==", Kind::Eq),
        ("!=", Kind::Ne),
        (">", Kind::Gt),
        (">=", Kind::Gteq),
        ("<", Kind::Lt),
        ("<=", Kind::Lteq),
        ("=", Kind::Assign),
        (".", Kind::Dot),
        (":", Kind::Colon),
        ("|", Kind::Pipe),
        (",", Kind::Comma),
        (";", Kind::Semicolon),
    ];
    assert_eq!(expected.len(), 26);
    for (text, kind) in expected {
        assert_eq!(kinds(text), vec![*kind], "{text}");
    }
}

#[test]
fn two_character_operators_win_over_their_prefixes() {
    assert_eq!(kinds("a//b"), vec![Kind::Name, Kind::FloorDiv, Kind::Name]);
    assert_eq!(kinds("a**b"), vec![Kind::Name, Kind::Pow, Kind::Name]);
    assert_eq!(kinds("a!=b"), vec![Kind::Name, Kind::Ne, Kind::Name]);
    assert_eq!(kinds("a>=b"), vec![Kind::Name, Kind::Gteq, Kind::Name]);
    assert_eq!(kinds("a<=b"), vec![Kind::Name, Kind::Lteq, Kind::Name]);
    assert_eq!(kinds("a==b"), vec![Kind::Name, Kind::Eq, Kind::Name]);
}

#[test]
fn a_lone_bang_is_not_an_operator() {
    assert_eq!(err("!x").msg, "unexpected char '!'");
    assert_eq!(err("a@b").span, Span { start: 1, end: 2 });
}

#[test]
fn spacing_cannot_change_the_token_stream() {
    assert_eq!(kinds("hosts|length>0"), kinds("hosts | length > 0"));
    assert_eq!(kinds("a if b else c"), kinds("a\tif\nb  else\r\nc"));
}

#[test]
fn spans_are_byte_ranges_into_the_source() {
    let src = "  hosts | length ";
    let t = tokens(src).expect("lexes");
    assert_eq!(t[0].span.slice(src), "hosts");
    assert_eq!(t[0].span, Span { start: 2, end: 7 });
    assert_eq!(t[2].span.slice(src), "length");
    assert_eq!(t.last().unwrap().span, Span { start: src.len(), end: src.len() });
}

#[test]
fn spans_survive_non_ascii_earlier_in_the_expression() {
    let src = "'♨' ~ tail";
    let t = tokens(src).expect("lexes");
    assert_eq!(t[2].span.slice(src), "tail");
}

#[test]
fn integer_literals_match_upstream() {
    for (src, want) in [
        ("0", vec![(Kind::Int, "0")]),
        ("0b1010", vec![(Kind::Int, "0b1010")]),
        ("0o17", vec![(Kind::Int, "0o17")]),
        ("0xff", vec![(Kind::Int, "0xff")]),
        ("0B1010", vec![(Kind::Int, "0B1010")]),
        ("0XFF", vec![(Kind::Int, "0XFF")]),
        ("1_000", vec![(Kind::Int, "1_000")]),
        ("1_0", vec![(Kind::Int, "1_0")]),
        ("0_0", vec![(Kind::Int, "0_0")]),
        ("01", vec![(Kind::Int, "0"), (Kind::Int, "1")]),
        ("007", vec![(Kind::Int, "00"), (Kind::Int, "7")]),
        ("00", vec![(Kind::Int, "00")]),
        ("1__0", vec![(Kind::Int, "1"), (Kind::Name, "__0")]),
        ("1_000_", vec![(Kind::Int, "1_000"), (Kind::Name, "_")]),
        ("0b2", vec![(Kind::Int, "0"), (Kind::Name, "b2")]),
        ("0b_1", vec![(Kind::Int, "0b_1")]),
        ("0x_ff", vec![(Kind::Int, "0x_ff")]),
        ("0o_17", vec![(Kind::Int, "0o_17")]),
        ("0b1_0", vec![(Kind::Int, "0b1_0")]),
        ("0x_", vec![(Kind::Int, "0"), (Kind::Name, "x_")]),
    ] {
        assert_eq!(lex(src).expect("lexes"), want, "{src}");
    }
}

#[test]
fn float_literals_match_upstream() {
    for (src, want) in [
        ("1.5", vec![(Kind::Float, "1.5")]),
        ("1_0.0_1", vec![(Kind::Float, "1_0.0_1")]),
        ("5.0_1", vec![(Kind::Float, "5.0_1")]),
        ("2e3", vec![(Kind::Float, "2e3")]),
        ("1e-3", vec![(Kind::Float, "1e-3")]),
        ("1.5e2", vec![(Kind::Float, "1.5e2")]),
        ("1.5e", vec![(Kind::Float, "1.5"), (Kind::Name, "e")]),
        ("1.", vec![(Kind::Int, "1"), (Kind::Dot, ".")]),
        ("1.e3", vec![(Kind::Int, "1"), (Kind::Dot, "."), (Kind::Name, "e3")]),
        (".5", vec![(Kind::Dot, "."), (Kind::Int, "5")]),
    ] {
        assert_eq!(lex(src).expect("lexes"), want, "{src}");
    }
}

#[test]
fn a_float_shaped_tail_after_a_dot_is_still_an_accessor() {
    assert_eq!(
        lex("foo.5e3").expect("lexes"),
        vec![(Kind::Name, "foo"), (Kind::Dot, "."), (Kind::Int, "5"), (Kind::Name, "e3")]
    );
    assert_eq!(
        lex("foo.5.5").expect("lexes"),
        vec![
            (Kind::Name, "foo"), (Kind::Dot, "."), (Kind::Int, "5"),
            (Kind::Dot, "."), (Kind::Int, "5")
        ]
    );
    assert_eq!(
        lex("r.results[0].5e3").expect("lexes"),
        vec![
            (Kind::Name, "r"), (Kind::Dot, "."), (Kind::Name, "results"),
            (Kind::Lbracket, "["), (Kind::Int, "0"), (Kind::Rbracket, "]"),
            (Kind::Dot, "."), (Kind::Int, "5"), (Kind::Name, "e3")
        ]
    );
    assert_eq!(
        lex("foo.5").expect("lexes"),
        vec![(Kind::Name, "foo"), (Kind::Dot, "."), (Kind::Int, "5")]
    );
}

#[test]
fn numeric_values_decode() {
    let cases: &[(&str, i64)] = &[
        ("0", 0),
        ("0b1010", 10),
        ("0o17", 15),
        ("0xff", 255),
        ("0XFF", 255),
        ("1_000", 1000),
        ("1_0", 10),
    ];
    for (src, want) in cases {
        let t = tokens(src).expect("lexes");
        assert_eq!(int_value(src, t[0].span).expect("decodes"), *want, "{src}");
    }
    for (src, want) in [("1.5", 1.5), ("1_0.0_1", 10.01), ("2e3", 2000.0), ("1e-3", 0.001)] {
        let t = tokens(src).expect("lexes");
        assert_eq!(float_text(src, t[0].span).parse::<f64>().expect("decodes"), want, "{src}");
    }
}

#[test]
fn an_integer_too_large_for_i64_is_refused_not_wrapped() {
    let src = "99999999999999999999";
    let t = tokens(src).expect("lexes");
    assert!(int_value(src, t[0].span).is_err());
}

#[test]
fn both_quote_styles_lex() {
    assert_eq!(lex("'a'").expect("lexes"), vec![(Kind::Str, "'a'")]);
    assert_eq!(lex("\"d\"").expect("lexes"), vec![(Kind::Str, "\"d\"")]);
}

#[test]
fn adjacent_strings_are_two_tokens() {
    assert_eq!(
        lex("'a' 'b'").expect("lexes"),
        vec![(Kind::Str, "'a'"), (Kind::Str, "'b'")]
    );
}

#[test]
fn operators_and_delimiters_inside_a_string_are_text() {
    for src in ["'a|b'", "'%}'", "'a > 0'", "'{{'"] {
        assert_eq!(lex(src).expect("lexes"), vec![(Kind::Str, src)], "{src}");
    }
}

#[test]
fn an_escaped_quote_does_not_end_the_string() {
    assert_eq!(lex(r"'it\'s'").expect("lexes"), vec![(Kind::Str, r"'it\'s'")]);
    assert_eq!(lex(r#""a\"b""#).expect("lexes"), vec![(Kind::Str, r#""a\"b""#)]);
}

#[test]
fn a_raw_newline_inside_a_string_is_content() {
    assert_eq!(lex("'a\nb'").expect("lexes"), vec![(Kind::Str, "'a\nb'")]);
}

#[test]
fn an_unterminated_string_is_reported_at_its_opening_quote() {
    let e = err("'unterminated");
    assert_eq!(e.msg, "unexpected char '\\''");
    assert_eq!(e.span, Span { start: 0, end: 1 });
}

#[test]
fn string_escapes_decode_as_python_does() {
    let cases: &[(&str, &str)] = &[
        (r"'a\nb'", "a\nb"),
        (r"'a\tb'", "a\tb"),
        (r"'a\rb'", "a\rb"),
        (r"'a\\b'", r"a\b"),
        (r"'it\'s'", "it's"),
        (r#""a\"b""#, "a\"b"),
        (r"'\x41'", "A"),
        (r"'\101'", "A"),
        (r"'\0'", "\0"),
        (r"'♨'", "\u{2668}"),
        (r"'\U0001f40d'", "\u{1f40d}"),
        ("'a♨b'", "a♨b"),
        (r"'a\qb'", r"a\qb"),
        ("'a\\\nb'", "ab"),
    ];
    for (src, want) in cases {
        let t = tokens(src).expect("lexes");
        assert_eq!(string_value(src, t[0].span).expect("decodes"), *want, "{src}");
    }
}

#[test]
fn raw_carriage_returns_normalize_but_the_escape_does_not() {
    for src in ["'a\r\nb'", "'a\rb'"] {
        let t = tokens(src).expect("lexes");
        assert_eq!(string_value(src, t[0].span).expect("decodes"), "a\nb", "{src:?}");
    }
    let src = r"'a\rb'";
    let t = tokens(src).expect("lexes");
    assert_eq!(string_value(src, t[0].span).expect("decodes"), "a\rb");
}

#[test]
fn the_control_character_escapes_decode() {
    for (src, want) in
        [(r"'\a'", '\u{7}'), (r"'\b'", '\u{8}'), (r"'\f'", '\u{c}'), (r"'\v'", '\u{b}')]
    {
        let t = tokens(src).expect("lexes");
        assert_eq!(string_value(src, t[0].span).expect("decodes"), want.to_string(), "{src}");
    }
}

#[test]
fn a_backslash_before_any_line_ending_is_a_continuation() {
    for src in ["'a\\\nb'", "'a\\\r\nb'", "'a\\\rb'"] {
        let t = tokens(src).expect("lexes");
        assert_eq!(string_value(src, t[0].span).expect("decodes"), "ab", "{src:?}");
    }
}

#[test]
fn octal_escapes_stop_at_three_digits_and_at_the_digit_eight() {
    for (src, want) in [(r"'\777'", "\u{1ff}"), (r"'\8'", r"\8"), (r"'\1010'", "A0")] {
        let t = tokens(src).expect("lexes");
        assert_eq!(string_value(src, t[0].span).expect("decodes"), want, "{src}");
    }
}

#[test]
fn a_codepoint_outside_unicode_is_refused() {
    let src = r"'\U00110000'";
    let t = tokens(src).expect("lexes");
    assert_eq!(
        string_value(src, t[0].span).expect_err("decode fails").msg,
        "invalid \\UXXXXXXXX escape"
    );
}

#[test]
fn a_lone_surrogate_is_refused_where_python_keeps_it() {
    let src = r"'\ud800'";
    let t = tokens(src).expect("lexes");
    assert!(string_value(src, t[0].span).is_err());
}

#[test]
fn hex_escapes_of_every_width_decode_or_refuse() {
    for (src, want) in
        [(r"'\x41'", "A"), (r"'\u0041'", "A"), (r"'\U00000041'", "A"), (r"'A'", "A")]
    {
        let t = tokens(src).expect("lexes");
        assert_eq!(string_value(src, t[0].span).expect("decodes"), want, "{src}");
    }
    for (src, label) in
        [(r"'\x'", "\\xXX"), (r"'\x4'", "\\xXX"), (r"'\u26'", "\\uXXXX"), (r"'\U0001'", "\\UXXXXXXXX")]
    {
        let t = tokens(src).expect("lexes");
        assert_eq!(
            string_value(src, t[0].span).expect_err("decode fails").msg,
            format!("truncated {label} escape"),
            "{src}"
        );
    }
}

#[test]
fn a_named_unicode_escape_is_refused_not_guessed() {
    let src = r"'\N{HOT SPRINGS}'";
    let t = tokens(src).expect("lexes");
    assert!(string_value(src, t[0].span).is_err());
}

#[test]
fn the_upstream_identifier_table_at_the_lexer_level() {
    for src in ["foo", "föö", "き", "_", "ansible_facts", "\u{1885}", "\u{1886}", "\u{2118}", "\u{212e}"] {
        assert_eq!(lex(src).expect("lexes"), vec![(Kind::Name, src)], "{src}");
    }
    assert_eq!(lex("1a").expect("lexes"), vec![(Kind::Int, "1"), (Kind::Name, "a")]);
    assert_eq!(lex("a-").expect("lexes"), vec![(Kind::Name, "a"), (Kind::Sub, "-")]);
    assert_eq!(lex("a\u{b7}").expect("lexes"), vec![(Kind::Name, "a\u{b7}")]);
    assert!(lex("\u{b7}").is_err());
    assert!(lex("\u{1f40d}a").is_err());
    assert!(lex("a\u{1f40d}").is_err());
}

#[test]
fn keywords_are_ordinary_names() {
    for src in ["true", "false", "none", "and", "or", "not", "in", "is", "if", "else"] {
        assert_eq!(lex(src).expect("lexes"), vec![(Kind::Name, src)], "{src}");
    }
    assert_eq!(kinds("not in"), vec![Kind::Name, Kind::Name]);
}

#[test]
fn the_expressions_this_ticket_exists_for_tokenise() {
    assert_eq!(
        kinds("r.stdout | length > 0"),
        vec![Kind::Name, Kind::Dot, Kind::Name, Kind::Pipe, Kind::Name, Kind::Gt, Kind::Int]
    );
    assert_eq!(
        kinds("not (skip_x | default(false) | bool)"),
        vec![
            Kind::Name, Kind::Lparen, Kind::Name, Kind::Pipe, Kind::Name, Kind::Lparen,
            Kind::Name, Kind::Rparen, Kind::Pipe, Kind::Name, Kind::Rparen
        ]
    );
    assert_eq!(
        kinds("r.results[0].stdout"),
        vec![
            Kind::Name, Kind::Dot, Kind::Name, Kind::Lbracket, Kind::Int, Kind::Rbracket,
            Kind::Dot, Kind::Name
        ]
    );
    assert_eq!(
        kinds("mode in ['a', 'b']"),
        vec![Kind::Name, Kind::Name, Kind::Lbracket, Kind::Str, Kind::Comma, Kind::Str, Kind::Rbracket]
    );
    assert_eq!(kinds("x is not defined"), vec![Kind::Name; 4]);
}

#[test]
fn containers_and_slices_tokenise() {
    assert_eq!(
        kinds("{'k': [1, 2]}"),
        vec![
            Kind::Lbrace, Kind::Str, Kind::Colon, Kind::Lbracket, Kind::Int, Kind::Comma,
            Kind::Int, Kind::Rbracket, Kind::Rbrace
        ]
    );
    assert_eq!(
        kinds("xs[1:2:-1]"),
        vec![
            Kind::Name, Kind::Lbracket, Kind::Int, Kind::Colon, Kind::Int, Kind::Colon,
            Kind::Sub, Kind::Int, Kind::Rbracket
        ]
    );
}

#[test]
fn an_empty_expression_is_just_eof() {
    assert_eq!(tokens("").expect("lexes").len(), 1);
    assert_eq!(tokens("   ").expect("lexes")[0].kind, Kind::Eof);
}

#[test]
fn a_scanner_at_the_end_of_input_declines() {
    assert_eq!(scan_int(b"", 0), None);
    assert_eq!(scan_int(b"x", 1), None);
    assert_eq!(scan_float(b"", 0), None);
    assert_eq!(scan_string(b"", 0), None);
    assert_eq!(scan_name(b"", 0), None);
    assert_eq!(scan_operator(b"", 0), None);
}

#[test]
fn the_numeric_decoders_refuse_a_span_that_is_not_theirs() {
    let src = "name";
    let span = Span { start: 0, end: 4 };
    assert!(float_text(src, span).parse::<f64>().is_err());
    assert!(int_value(src, span).is_err());
}

#[test]
fn a_body_ending_in_a_backslash_keeps_it_rather_than_overrunning() {
    let src = r"'a\'";
    assert_eq!(scan_string(src.as_bytes(), 0), None, "not a token in the first place");
    assert_eq!(string_value(src, Span { start: 0, end: 4 }).expect("decodes"), "a\\");
}

#[test]
fn delimiters_are_not_special_in_this_state() {
    assert_eq!(kinds("}}"), vec![Kind::Rbrace, Kind::Rbrace]);
    assert_eq!(kinds("{%"), vec![Kind::Lbrace, Kind::Mod]);
}
