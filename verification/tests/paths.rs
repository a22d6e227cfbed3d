//! Paths, their order, and the small texts that everything else is made of.

use ansible_core::fs::{find_answer, is_among, Fs, Listing};
use ansible_core::order::{insert_text, is_less, is_path_less};
use ansible_core::paths::{
    is_absolute, is_path_among, is_same_path, join, list_parts, normalise, parent, posix_display, split,
};
use ansible_core::resolve::RoleExts;
use ansible_core::reverse::canon;
use ansible_core::text::{
    char_at, chars_at, chars_find, contains, encoded_len, find_byte_or, find_bytes_from,
    from_chars, has_bytes_at, hex_digit_value, is_suffix, is_white, plain_escape, skip_white,
    starts_with, str_eq, strip_prefix, to_chars, trimmed_len,
};

fn strings(v: &[&str]) -> Vec<String> {
    v.iter().map(|s| s.to_string()).collect()
}

#[test]
fn an_absolute_path_stands_for_itself() {
    assert!(is_absolute("/a"));
    assert!(!is_absolute("a/b"));
    assert!(!is_absolute(""));
    assert_eq!(join("/base", "/abs/x.yml"), "/abs/x.yml");
}

#[test]
fn joining_puts_one_separator_between() {
    assert_eq!(join("/base", "x.yml"), "/base/x.yml");
    assert_eq!(join("/base/", "x.yml"), "/base/x.yml");
    assert_eq!(join("", "x.yml"), "x.yml");
    assert_eq!(join("/base", ""), "/base/");
}

#[test]
fn a_normal_path_has_no_dots() {
    assert_eq!(normalise("/a/./b//c/../d.yml"), "/a/b/d.yml");
    assert_eq!(normalise("a/../../b"), "b");
    assert_eq!(normalise("/.."), "/");
    assert_eq!(normalise("."), "");
}

#[test]
fn normalising_twice_is_once() {
    for p in ["/a/./b//c/../d.yml", "../x", "/", "", "a//b/"] {
        let once = normalise(p);
        assert_eq!(normalise(&once), once, "{p}");
    }
}

#[test]
fn the_parent_is_the_directory_of_a_path() {
    assert_eq!(parent("/a/b.yml"), Some("/a".to_string()));
    assert_eq!(parent("/a"), Some("/".to_string()));
    assert_eq!(parent("a"), Some(String::new()));
    assert_eq!(parent("/"), None);
    assert_eq!(parent(""), None);
}

#[test]
fn splitting_keeps_empty_parts() {
    assert_eq!(split("a.b.c", '.'), strings(&["a", "b", "c"]));
    assert_eq!(split(".a..", '.'), strings(&["", "a", "", ""]));
    assert_eq!(split("", '.'), strings(&[""]));
}

#[test]
fn texts_are_ordered_by_their_characters() {
    assert!(is_less("a", "b"));
    assert!(is_less("a", "aa"));
    assert!(!is_less("a", "a"));
    assert!(is_less("Z", "a"));
    assert!(is_less("z", "\u{e9}"));
    assert!(is_less("", "a"));
}

/// Paths are compared component by component, so what is in a directory comes before its longer
/// namesakes.
#[test]
fn paths_are_ordered_by_their_components() {
    assert!(is_path_less("/a/z.yml", "/a-b/a.yml"));
    assert!(!is_less("/a/z.yml", "/a-b/a.yml"));
    assert!(!is_path_less("/a", "/a"));
}

#[test]
fn inserting_keeps_order_and_each_text_once() {
    let mut v = Vec::new();
    for s in ["m", "a", "z", "a", "m"] {
        insert_text(&mut v, s.to_string());
    }
    assert_eq!(v, strings(&["a", "m", "z"]));
}

#[test]
fn whitespace_is_unicode_whitespace() {
    for c in ['\t', '\n', '\u{b}', '\u{c}', '\r', ' ', '\u{85}', '\u{a0}', '\u{2003}', '\u{3000}'] {
        assert!(is_white(c), "{:x}", c as u32);
        assert!(c.is_whitespace());
    }
    for c in ['a', '\u{200b}', '\u{1c}', '\u{feff}'] {
        assert!(!is_white(c), "{:x}", c as u32);
        assert!(!c.is_whitespace());
    }
}

#[test]
fn a_place_is_the_first_one() {
    let v = to_chars("abcabc");
    let p = to_chars("ca");
    assert_eq!(chars_find(&v, &p, 0), Some(2));
    assert_eq!(chars_find(&v, &p, 3), None);
    assert!(chars_at(&v, &p, 2));
    assert!(!chars_at(&v, &p, 5));
    assert_eq!(find_bytes_from(b"xx{{y{{", b"{{", 3), Some(5));
    assert_eq!(find_bytes_from(b"xx", b"", 2), Some(2));
    assert!(has_bytes_at(b"abc", b"bc", 1));
    assert!(!has_bytes_at(b"abc", b"bc", 2));
    assert_eq!(find_byte_or(b"ab\ncd", b'\n', 0, 5), 2);
    assert_eq!(find_byte_or(b"ab\ncd", b'\n', 3, 5), 5);
}

#[test]
fn the_ends_of_a_text() {
    assert!(starts_with("with_items", "with_"));
    assert!(!starts_with("wit", "with_"));
    assert_eq!(strip_prefix("with_items", "with_"), Some("items"));
    assert_eq!(strip_prefix("items", "with_"), None);
    assert!(is_suffix("a.yml", ".yml"));
    assert!(!is_suffix("yml", ".yml"));
    assert!(contains("a {{ b", "{{"));
    assert!(!contains("a { { b", "{{"));
    assert!(str_eq("raw", "raw"));
    assert!(!str_eq("raw", "Raw"));
}

#[test]
fn a_run_of_whitespace_is_counted_in_characters() {
    let v = to_chars(" \u{3000}a b \t");
    assert_eq!(skip_white(&v, 0, v.len()), 2);
    assert_eq!(trimmed_len(&v, 2, v.len()), 5);
    assert_eq!(from_chars(&v, 2, 5), "a b");
    assert_eq!(encoded_len(&v, 0, 2), 4);
}

#[test]
fn escapes_and_digits() {
    assert_eq!(hex_digit_value('f'), Some(15));
    assert_eq!(hex_digit_value('F'), Some(15));
    assert_eq!(hex_digit_value('g'), None);
    assert_eq!(plain_escape('n'), Some('\n'));
    assert_eq!(plain_escape('a'), Some('\u{7}'));
    assert_eq!(plain_escape('q'), None);
}

#[test]
fn a_character_is_read_with_its_width() {
    let b = "a\u{e9}\u{20ac}\u{1f600}".as_bytes();
    assert_eq!(char_at(b, 0), Some(('a', 1)));
    assert_eq!(char_at(b, 1), Some(('\u{e9}', 2)));
    assert_eq!(char_at(b, 3), Some(('\u{20ac}', 3)));
    assert_eq!(char_at(b, 6), Some(('\u{1f600}', 4)));
    assert_eq!(char_at(b, 2), None);
    assert_eq!(char_at(b, 10), None);
}

#[test]
fn a_listing_answers_as_a_file_system_does() {
    let fs = Listing {
        files: strings(&["/p/site.yml", "/p/roles/r/tasks/main.yml", "/p/roles/r/README"]),
        dirs: strings(&["/p/empty"]),
        globs: vec![("{{ x }}.yml".to_string(), strings(&["/p/site.yml"]))],
        ..Listing::default()
    };
    assert!(fs.is_file("/p/site.yml"));
    assert!(!fs.is_file("/p/roles"));
    assert!(fs.is_dir("/p/roles"));
    assert!(fs.is_dir("/p/empty"));
    assert!(!fs.is_dir("/p/ro"));
    assert_eq!(fs.files_in("/p/roles/r"), strings(&["README"]));
    assert_eq!(fs.canonical("/p/./roles/../site.yml"), Some("/p/site.yml".to_string()));
    assert_eq!(fs.canonical("/p/none"), None);
    assert_eq!(fs.yaml_files("/p/roles"), strings(&["/p/roles/r/tasks/main.yml"]));
    assert_eq!(fs.glob(&strings(&["/p"]), "{{ x }}.yml"), strings(&["/p/site.yml"]));
    assert!(fs.glob(&strings(&["/p"]), "{{ y }}.yml").is_empty());
    assert!(is_among(&fs.dirs, "/p/empty"));
    assert_eq!(find_answer(&fs.globs, "{{ x }}.yml"), Some(0));
}

#[test]
fn a_path_is_printed_with_slashes() {
    assert_eq!(posix_display("roles\\r\\tasks", true), "roles/r/tasks");
    assert_eq!(posix_display("roles\\r", false), "roles\\r");
    assert_eq!(posix_display("/a/b", true), "/a/b");
}

#[test]
fn a_path_that_is_not_there_stands_for_itself() {
    let fs = Listing { files: strings(&["/p/site.yml"]), ..Listing::default() };
    assert_eq!(canon(&fs, "/p/./site.yml"), "/p/site.yml");
    assert_eq!(canon(&fs, "/p/./none.yml"), "/p/./none.yml");
}

#[test]
fn the_bare_name_comes_first_or_last() {
    let exts = RoleExts::default();
    assert_eq!(
        exts.candidates("/r/tasks", "main", false),
        strings(&["/r/tasks/main.yml", "/r/tasks/main.yaml", "/r/tasks/main.json", "/r/tasks/main"])
    );
    assert_eq!(
        exts.candidates("/r/tasks", "setup", true),
        strings(&[
            "/r/tasks/setup",
            "/r/tasks/setup.yml",
            "/r/tasks/setup.yaml",
            "/r/tasks/setup.json"
        ])
    );
}

#[test]
fn paths_are_the_same_by_their_components() {
    for (a, b) in [("~/a//b", "~/a/b"), ("/a/./b/", "/a/b"), ("//a", "/a"), ("a/.", "a"), ("/.", "/"), ("", "")] {
        assert!(is_same_path(a, b), "{a} {b}");
        assert!(!is_path_less(a, b) && !is_path_less(b, a), "{a} {b}");
        assert_eq!(std::path::Path::new(a), std::path::Path::new(b));
    }
    for (a, b) in [("a", "./a"), ("a/b", "a/c/../b"), ("/a", "a"), ("a", "a/b"), ("", ".")] {
        assert!(!is_same_path(a, b), "{a} {b}");
        assert_ne!(std::path::Path::new(a), std::path::Path::new(b));
    }
    assert_eq!(list_parts("/a//./b/../c/"), ["/", "a", "b", "..", "c"]);
    assert_eq!(list_parts("./a/."), [".", "a"]);
    assert!(is_path_among(&vec!["x".to_string(), "a//b".to_string()], "a/b"));
    assert!(!is_path_among(&vec!["x".to_string()], "a/b"));
}

#[test]
fn paths_stand_in_the_order_of_their_components() {
    let all = ["/", "/a", "/a/z", "/a-b/a", ".", "./a", "..", "../a", "", "!x", "a", "a/b", "a//c", "a/./b/d", "b"];
    for a in all {
        for b in all {
            let less = std::path::Path::new(a) < std::path::Path::new(b);
            assert_eq!(is_path_less(a, b), less, "{a:?} {b:?}");
        }
    }
}
