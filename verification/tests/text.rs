use paj::ids::{id_has_prefix, id_simple_text, id_suffix, id_text};
use paj::path_order::sorted_unique_paths;
use paj::paths::{components, components_end_with, file_name, has_extension, join};
use paj::text::{
    find_char, first_line, first_line_prefix_of, is_blank, is_whitespace,
    parse_i32, parse_u32, split_on, str_eq, trim,
};
use uuid::Uuid;

const ID: u128 = 0x0190_a1b2_c3d4_7e5f_8a9b_0c1d_2e3f_4a5b;

#[test]
fn white_space_follows_char_is_whitespace() {
    for c in [' ', '\t', '\n', '\r', '\u{0b}', '\u{0c}', '\u{85}', '\u{a0}', '\u{2003}', '\u{3000}'] {
        assert!(is_whitespace(c), "{c:?}");
        assert_eq!(is_whitespace(c), c.is_whitespace());
    }
    for c in ['a', '0', '_', '\u{200b}', '\u{feff}'] {
        assert!(!is_whitespace(c), "{c:?}");
        assert_eq!(is_whitespace(c), c.is_whitespace());
    }
    assert!(is_blank(""));
    assert!(is_blank(" \t\n"));
    assert!(!is_blank(" x "));
}

#[test]
fn trim_matches_str_trim() {
    for text in ["", "  ", " a b ", "\u{3000}x\n", "abc", "\ta\tb\t"] {
        assert_eq!(trim(text), text.trim());
    }
}

#[test]
fn splitting_and_searching() {
    assert_eq!(split_on("a\tb\t\tc", '\t'), vec!["a", "b", "", "c"]);
    assert_eq!(split_on("", '\t'), vec![""]);
    assert_eq!(split_on("x\t", '\t'), vec!["x", ""]);
    assert_eq!(find_char("hello", 'l'), 2);
    assert_eq!(find_char("hello", 'z'), 5);
    assert_eq!(paj::text::concat("ab", "cd"), "abcd");
    assert!(str_eq("same", "same"));
    assert!(!str_eq("same", "Same"));
}

#[test]
fn first_line_follows_str_lines() {
    for text in ["", "one", "one\ntwo", "one\r\ntwo", "\nsecond", "tail\r", "a\r\rb\n"] {
        assert_eq!(first_line(text), text.lines().next().unwrap_or_default(), "{text:?}");
    }
    assert_eq!(first_line_prefix_of("abcdef\nx", 3), "abc");
    assert_eq!(first_line_prefix_of("ab\nxyz", 3), "ab");
}

#[test]
fn integers_parse_as_str_parse_does() {
    for text in ["0", "42", "+7", "-3", "", "+", "-", "4294967295", "4294967296", "12a", " 1"] {
        assert_eq!(parse_u32(text), text.parse::<u32>().ok(), "{text:?}");
    }
    for text in [
        "0",
        "-0",
        "-2147483648",
        "2147483647",
        "2147483648",
        "-2147483649",
        "+15",
        "--1",
        "",
    ] {
        assert_eq!(parse_i32(text), text.parse::<i32>().ok(), "{text:?}");
    }
}

#[test]
fn paths_join_like_std_path() {
    for (base, rest) in [
        ("/a", "b"),
        ("/a/", "b"),
        ("", "b"),
        ("/a", "/abs"),
        ("a", ""),
        ("/a", "b/c"),
    ] {
        let expected = std::path::Path::new(base).join(rest);
        assert_eq!(join(base, rest), expected.to_str().expect("utf-8 path"), "{base} {rest}");
    }
}

#[test]
fn path_components_and_names_follow_std_path() {
    for path in ["/", "/a/b", "a//b/", "./a/./b", ".", "a/..", "", "/x/y.txt"] {
        let expected: Vec<String> = std::path::Path::new(path)
            .components()
            .map(|c| c.as_os_str().to_str().expect("utf-8").to_owned())
            .collect();
        assert_eq!(components(path), expected, "{path:?}");
        let name = std::path::Path::new(path)
            .file_name()
            .map(|n| n.to_str().expect("utf-8").to_owned());
        assert_eq!(file_name(path), name, "{path:?}");
    }
    assert!(has_extension("message.json", "json"));
    assert!(!has_extension(".json", "json"));
    assert!(!has_extension("message.json.tmp", "json"));
    assert!(components_end_with(
        &vec!["group".to_owned(), "team".to_owned(), "example".to_owned()],
        "team/example"
    ));
    assert!(!components_end_with(&vec!["example".to_owned()], "team/example"));
}

#[test]
fn identifiers_print_as_uuids() {
    let uuid = Uuid::from_u128(ID);

    assert_eq!(id_text(ID), uuid.to_string());
    assert_eq!(id_simple_text(ID), uuid.simple().to_string());
    assert_eq!(id_suffix(ID, 8), "2e3f4a5b");
    assert_eq!(id_suffix(ID, 0), "");
    assert!(id_has_prefix(ID, "0190a1b2-c3"));
    assert!(id_has_prefix(ID, ""));
    assert!(!id_has_prefix(ID, "0190a1b2c3"));
}

#[test]
fn canonical_paths_sort_and_deduplicate_like_a_path_set() {
    let inputs = [
        "/home/me/dev",
        "/home/me",
        "/home/me/dev",
        "/home/me/Dev",
        "/home/me/dev-tools",
        "/home/me/dev/a",
        "/home/mé",
        "/",
        "/a//b",
        "/a/b",
    ];
    let paths: Vec<String> = inputs.iter().map(|p| p.to_string()).collect();
    let expected: Vec<String> = inputs
        .iter()
        .map(std::path::PathBuf::from)
        .collect::<std::collections::BTreeSet<_>>()
        .into_iter()
        .map(|p| p.to_string_lossy().into_owned())
        .collect();

    let sorted = sorted_unique_paths(&paths);

    assert_eq!(sorted.len(), expected.len());
    for (got, want) in sorted.iter().zip(expected.iter()) {
        assert_eq!(std::path::Path::new(got), std::path::Path::new(want));
    }
}

#[test]
fn sorted_paths_do_not_depend_on_input_order() {
    let one: Vec<String> = ["/b", "/a/c", "/a"].iter().map(|p| p.to_string()).collect();
    let two: Vec<String> = ["/a", "/b", "/a/c", "/b"].iter().map(|p| p.to_string()).collect();

    assert_eq!(sorted_unique_paths(&one), sorted_unique_paths(&two));
    assert_eq!(sorted_unique_paths(&one), vec!["/a", "/a/c", "/b"]);
}
