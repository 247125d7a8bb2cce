//! Text handling, held against the standard library.

use obd::path;
use obd::path::HostPath;
use obd::text;

fn owned(parts: Vec<&str>) -> Vec<String> {
    parts.into_iter().map(|s| s.to_string()).collect()
}

#[test]
fn white_space_is_unicodes() {
    for code in 0..=0x10ffffu32 {
        if let Some(c) = char::from_u32(code) {
            assert_eq!(text::is_whitespace(c), c.is_whitespace(), "{code:x}");
        }
    }
}

#[test]
fn texts_are_taken_apart_as_the_standard_library_does() {
    let samples = [
        "",
        " ",
        "a",
        " a b  c ",
        "a\nb\r\nc",
        "a\n",
        "\n\n",
        "a\r",
        "\r\n",
        "x=y=z",
        "=",
        "no cut",
        "\u{a0}ünï\u{2003}cödé\u{3000}",
        "tab\tsep\u{b}v\u{c}f",
        "a\r\r\n b",
    ];
    for s in samples {
        assert_eq!(text::trim(s), s.trim());
        assert_eq!(text::split_lines(s), owned(s.lines().collect()));
        let words = s.split([' ', '\t']).filter(|w| !w.is_empty());
        assert_eq!(text::split_words(s), owned(words.collect()));
        assert_eq!(
            text::split_once(s, '='),
            s.split_once('=').map(|(a, b)| (a.to_string(), b.to_string()))
        );
        for prefix in ["", "a", " ", "x=", "long prefix that is not there"] {
            assert_eq!(text::starts_with(s, prefix), s.starts_with(prefix));
        }
    }
}

#[test]
fn numbers_are_read_as_the_standard_library_does() {
    let samples = [
        "", "+", "-", "0", "00", "7", "+7", "-7", "++7", "12a", " 12", "4294967295", "4294967296",
        "18446744073709551615", "18446744073709551616", "99999999999999999999999", "٣",
    ];
    for s in samples {
        assert_eq!(text::parse_number(s, u64::MAX), s.parse::<u64>().ok(), "{s}");
        assert_eq!(
            text::parse_number(s, u32::MAX as u64),
            s.parse::<u32>().ok().map(|n| n as u64),
            "{s}"
        );
    }
}

#[test]
fn a_number_reads_back_as_it_was_written() {
    for n in [0, 1, 9, 10, 99, 100, 1234567890, u64::MAX - 1, u64::MAX] {
        assert_eq!(text::decimal_text(n), n.to_string());
        assert_eq!(text::parse_number(&text::decimal_text(n), u64::MAX), Some(n));
    }
    for n in [0, -1, 1, i32::MIN, i32::MAX] {
        assert_eq!(text::signed_decimal_text(n), n.to_string());
    }
}

#[test]
fn parts_are_glued_with_a_separator() {
    let parts = owned(vec!["a", "", "c"]);
    assert_eq!(text::glue(&parts, 0, ", "), "a, , c");
    assert_eq!(text::glue(&parts, 2, ", "), "c");
    assert_eq!(text::glue(&parts, 3, ", "), "");
}

#[test]
fn paths_join_as_the_standard_library_does() {
    for base in ["", "/", "/a", "a/b", "/a/", "ü"] {
        for part in ["", "/", "/x", "x", "x/y", "ü"] {
            let expected = std::path::Path::new(base).join(part);
            let expected = expected.to_str().unwrap();
            assert_eq!(path::join(base, part), expected);
            assert_eq!(
                HostPath::new(base).join(&HostPath::new(part)),
                HostPath::new(expected)
            );
        }
    }
}

#[test]
fn names_are_sorted_by_their_bytes() {
    let names = ["b", "a", "", "ab", "Z", "ü", "a", "\u{10000}", "\u{ffff}"];
    let mut expected: Vec<HostPath> = names.iter().map(|n| HostPath::new(n)).collect();
    let sorted = path::sort_names(expected.clone());
    expected.sort_by(|a, b| a.bytes.cmp(&b.bytes));
    assert_eq!(sorted, expected);
    assert!(path::sort_names(Vec::new()).is_empty());
}

#[test]
fn text_order_is_code_point_order() {
    assert!(text::in_order(&text::codes_of("sda"), &text::codes_of("sdb")));
    assert!(!text::in_order(&text::codes_of("sdb"), &text::codes_of("sda")));
    assert!(text::in_order(&text::codes_of("sd"), &text::codes_of("sda")));
    assert!(text::in_order(&text::codes_of(""), &text::codes_of("")));
    assert_eq!(text::chars_of("aü"), vec!['a', 'ü']);
}

#[test]
fn escapes_stand_for_their_characters() {
    for (escaped, plain) in [
        ("", ""),
        ("/mnt/a", "/mnt/a"),
        ("/mnt/a\\040b", "/mnt/a b"),
        ("\\011\\012\\134\\043", "\t\n\\#"),
        // What decodes to a backslash does not begin another escape.
        ("\\134040", "\\040"),
        // No escape: too short, not octal, or more than a byte.
        ("\\04", "\\04"),
        ("\\048", "\\048"),
        ("\\400", "\\400"),
        ("a\\", "a\\"),
        ("\\\\040", "\\ "),
    ] {
        assert_eq!(text::unescape(escaped), plain);
    }
}
