use panini::text::{
    decimal_text, has_char, hex_text, is_before, is_whitespace, pad, position_of_char,
    same, slice, split_on, starts_with, strip, strip_prefix, text_stands_at, trim,
    trim_end_matches,
};

const SAMPLES: [&str; 12] = [
    "",
    " ",
    "a",
    "a,b",
    ",a,,b,",
    "  padded \t\n",
    "\u{2003}wide\u{3000}",
    "name = \"hello\"",
    "🥪 panini 🥪",
    ".tar.gz",
    "x.tar.gz.tar.gz",
    "27.2.1",
];

#[test]
fn white_space_is_that_of_chars() {
    for n in 0u32..0x11_0000 {
        if let Some(c) = char::from_u32(n) {
            assert_eq!(is_whitespace(c), c.is_whitespace(), "{n:x}");
        }
    }
}

#[test]
fn trimming_takes_white_space_off_both_ends() {
    for s in SAMPLES {
        assert_eq!(trim(s), s.trim());
    }
}

#[test]
fn stripping_takes_a_char_off_both_ends() {
    for s in ["\"a\"", "\"\"", "a\"b", "\"\"x\"", ""] {
        assert_eq!(strip(s, Some('"')), s.trim_matches('"'));
    }
}

#[test]
fn splitting_keeps_empty_pieces() {
    for s in SAMPLES {
        for sep in [',', '.', '\n', '🥪'] {
            let expected: Vec<String> = s.split(sep).map(|p| p.to_string()).collect();
            assert_eq!(split_on(s, sep), expected);
        }
    }
}

#[test]
fn a_separator_parts_the_pieces_of_two_texts() {
    let mut both = split_on("a,b", ',');
    both.extend(split_on(",c", ','));
    assert_eq!(split_on("a,b,,c", ','), both);
}

#[test]
fn ends_are_trimmed_again_and_again() {
    for s in SAMPLES {
        assert_eq!(trim_end_matches(s, ".tar.gz"), s.trim_end_matches(".tar.gz"));
    }
}

#[test]
fn prefixes_are_stripped_once() {
    assert_eq!(strip_prefix("namename", "name"), Some("name".to_string()));
    assert_eq!(strip_prefix("nam", "name"), None);
    assert!(starts_with("erts-15.2", "erts-"));
    assert!(!starts_with("erts", "erts-"));
}

#[test]
fn chars_and_texts_stand_where_they_are() {
    let v: Vec<char> = "a🥪b🥪".chars().collect();
    assert_eq!(position_of_char(&v, '🥪', 0), Some(1));
    assert_eq!(position_of_char(&v, '🥪', 2), Some(3));
    assert_eq!(position_of_char(&v, 'x', 0), None);
    let pat: Vec<char> = "🥪b".chars().collect();
    assert!(text_stands_at(&v, &pat, 1));
    assert!(!text_stands_at(&v, &pat, 3));
    assert!(has_char("a/b", '/'));
    assert!(!has_char("ab", '/'));
    assert_eq!(slice("a🥪b", 1, 3), "🥪b");
}

#[test]
fn numbers_are_written_as_std_writes_them() {
    for n in [0u64, 7, 10, 99, 100, 65_535, u64::MAX] {
        assert_eq!(decimal_text(n), format!("{n}"));
    }
    for n in [0u32, 5381, 0xdead_beef, u32::MAX] {
        assert_eq!(hex_text(n, 8), format!("{n:08x}"));
    }
}

#[test]
fn padding_fills_up_to_a_width() {
    assert_eq!(pad("27.2", 10), format!("{:<10}", "27.2"));
    assert_eq!(pad("x86_64-freebsd-long", 4), "x86_64-freebsd-long");
}

#[test]
fn texts_are_ordered_as_strings_are() {
    for a in SAMPLES {
        for b in SAMPLES {
            assert_eq!(is_before(a, b), a < b, "{a:?} {b:?}");
            assert_eq!(same(a, b), a == b);
        }
    }
}
