use flux_core::signals::join_path;
use flux_core::text::{
    chars_of, is_whitespace, join_strings, split_lines, str_eq, str_le, string_of, trim,
    trim_bounds,
};
use std::path::Path;

const SAMPLES: [&str; 24] = [
    "",
    "a",
    "a\n",
    "a\nb",
    "a\nb\n",
    "\n",
    "\n\n",
    "a\r\n",
    "a\r",
    "a\r\nb\r",
    "\r\n",
    "\r",
    "a\r\r\n",
    "a\n\r\nb",
    " a b ",
    "\t\u{a0}x y\u{3000}\n",
    "  ",
    "\u{85}\u{1680}z\u{2000}\u{200a}\u{2028}\u{2029}\u{202f}\u{205f}",
    "\u{200b}x\u{200b}",
    "日本語\n テキスト \r\n",
    "x\u{b}\u{c}",
    "\u{1c}a\u{1f}",
    "A",
    "ab",
];

#[test]
fn lines_are_those_of_the_standard_library() {
    for s in SAMPLES {
        let expected: Vec<String> = s.lines().map(|l| l.to_string()).collect();
        assert_eq!(split_lines(s), expected, "{:?}", s);
    }
}

#[test]
fn trim_is_that_of_the_standard_library() {
    for s in SAMPLES {
        assert_eq!(trim(s), s.trim(), "{:?}", s);
    }
    assert_eq!(trim_bounds(&chars_of("  ab \t")), (2, 4));
    assert_eq!(trim_bounds(&chars_of("   ")), (3, 3));
    assert_eq!(trim_bounds(&chars_of("")), (0, 0));
}

#[test]
fn white_space_is_that_of_the_standard_library() {
    for n in 0..=0x10ffffu32 {
        if let Some(c) = char::from_u32(n) {
            assert_eq!(is_whitespace(c), c.is_whitespace(), "{:x}", n);
        }
    }
}

#[test]
fn order_is_that_of_the_standard_library() {
    for a in SAMPLES {
        for b in SAMPLES {
            assert_eq!(str_le(a, b), a <= b, "{:?} {:?}", a, b);
            assert_eq!(str_eq(a, b), a == b, "{:?} {:?}", a, b);
        }
    }
    assert!(str_le("2026-01-01T09:00:00", "2026-01-01T10:00:00"));
    assert!(!str_le("b", "ab"));
    assert!(str_le("ab", "abc"));
    assert!(!str_le("abc", "ab"));
    assert!(str_le("\u{ff}", "\u{100}"));
    assert!(str_le("\u{ffff}", "\u{10000}"));
}

#[test]
fn characters_go_to_a_vector_and_back() {
    for s in SAMPLES {
        let v = chars_of(s);
        assert_eq!(v, s.chars().collect::<Vec<char>>());
        assert_eq!(string_of(&v), s);
    }
}

#[test]
fn join_puts_the_separator_between() {
    let parts = vec!["a".to_string(), "".to_string(), "b".to_string()];
    assert_eq!(join_strings(&parts, ", "), "a, , b");
    assert_eq!(join_strings(&parts[..1], ", "), "a");
    assert_eq!(join_strings(&[], ", "), "");
    assert_eq!(join_strings(&parts, ""), "ab");
}

#[test]
fn paths_are_joined_as_the_standard_library_joins_them() {
    for base in ["", "a", "a/", "/", "/a/b", "a//", ".", "./x"] {
        for name in ["b", "b/c", ".flux", "signals.jsonl", "", "/abs", "/"] {
            let expected = Path::new(base).join(name);
            assert_eq!(
                join_path(base, name),
                expected.to_str().unwrap(),
                "{:?} {:?}",
                base,
                name
            );
        }
    }
}
