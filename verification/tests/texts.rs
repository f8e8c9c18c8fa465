use contribai::case::{to_lower, to_upper};
use contribai::text;

const SAMPLES: [&str; 12] = [
    "",
    " ",
    "a",
    "  a b  ",
    "\n\na\r\nb\n",
    "a\rb\n",
    "\u{a0}x\u{3000}",
    "\u{85}\u{2028}y\u{1680}",
    "one\ttwo\u{b}three",
    "\u{e9}\u{4e2d}\u{1f600}",
    "trailing  \nspace\t\n",
    "\u{200b}zero width\u{200b}",
];

#[test]
fn trimming_agrees_with_std() {
    for s in SAMPLES {
        assert_eq!(text::trim(s), s.trim());
        assert_eq!(text::trim_end(s), s.trim_end());
    }
}

#[test]
fn lines_and_words_agree_with_std() {
    for s in SAMPLES {
        assert_eq!(text::lines(s), s.lines().collect::<Vec<_>>());
        assert_eq!(text::words(s), s.split_whitespace().collect::<Vec<_>>());
        assert_eq!(text::split(s, '\n'), s.split('\n').collect::<Vec<_>>());
    }
}

#[test]
fn white_space_agrees_with_std() {
    for c in (0u32..0x3100).filter_map(char::from_u32) {
        assert_eq!(text::is_white_space(c), c.is_whitespace());
    }
}

#[test]
fn splitting_is_undone_by_joining() {
    for s in SAMPLES {
        assert_eq!(text::join(&text::split(s, '\n'), "\n"), s);
    }
}

#[test]
fn clipping_counts_bytes() {
    assert_eq!(text::clip("abcdef", 3), "abc");
    assert_eq!(text::clip("abc", 3), "abc");
    assert_eq!(text::clip("\u{e9}\u{e9}x", 4), "\u{e9}\u{e9}");
    assert!(!text::cuts_cleanly("\u{e9}\u{e9}x", 3));
    assert!(text::cuts_cleanly("\u{e9}\u{e9}x", 4));
    assert_eq!(text::byte_len("\u{1f600}"), 4);
}

#[test]
fn searching_agrees_with_std() {
    let texts = ["", "a", "aab", "abcabc", "\u{e9}ab\u{e9}"];
    for s in texts {
        for p in texts {
            assert_eq!(text::contains(s, p), s.contains(p));
            assert_eq!(
                text::replace_first(s, p, "Z"),
                if s.contains(p) { Some(s.replacen(p, "Z", 1)) } else { None }
            );
        }
    }
}

#[test]
fn numbers_are_written_in_decimal() {
    for n in [0usize, 7, 10, 99, 100, 12_345, usize::MAX] {
        assert_eq!(text::decimal(n), n.to_string());
    }
}

#[test]
fn runs_of_a_character_are_stripped() {
    assert_eq!(text::strip_matches("--a-b---", '-'), "a-b");
    assert_eq!(text::strip_matches("---", '-'), "");
}

#[test]
fn case_is_changed_by_unicode() {
    assert_eq!(to_lower("ABC xyz 1!"), "abc xyz 1!");
    assert_eq!(to_lower("\u{c9}\u{130}"), "\u{e9}i\u{307}");
    assert_eq!(to_upper("abc XYZ 1!"), "ABC XYZ 1!");
    assert_eq!(to_upper("stra\u{df}e"), "STRASSE");
}
