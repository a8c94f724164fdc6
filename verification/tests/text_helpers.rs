use xml_fmt::text::{replace, slice, split_char, tabs};
use xml_fmt::pattern::Pattern;

#[test]
fn tabs_repeats_the_tab() {
    assert_eq!(tabs(0), "");
    assert_eq!(tabs(3), "\t\t\t");
}

#[test]
fn replace_is_left_to_right_and_non_overlapping() {
    assert_eq!(replace("aaa", "aa", "b"), "ba");
    assert_eq!(replace("a\n\nb", "\n", "\n\t"), "a\n\t\n\tb");
    assert_eq!(replace("x", "yz", "q"), "x");
    assert_eq!(replace("a b", " ", ""), "ab");
}

#[test]
fn slice_uses_byte_offsets_on_character_boundaries() {
    assert_eq!(slice("h\u{e9}llo", 1, 3), Some("\u{e9}".to_string()));
    assert_eq!(slice("h\u{e9}llo", 2, 3), None);
    assert_eq!(slice("abc", 2, 1), None);
    assert_eq!(slice("abc", 1, 4), None);
    assert_eq!(slice("abc", 3, 3), Some(String::new()));
}

#[test]
fn split_char_keeps_empty_pieces() {
    assert_eq!(split_char(" b=\"1\"", '"'), vec![" b=".to_string(), "1".to_string(), String::new()]);
    assert_eq!(split_char("", '"'), vec![String::new()]);
}

#[test]
fn pattern_rejects_a_bad_regex() {
    assert!(Pattern::new("(").is_none());
    assert!(Pattern::new("a+").is_some());
}
