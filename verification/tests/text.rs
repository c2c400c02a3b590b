use latex_generator::text::{
    chars_of, insert_char_at, next_boundary, prefix_chars, previous_boundary, remove_char_at,
    string_from_chars, trim,
};

// "a" takes 1 byte, "é" 2, "€" 3 and "😀" 4: boundaries at 0, 1, 3, 6 and 10.
const MIXED: &str = "a\u{e9}\u{20ac}\u{1f600}";

#[test]
fn boundaries_step_over_whole_characters() {
    assert_eq!(next_boundary(MIXED, 0), 1);
    assert_eq!(next_boundary(MIXED, 1), 3);
    assert_eq!(next_boundary(MIXED, 3), 6);
    assert_eq!(next_boundary(MIXED, 6), 10);
    assert_eq!(previous_boundary(MIXED, 10), 6);
    assert_eq!(previous_boundary(MIXED, 6), 3);
    assert_eq!(previous_boundary(MIXED, 3), 1);
    assert_eq!(previous_boundary(MIXED, 1), 0);
}

#[test]
fn boundaries_stop_at_the_ends() {
    assert_eq!(previous_boundary(MIXED, 0), 0);
    assert_eq!(next_boundary(MIXED, 10), 10);
    assert_eq!(previous_boundary("", 0), 0);
    assert_eq!(next_boundary("", 0), 0);
}

#[test]
fn moving_right_then_left_returns() {
    for cursor in [0usize, 1, 3, 6] {
        assert_eq!(previous_boundary(MIXED, next_boundary(MIXED, cursor)), cursor);
    }
    for cursor in [1usize, 3, 6, 10] {
        assert_eq!(next_boundary(MIXED, previous_boundary(MIXED, cursor)), cursor);
    }
}

#[test]
fn trims_unicode_whitespace() {
    assert_eq!(trim("  x y \t\n"), "x y");
    assert_eq!(trim("\u{3000}a\u{a0}"), "a");
    assert_eq!(trim(" \u{2003} "), "");
    assert_eq!(trim("a\u{200b}"), "a\u{200b}");
}

#[test]
fn edits_characters_by_index() {
    assert_eq!(insert_char_at(MIXED, 1, 'b'), "ab\u{e9}\u{20ac}\u{1f600}");
    assert_eq!(insert_char_at("", 0, '\u{e9}'), "\u{e9}");
    assert_eq!(remove_char_at(MIXED, 2), "a\u{e9}\u{1f600}");
    assert_eq!(prefix_chars(MIXED, 2), "a\u{e9}");
    let cs = chars_of(MIXED);
    assert_eq!(cs.len(), 4);
    assert_eq!(string_from_chars(&cs), MIXED);
}
