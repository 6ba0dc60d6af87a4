use rope_editor::position::{line_end_from, position_at};
use rope_editor::words::{replace_escape_in, unescape, word_left_from, word_right_from};

fn chars(s: &str) -> Vec<char> {
    s.chars().collect()
}

#[test]
fn position_counts_newlines_and_columns() {
    let t = chars("ab\ncde\n\nf");
    assert_eq!(position_at(&t, 0), (0, 0));
    assert_eq!(position_at(&t, 2), (0, 2));
    assert_eq!(position_at(&t, 3), (1, 0));
    assert_eq!(position_at(&t, 6), (1, 3));
    assert_eq!(position_at(&t, 7), (2, 0));
    assert_eq!(position_at(&t, 8), (3, 0));
    assert_eq!(position_at(&t, 9), (3, 1));
    assert_eq!(position_at(&t, 500), (3, 1));
}

#[test]
fn line_end_is_next_newline_or_end() {
    let t = chars("ab\ncde\n\nf");
    assert_eq!(line_end_from(&t, 0), 2);
    assert_eq!(line_end_from(&t, 2), 2);
    assert_eq!(line_end_from(&t, 3), 6);
    assert_eq!(line_end_from(&t, 7), 7);
    assert_eq!(line_end_from(&t, 8), 9);
    assert_eq!(line_end_from(&t, 9), 9);
}

#[test]
fn word_right_skips_space_then_word() {
    let t = chars("ab  cd");
    assert_eq!(word_right_from(&t, 0), 2);
    assert_eq!(word_right_from(&t, 2), 6);
    assert_eq!(word_right_from(&t, 3), 6);
    assert_eq!(word_right_from(&t, 6), 6);
    let only_space = chars("a   ");
    assert_eq!(word_right_from(&only_space, 1), 4);
}

#[test]
fn word_left_skips_space_then_word() {
    let t = chars("ab  cd");
    assert_eq!(word_left_from(&t, 0), 0);
    assert_eq!(word_left_from(&t, 6), 4);
    assert_eq!(word_left_from(&t, 4), 0);
    assert_eq!(word_left_from(&t, 3), 0);
    assert_eq!(word_left_from(&t, 1), 0);
    assert_eq!(word_left_from(&t, 5), 4);
}

#[test]
fn word_motion_knows_unicode_whitespace() {
    let t = chars("a\t\u{a0}\u{3000}b\u{200b}c d");
    assert_eq!(word_right_from(&t, 1), 7);
    assert_eq!(word_left_from(&t, 7), 4);
    let lines = chars("x\n\ry");
    assert_eq!(word_right_from(&lines, 1), 4);
}

#[test]
fn unescape_resolves_each_sequence() {
    assert_eq!(unescape(&chars("a\\nb")), chars("a\nb"));
    assert_eq!(unescape(&chars("a\\tb")), chars("a\tb"));
    assert_eq!(unescape(&chars("a\\rb")), chars("a\rb"));
    assert_eq!(unescape(&chars("a\\\\b")), chars("a\\b"));
    assert_eq!(unescape(&chars("plain\ntext")), chars("plain\ntext"));
    assert_eq!(unescape(&chars("")), chars(""));
    assert_eq!(unescape(&chars("\\")), chars("\\"));
    assert_eq!(unescape(&chars("\\x")), chars("\\x"));
}

#[test]
fn unescape_goes_one_kind_after_the_other() {
    assert_eq!(unescape(&chars("\\\\n")), chars("\\\n"));
    assert_eq!(unescape(&chars("\\\\\\\\")), chars("\\\\"));
    assert_eq!(unescape(&chars("\\\\\\")), chars("\\\\"));
    assert_eq!(unescape(&chars("\\n\\t\\r")), chars("\n\t\r"));
}

#[test]
fn replace_escape_is_left_to_right() {
    assert_eq!(replace_escape_in(&chars("\\\\\\"), '\\', '/'), chars("/\\"));
    assert_eq!(replace_escape_in(&chars("x\\ny\\n"), 'n', '\n'), chars("x\ny\n"));
}
