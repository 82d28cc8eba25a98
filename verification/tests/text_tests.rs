use ce_editor::gutter::decimal_len_of;
use ce_editor::patch::trim_trailing_newlines;
use ce_editor::subst::{find_char_pos_from, replace_in_line};
use ce_editor::tag::{byte_to_char_offset, char_offset_to_byte_offset, find_word_in_line, short_repo_name};
use ce_editor::visual::{char_idx_from_visual_col, line_visual_width, visual_col_from_char_idx};
use ce_editor::editor::Editor;

fn chars(s: &str) -> Vec<char> {
    s.chars().collect()
}

#[test]
fn byte_and_char_offsets_convert_both_ways() {
    let s = "h\u{e9}llo";
    assert_eq!(char_offset_to_byte_offset(s, 0), 0);
    assert_eq!(char_offset_to_byte_offset(s, 2), 3);
    assert_eq!(byte_to_char_offset(s, 3), 2);
    assert_eq!(byte_to_char_offset(s, 6), 5);
}

#[test]
fn offset_round_trip_gives_back_the_char_offset() {
    let s = "a\u{65e5}b\u{1f600}c";
    for k in 0..5 {
        let b = char_offset_to_byte_offset(s, k);
        assert_eq!(byte_to_char_offset(s, b), k);
    }
}

#[test]
fn char_offset_past_the_end_gives_the_byte_length() {
    assert_eq!(char_offset_to_byte_offset("ab", 7), 2);
    assert_eq!(char_offset_to_byte_offset("\u{e9}", 1), 2);
}

#[test]
fn find_word_in_line_takes_whole_words_only() {
    assert_eq!(find_word_in_line("foo_bar foo", "foo"), Some(8));
    assert_eq!(find_word_in_line("xfoo foo", "foo"), Some(5));
    assert_eq!(find_word_in_line("foobar", "foo"), None);
    assert_eq!(find_word_in_line("foo", "foo"), Some(0));
}

#[test]
fn short_repo_name_is_the_last_component() {
    assert_eq!(short_repo_name("/home/u/proj"), "proj");
    assert_eq!(short_repo_name("/"), "/");
}

#[test]
fn find_char_pos_from_counts_chars() {
    assert_eq!(find_char_pos_from("abcabc", "bc", 2), Some(4));
    assert_eq!(find_char_pos_from("\u{e9}x\u{e9}x", "x", 2), Some(3));
    assert_eq!(find_char_pos_from("abc", "z", 0), None);
    assert_eq!(find_char_pos_from("abc", "c", 9), None);
}

#[test]
fn replace_in_line_first_or_all() {
    let (all, n) = replace_in_line(&chars("aaa"), &chars("a"), &chars("bb"), true);
    assert_eq!(all.iter().collect::<String>(), "bbbbbb");
    assert_eq!(n, 3);
    let (one, m) = replace_in_line(&chars("aaa"), &chars("a"), &chars("bb"), false);
    assert_eq!(one.iter().collect::<String>(), "bbaa");
    assert_eq!(m, 1);
    let (none, z) = replace_in_line(&chars("abc"), &chars("x"), &chars("y"), true);
    assert_eq!(none.iter().collect::<String>(), "abc");
    assert_eq!(z, 0);
}

#[test]
fn visual_columns_follow_tabs_and_wide_chars() {
    assert_eq!(visual_col_from_char_idx("\tab", 2, 4), 5);
    assert_eq!(char_idx_from_visual_col("\tab", 5, 4), 2);
    assert_eq!(line_visual_width("a\tb", 4), 5);
    assert_eq!(line_visual_width("\u{65e5}\u{672c}", 4), 4);
}

#[test]
fn decimal_lengths() {
    assert_eq!(decimal_len_of(0), 1);
    assert_eq!(decimal_len_of(12345), 5);
    assert_eq!(Editor::digit_count(999), 3);
    assert_eq!(Editor::digit_count(1000), 4);
}

#[test]
fn trailing_newlines_are_trimmed() {
    assert_eq!(trim_trailing_newlines("ab\n\n"), "ab");
    assert_eq!(trim_trailing_newlines("a\nb"), "a\nb");
}

#[test]
fn ascii_width_and_tab_stops() {
    assert_eq!(line_visual_width("ab", 4), 2);
    assert_eq!(line_visual_width("ab\t", 4), 4);
    assert_eq!(line_visual_width("abcd\t", 4), 8);
    let line = "a\tbc\td";
    for i in 0..=line.chars().count() {
        let v = visual_col_from_char_idx(line, i, 4);
        assert_eq!(char_idx_from_visual_col(line, v, 4), i);
    }
}
