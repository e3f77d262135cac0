//! Text fields.

use khaslana::text_input::{ClickedPlace, TextEditState, offset_from_utf16_in_text, offset_to_utf16_in_text};

/// A distance in pixels, as the field counts it.
fn pixels(x: f32) -> i64 {
    (x * 4.0) as i64
}

#[test]
fn main_text_field_edits_at_utf8_char_boundaries() {
    let mut field = TextEditState::with_value("ab你cd", false);

    field.move_caret_to(3, false);
    assert_eq!(field.caret, 2);
    field.insert_text("X", false);
    assert_eq!(field.value, "abX你cd");

    field.delete_backward();
    assert_eq!(field.value, "ab你cd");
    assert_eq!(field.caret, 2);

    field.move_caret_to("ab你".len(), false);
    field.delete_backward();
    assert_eq!(field.value, "abcd");
    assert_eq!(field.caret, 2);

    field.set_value("ab你cd".to_string());
    field.move_caret_to(2, false);
    field.delete_forward();
    assert_eq!(field.value, "abcd");
    assert_eq!(field.caret, 2);
}

#[test]
fn text_input_text_field_edits_at_utf8_char_boundaries() {
    let mut field = TextEditState::with_value("ab你cd", false);

    field.move_caret_to(3, false);
    assert_eq!(field.caret, 2);
    field.insert_text("X", false);
    assert_eq!(field.value, "abX你cd");

    field.delete_backward();
    assert_eq!(field.value, "ab你cd");
    assert_eq!(field.caret, 2);

    field.move_caret_to("ab你".len(), false);
    field.delete_backward();
    assert_eq!(field.value, "abcd");
    assert_eq!(field.caret, 2);

    field.set_value("ab你cd".to_string());
    field.move_caret_to(2, false);
    field.delete_forward();
    assert_eq!(field.value, "abcd");
    assert_eq!(field.caret, 2);
}

#[test]
fn main_text_field_selection_replace_and_navigation_work() {
    let mut field = TextEditState::with_value("abcdef", false);

    field.move_caret_to(2, false);
    field.move_caret_to(5, true);
    assert_eq!(field.selected_text().as_deref(), Some("cde"));

    field.insert_text("X", false);
    assert_eq!(field.value, "abXf");
    assert_eq!(field.caret, 3);
    assert_eq!(field.selected_range(), None);

    field.select_all();
    assert_eq!(field.selected_text().as_deref(), Some("abXf"));
    field.move_left(false);
    assert_eq!(field.caret, 0);
    assert_eq!(field.selected_range(), None);

    field.move_right(false);
    assert_eq!(field.caret, 1);
}

#[test]
fn text_input_text_field_selection_replace_and_navigation_work() {
    let mut field = TextEditState::with_value("abcdef", false);

    field.move_caret_to(2, false);
    field.move_caret_to(5, true);
    assert_eq!(field.selected_text().as_deref(), Some("cde"));

    field.insert_text("X", false);
    assert_eq!(field.value, "abXf");
    assert_eq!(field.caret, 3);
    assert_eq!(field.selected_range(), None);

    field.select_all();
    assert_eq!(field.selected_text().as_deref(), Some("abXf"));
    field.move_left(false);
    assert_eq!(field.caret, 0);
    assert_eq!(field.selected_range(), None);

    field.move_right(false);
    assert_eq!(field.caret, 1);
}

#[test]
fn main_text_field_single_line_paste_strips_newlines() {
    let mut single_line = TextEditState::with_value("ab", false);
    single_line.move_caret_to(1, false);
    single_line.insert_text("x\ny\r\nz", false);
    assert_eq!(single_line.value, "axyzb");

    let mut multiline = TextEditState::with_value("ab", false);
    multiline.move_caret_to(1, false);
    multiline.insert_text("x\ny", true);
    assert_eq!(multiline.value, "ax\nyb");
}

#[test]
fn text_input_text_field_single_line_paste_strips_newlines() {
    let mut single_line = TextEditState::with_value("ab", false);
    single_line.move_caret_to(1, false);
    single_line.insert_text("x\ny\r\nz", false);
    assert_eq!(single_line.value, "axyzb");

    let mut multiline = TextEditState::with_value("ab", false);
    multiline.move_caret_to(1, false);
    multiline.insert_text("x\ny", true);
    assert_eq!(multiline.value, "ax\nyb");
}

#[test]
fn main_text_field_secret_display_masks_and_blocks_copyable_text() {
    let mut field = TextEditState::with_value("密码12", true);

    assert_eq!(field.display_text(), "****");
    assert_eq!(field.display_byte_for_value_byte("密码".len()), 2);

    field.select_all();
    assert_eq!(field.selected_text().as_deref(), Some("密码12"));
    assert_eq!(field.copyable_selected_text(), None);

    field.clear();
    assert!(field.value.is_empty());
    assert_eq!(field.caret, 0);
    assert_eq!(field.selected_range(), None);
}

#[test]
fn text_input_text_field_secret_display_masks_and_blocks_copyable_text() {
    let mut field = TextEditState::with_value("密码12", true);

    assert_eq!(field.display_text(), "****");
    assert_eq!(field.display_byte_for_value_byte("密码".len()), 2);

    field.select_all();
    assert_eq!(field.selected_text().as_deref(), Some("密码12"));
    assert_eq!(field.copyable_selected_text(), None);

    field.clear();
    assert!(field.value.is_empty());
    assert_eq!(field.caret, 0);
    assert_eq!(field.selected_range(), None);
}

#[test]
fn main_text_field_click_position_uses_wide_character_widths() {
    let field = TextEditState::with_value("a你b", false);

    assert_eq!(field.byte_for_approx_x(pixels(0.0)), 0);
    assert_eq!(field.byte_for_approx_x(pixels(8.0)), 1);
    assert_eq!(field.byte_for_approx_x(pixels(18.0)), "a你".len());
    assert_eq!(field.byte_for_approx_x(pixels(80.0)), "a你b".len());
}

#[test]
fn text_input_text_field_click_position_uses_wide_character_widths() {
    let field = TextEditState::with_value("a你b", false);

    assert_eq!(field.byte_for_approx_x(pixels(0.0)), 0);
    assert_eq!(field.byte_for_approx_x(pixels(8.0)), 1);
    assert_eq!(field.byte_for_approx_x(pixels(18.0)), "a你".len());
    assert_eq!(field.byte_for_approx_x(pixels(80.0)), "a你b".len());
}

#[test]
fn text_field_utf16_ranges_round_trip() {
    let field = TextEditState::with_value("a你😀b", false);
    let range = "a你".len().."a你😀".len();

    assert_eq!(field.range_to_utf16(&range), 2..4);
    assert_eq!(field.range_from_utf16(&(2..4)), range);
    assert_eq!(field.text_for_utf16_range(&(1..4)), "你😀");
}

#[test]
fn text_field_grapheme_navigation_keeps_emoji_together() {
    let mut field = TextEditState::with_value("a👨‍👩‍👧‍👦b", false);
    field.move_caret_to(field.value.len(), false);

    field.move_left(false);
    assert_eq!(field.caret, "a👨‍👩‍👧‍👦".len());
    field.move_left(false);
    assert_eq!(field.caret, 1);
    field.delete_forward();
    assert_eq!(field.value, "ab");
}

#[test]
fn text_field_platform_replacement_strips_newlines() {
    let mut field = TextEditState::with_value("ab", false);
    field.move_caret_to(1, false);

    field.replace_text_in_utf16_range(None, "x\ny\r\nz");
    assert_eq!(field.value, "axyzb");
    assert_eq!(field.caret, 4);
}

#[test]
fn text_field_marked_text_replacement_updates_selection() {
    let mut field = TextEditState::with_value("ab", false);
    field.move_caret_to(1, false);

    field.replace_and_mark_text_in_utf16_range(None, "你", Some(1..1));
    assert_eq!(field.value, "a你b");
    assert_eq!(field.marked_range, Some(1.."a你".len()));
    assert_eq!(field.caret, "a你".len());
    assert_eq!(field.selected_range(), None);
}

#[test]
fn text_field_secret_utf16_text_is_masked() {
    let field = TextEditState::with_value("密码12", true);

    assert_eq!(field.text_for_utf16_range(&(0..4)), "****");
}

#[test]
fn a_tab_and_a_letter_have_their_own_widths() {
    let field = TextEditState::with_value("\té", false);

    assert_eq!(field.byte_for_approx_x(pixels(13.75)), 0);
    assert_eq!(field.byte_for_approx_x(pixels(14.0)), 1);
    assert_eq!(field.byte_for_approx_x(pixels(32.0)), 1);
    assert_eq!(field.byte_for_approx_x(pixels(32.25)), 3);
}

#[test]
fn replacing_back_restores_the_text() {
    let mut field = TextEditState::with_value("前缀-中间-后缀", false);
    let from = "前缀-".len();
    let to = "前缀-中间".len();
    field.move_caret_to(from, false);
    field.move_caret_to(to, true);
    let taken = field.selected_text().unwrap();
    field.insert_text("x😀", false);
    assert_eq!(field.value, "前缀-x😀-后缀");
    field.move_caret_to(from, false);
    field.move_caret_to(from + "x😀".len(), true);
    field.insert_text(&taken, false);
    assert_eq!(field.value, "前缀-中间-后缀");
    assert!(field.is_placed());
}

#[test]
fn a_mark_that_lies_outside_the_text_stops_no_typing() {
    let mut field = TextEditState::with_value("ab", false);
    field.replace_and_mark_text_in_utf16_range(None, "好", None);
    assert_eq!(field.marked_range, Some(2..5));
    field.delete_backward();
    assert_eq!((field.value.as_str(), field.marked_range.clone()), ("ab", Some(2..5)));
    assert!(field.is_placed());
    assert!(!field.is_replaceable(&None));
    assert!(field.is_replaceable(&Some(0..1)));
    let mut moved = TextEditState::with_value("ab", false);
    moved.marked_range = Some(2..5);
    moved.move_left(true);
    assert_eq!((moved.caret, moved.selection_anchor, moved.marked_range), (1, Some(2), None));
    field.insert_text("c", false);
    assert_eq!((field.value.as_str(), field.marked_range), ("abc", None));
    let mut stale = TextEditState::with_value("ab", false);
    stale.selection_anchor = Some(9);
    assert!(!stale.is_placed());
    stale.move_right(false);
    assert_eq!((stale.caret, stale.selection_anchor), (2, None));
}

#[test]
fn extending_keeps_the_other_end_of_the_selection() {
    let mut field = TextEditState::with_value("abc", false);
    field.move_caret_to(1, false);
    field.move_right(true);
    field.move_right(true);
    assert_eq!(field.selected_text().as_deref(), Some("bc"));
    assert!(!field.selection_reversed());
    field.move_left(true);
    field.move_left(true);
    field.move_left(true);
    assert_eq!(field.selected_text().as_deref(), Some("a"));
    assert!(field.selection_reversed());
    assert!(field.delete_selection());
    assert_eq!(field.value, "bc");
    assert!(!field.delete_selection());
}

#[test]
fn offsets_in_the_middle_of_a_pair_of_units_move_on() {
    let text = "a😀b";
    assert_eq!(offset_to_utf16_in_text(text, 1), 1);
    assert_eq!(offset_to_utf16_in_text(text, 5), 3);
    assert_eq!(offset_from_utf16_in_text(text, 1), 1);
    assert_eq!(offset_from_utf16_in_text(text, 2), 5);
    assert_eq!(offset_from_utf16_in_text(text, 99), 6);
}

#[test]
fn clicks_above_and_below_go_to_the_ends() {
    let field = TextEditState::with_value("a你b", false);
    assert_eq!(field.index_for_mouse_position(ClickedPlace::Above), 0);
    assert_eq!(field.index_for_mouse_position(ClickedPlace::NotDrawn), 0);
    assert_eq!(field.index_for_mouse_position(ClickedPlace::Below), 5);
    assert_eq!(field.index_for_mouse_position(ClickedPlace::On(3)), 1);
    let secret = TextEditState::with_value("a你b", true);
    assert_eq!(secret.index_for_mouse_position(ClickedPlace::On(2)), 4);
}
