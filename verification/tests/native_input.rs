use raf_render::ui_surface::native_input::{InputEdges, NativeTextInput};

const DELETE: u32 = 46;
const LETTER_A: u32 = 65;
const PRIMARY: u32 = 0;

#[test]
fn native_text_key_edges_preserve_fast_delete_taps_until_the_frame_is_consumed() {
    let mut keys = InputEdges::new();
    let mut text = NativeTextInput::new();
    keys.press(DELETE);
    text.key_pressed(DELETE, true);
    keys.release(DELETE);
    keys.press(DELETE);
    text.key_pressed(DELETE, true);

    assert_eq!(text.press_count(DELETE), 2);
    keys.begin_frame();
    text.begin_frame();
    assert!(text.pending_text_keys().is_empty());
    assert!(!keys.was_pressed(DELETE));
    assert!(keys.is_down(DELETE));
}

#[test]
fn a_repeated_press_of_a_held_key_is_no_new_edge() {
    let mut keys = InputEdges::new();
    keys.press(LETTER_A);
    assert!(keys.was_pressed(LETTER_A));
    keys.begin_frame();
    keys.press(LETTER_A);
    assert!(keys.is_down(LETTER_A));
    assert!(!keys.was_pressed(LETTER_A));
}

#[test]
fn a_release_lets_go_and_is_recorded_for_the_frame() {
    let mut buttons = InputEdges::new();
    buttons.press(PRIMARY);
    buttons.release(PRIMARY);
    assert!(!buttons.is_down(PRIMARY));
    assert!(buttons.was_pressed(PRIMARY));
    assert!(buttons.was_released(PRIMARY));
    buttons.begin_frame();
    assert!(!buttons.was_released(PRIMARY));
    assert!(!buttons.was_pressed(PRIMARY));
}

#[test]
fn only_text_editing_keys_are_queued() {
    let mut text = NativeTextInput::new();
    text.key_pressed(LETTER_A, false);
    text.key_pressed(DELETE, true);
    assert_eq!(text.pending_text_keys(), &[DELETE]);
    assert_eq!(text.press_count(LETTER_A), 0);
}

#[test]
fn typed_text_is_dropped_under_a_command_chord_or_alt() {
    let mut text = NativeTextInput::new();
    text.typed("a", false, false);
    text.typed("v", true, false);
    text.typed("x", false, true);
    text.typed("b", false, false);
    assert_eq!(text.text_input(), "ab");
}

#[test]
fn an_input_method_commit_enters_text_and_ends_the_composition() {
    let mut text = NativeTextInput::new();
    text.ime_preedit("ni");
    assert_eq!(text.ime_preedit_text(), "ni");
    text.ime_preedit("nih");
    assert_eq!(text.ime_preedit_text(), "nih");
    text.ime_commit("你好");
    assert_eq!(text.text_input(), "你好");
    assert_eq!(text.ime_preedit_text(), "");
    text.ime_preedit("x");
    text.ime_toggled();
    assert_eq!(text.ime_preedit_text(), "");
}

#[test]
fn losing_focus_drops_the_queued_key_presses() {
    let mut text = NativeTextInput::new();
    text.key_pressed(DELETE, true);
    text.typed("q", false, false);
    text.focus_lost();
    assert!(text.pending_text_keys().is_empty());
    assert_eq!(text.text_input(), "q");
}

#[test]
fn a_new_frame_consumes_text_but_keeps_the_composition() {
    let mut text = NativeTextInput::new();
    text.typed("q", false, false);
    text.ime_preedit("ka");
    text.begin_frame();
    assert_eq!(text.text_input(), "");
    assert_eq!(text.ime_preedit_text(), "ka");
}
