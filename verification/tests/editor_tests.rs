use tedit::buffer::Buffer;
use tedit::editor::{Action, Editor, Key};

fn unnamed_editor() -> Editor {
    Editor::new(Buffer::new(None, None, false))
}

fn editor_on(content: &str) -> Editor {
    Editor::new(Buffer::new(Some(String::from("f.txt")), Some(String::from(content)), false))
}

#[test]
fn typing_builds_the_line_in_order() {
    let mut e = unnamed_editor();
    for c in ['h', 'i', '!'] {
        assert!(matches!(e.dispatch(Key::Char(c)), Action::Continue));
    }
    assert_eq!(e.buffer.line_count(), 1);
    assert_eq!(e.buffer.line_string(0), "hi!");
    assert_eq!(e.col, 3);
    assert_eq!(e.row, 0);
    assert!(e.buffer.modified);
}

#[test]
fn typed_newline_is_ignored() {
    let mut e = unnamed_editor();
    assert!(matches!(e.dispatch(Key::Char('\n')), Action::Continue));
    assert_eq!(e.buffer.line_count(), 1);
    assert_eq!(e.buffer.line_string(0), "");
    assert!(!e.buffer.modified);
}

#[test]
fn enter_then_backspace_restores_the_line() {
    let mut e = editor_on("abcd");
    e.dispatch(Key::Right);
    e.dispatch(Key::Right);
    assert_eq!((e.row, e.col), (0, 2));
    e.dispatch(Key::Enter);
    assert_eq!(e.buffer.line_count(), 2);
    assert_eq!(e.buffer.line_string(0), "ab");
    assert_eq!(e.buffer.line_string(1), "cd");
    assert_eq!((e.row, e.col), (1, 0));
    e.dispatch(Key::Backspace);
    assert_eq!(e.buffer.line_count(), 1);
    assert_eq!(e.buffer.line_string(0), "abcd");
    assert_eq!((e.row, e.col), (0, 2));
}

#[test]
fn enter_and_backspace_scenario_on_two_lines() {
    let mut e = editor_on("ab\ncd");
    assert_eq!(e.buffer.line_count(), 2);
    assert_eq!(e.buffer.line_string(0), "ab");
    assert_eq!(e.buffer.line_string(1), "cd");
    e.dispatch(Key::Right);
    e.dispatch(Key::Right);
    assert_eq!((e.row, e.col), (0, 2));
    e.dispatch(Key::Enter);
    assert_eq!(e.buffer.line_count(), 3);
    assert_eq!(e.buffer.line_string(0), "ab");
    assert_eq!(e.buffer.line_string(1), "");
    assert_eq!(e.buffer.line_string(2), "cd");
    assert_eq!((e.row, e.col), (1, 0));
    e.dispatch(Key::Backspace);
    assert_eq!(e.buffer.line_count(), 2);
    assert_eq!(e.buffer.line_string(0), "ab");
    assert_eq!(e.buffer.line_string(1), "cd");
    assert_eq!((e.row, e.col), (0, 2));
}

#[test]
fn quit_clean_exits_at_once() {
    let mut e = unnamed_editor();
    assert!(matches!(e.dispatch(Key::Quit), Action::Exit));
}

#[test]
fn quit_dirty_warns_then_exits_on_second_press() {
    let mut e = unnamed_editor();
    e.dispatch(Key::Char('h'));
    e.dispatch(Key::Char('i'));
    assert!(e.buffer.modified);
    let first = e.dispatch(Key::Quit);
    assert!(matches!(first, Action::Continue));
    assert_eq!(
        e.msg,
        "Modified. Press q again to quit without saving or s to save."
    );
    assert!(e.buffer.modified);
    let second = e.dispatch(Key::Quit);
    assert!(matches!(second, Action::Exit));
}

#[test]
fn intervening_key_resets_quit_confirmation() {
    let mut e = unnamed_editor();
    e.dispatch(Key::Char('h'));
    assert!(matches!(e.dispatch(Key::Quit), Action::Continue));
    e.dispatch(Key::Left);
    let again = e.dispatch(Key::Quit);
    assert!(matches!(again, Action::Continue));
    assert_eq!(
        e.msg,
        "Modified. Press q again to quit without saving or s to save."
    );
}

#[test]
fn interrupt_exits_even_when_dirty() {
    let mut e = unnamed_editor();
    e.dispatch(Key::Char('x'));
    assert!(matches!(e.dispatch(Key::Interrupt), Action::Exit));
}

#[test]
fn save_without_filename_reports_and_writes_nothing() {
    let mut e = unnamed_editor();
    e.dispatch(Key::Char('h'));
    e.dispatch(Key::Char('i'));
    let a = e.dispatch(Key::Save);
    assert!(matches!(a, Action::Continue));
    assert_eq!(e.msg, "No filename");
    assert!(e.buffer.modified);
}

#[test]
fn save_read_only_reports_and_writes_nothing() {
    let b = Buffer::new(Some(String::from("f.txt")), Some(String::from("x")), true);
    let mut e = Editor::new(b);
    let a = e.dispatch(Key::Save);
    assert!(matches!(a, Action::Continue));
    assert_eq!(e.msg, "File is read-only");
}

#[test]
fn save_hands_out_exact_write_and_confirm_clears_dirty() {
    let mut e = editor_on("hi");
    e.dispatch(Key::Char('x'));
    match e.dispatch(Key::Save) {
        Action::Write { filename, content } => {
            assert_eq!(filename, "f.txt");
            assert_eq!(content, "xhi\n");
        }
        _ => panic!("expected a write"),
    }
    e.confirm_saved();
    assert_eq!(e.msg, "Saved");
    assert!(!e.buffer.modified);
    // A save of an already clean buffer still re-confirms with the same text.
    match e.dispatch(Key::Save) {
        Action::Write { filename, content } => {
            assert_eq!(filename, "f.txt");
            assert_eq!(content, "xhi\n");
        }
        _ => panic!("expected a write"),
    }
}

#[test]
fn backspace_merges_only_at_line_start() {
    let mut e = editor_on("ab\ncd");
    e.dispatch(Key::Down);
    assert_eq!((e.row, e.col), (1, 0));
    e.dispatch(Key::Backspace);
    assert_eq!(e.buffer.line_count(), 1);
    assert_eq!(e.buffer.line_string(0), "abcd");
    assert_eq!((e.row, e.col), (0, 2));
}

#[test]
fn backspace_at_origin_is_a_no_op() {
    let mut e = editor_on("ab");
    e.dispatch(Key::Backspace);
    assert_eq!(e.buffer.line_string(0), "ab");
    assert_eq!((e.row, e.col), (0, 0));
    assert!(!e.buffer.modified);
}

#[test]
fn deleting_the_only_character_keeps_one_line() {
    let mut e = editor_on("x");
    e.dispatch(Key::Right);
    e.dispatch(Key::Backspace);
    assert_eq!(e.buffer.line_count(), 1);
    assert_eq!(e.buffer.line_string(0), "");
    assert_eq!((e.row, e.col), (0, 0));
}

#[test]
fn left_wraps_to_end_of_previous_line() {
    let mut e = editor_on("ab\ncd");
    e.dispatch(Key::Down);
    assert_eq!((e.row, e.col), (1, 0));
    e.dispatch(Key::Left);
    assert_eq!((e.row, e.col), (0, 2));
}

#[test]
fn right_wraps_to_start_of_next_line() {
    let mut e = editor_on("ab\ncd");
    e.dispatch(Key::Right);
    e.dispatch(Key::Right);
    e.dispatch(Key::Right);
    assert_eq!((e.row, e.col), (1, 0));
}

#[test]
fn right_at_end_of_last_line_stays_put() {
    let mut e = editor_on("ab");
    e.dispatch(Key::Right);
    e.dispatch(Key::Right);
    e.dispatch(Key::Right);
    assert_eq!((e.row, e.col), (0, 2));
}

#[test]
fn left_at_origin_stays_put() {
    let mut e = editor_on("ab");
    e.dispatch(Key::Left);
    assert_eq!((e.row, e.col), (0, 0));
}

#[test]
fn vertical_movement_clamps_the_column() {
    let mut e = editor_on("abcd\nx");
    for _ in 0..4 {
        e.dispatch(Key::Right);
    }
    assert_eq!((e.row, e.col), (0, 4));
    e.dispatch(Key::Down);
    assert_eq!((e.row, e.col), (1, 1));
    e.dispatch(Key::Up);
    assert_eq!((e.row, e.col), (0, 1));
}

#[test]
fn up_at_top_and_down_at_bottom_stay_put() {
    let mut e = editor_on("ab");
    e.dispatch(Key::Up);
    assert_eq!((e.row, e.col), (0, 0));
    e.dispatch(Key::Down);
    assert_eq!((e.row, e.col), (0, 0));
}

#[test]
fn other_keys_are_ignored_but_clear_the_message() {
    let mut e = unnamed_editor();
    e.dispatch(Key::Char('h'));
    e.dispatch(Key::Save);
    assert_eq!(e.msg, "No filename");
    e.dispatch(Key::Other);
    assert_eq!(e.msg, "");
    assert_eq!(e.buffer.line_string(0), "h");
}

#[test]
fn clamp_column_behaviour() {
    assert_eq!(tedit::clamp_column(3, 5), 3);
    assert_eq!(tedit::clamp_column(5, 5), 5);
    assert_eq!(tedit::clamp_column(7, 5), 5);
}
