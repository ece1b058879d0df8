use tedit::buffer::{Buffer, SavePlan};
use tedit::render::{decimal_chars, status_text};
use tedit::text::{join_to_chars, split_content};

fn chars_to_string(cs: &[char]) -> String {
    cs.iter().collect()
}

#[test]
fn load_splits_on_newlines() {
    let b = Buffer::new(Some(String::from("f.txt")), Some(String::from("ab\ncd")), false);
    assert_eq!(b.line_count(), 2);
    assert_eq!(b.line_string(0), "ab");
    assert_eq!(b.line_string(1), "cd");
    assert!(!b.modified);
    assert!(!b.readonly);
}

#[test]
fn load_drops_trailing_newline_segment() {
    let b = Buffer::new(Some(String::from("f.txt")), Some(String::from("ab\ncd\n")), false);
    assert_eq!(b.line_count(), 2);
    assert_eq!(b.line_string(0), "ab");
    assert_eq!(b.line_string(1), "cd");
}

#[test]
fn load_keeps_inner_empty_lines() {
    let b = Buffer::new(None, Some(String::from("a\n\n")), false);
    assert_eq!(b.line_count(), 2);
    assert_eq!(b.line_string(0), "a");
    assert_eq!(b.line_string(1), "");
}

#[test]
fn load_empty_content_gives_one_empty_line() {
    let b = Buffer::new(None, Some(String::new()), false);
    assert_eq!(b.line_count(), 1);
    assert_eq!(b.line_string(0), "");
}

#[test]
fn load_single_newline_gives_one_empty_line() {
    let b = Buffer::new(None, Some(String::from("\n")), false);
    assert_eq!(b.line_count(), 1);
    assert_eq!(b.line_string(0), "");
}

#[test]
fn load_without_content_gives_empty_writable_buffer() {
    let b = Buffer::new(Some(String::from("new.txt")), None, true);
    assert_eq!(b.line_count(), 1);
    assert_eq!(b.line_string(0), "");
    assert!(!b.readonly);
    assert!(!b.modified);
}

#[test]
fn round_trip_adds_missing_trailing_newline() {
    let b = Buffer::new(Some(String::from("f.txt")), Some(String::from("ab\ncd")), false);
    assert_eq!(b.content_string(), "ab\ncd\n");
}

#[test]
fn round_trip_is_exact_with_trailing_newline() {
    let b = Buffer::new(Some(String::from("f.txt")), Some(String::from("ab\ncd\n")), false);
    assert_eq!(b.content_string(), "ab\ncd\n");
}

#[test]
fn round_trip_is_idempotent_on_second_save() {
    let first = Buffer::new(None, Some(String::from("one\ntwo")), false).content_string();
    let second = Buffer::new(None, Some(first.clone()), false).content_string();
    assert_eq!(first, second);
}

#[test]
fn save_plan_without_filename() {
    let b = Buffer::new(None, Some(String::from("x")), false);
    assert!(matches!(b.save_plan(), SavePlan::NoFilename));
}

#[test]
fn save_plan_read_only() {
    let b = Buffer::new(Some(String::from("f.txt")), Some(String::from("x")), true);
    assert!(b.readonly);
    assert!(matches!(b.save_plan(), SavePlan::ReadOnly));
}

#[test]
fn save_plan_carries_name_and_text() {
    let mut b = Buffer::new(Some(String::from("f.txt")), Some(String::from("hi")), false);
    b.insert_char(0, 2, '!');
    assert!(b.modified);
    match b.save_plan() {
        SavePlan::Write { filename, content } => {
            assert_eq!(filename, "f.txt");
            assert_eq!(content, "hi!\n");
        }
        _ => panic!("expected a write plan"),
    }
    b.mark_saved();
    assert!(!b.modified);
}

#[test]
fn split_and_merge_buffer_operations() {
    let mut b = Buffer::new(None, Some(String::from("abcd")), false);
    b.split_line(0, 2);
    assert_eq!(b.line_count(), 2);
    assert_eq!(b.line_string(0), "ab");
    assert_eq!(b.line_string(1), "cd");
    b.merge_lines(1);
    assert_eq!(b.line_count(), 1);
    assert_eq!(b.line_string(0), "abcd");
}

#[test]
fn delete_only_character_leaves_one_empty_line() {
    let mut b = Buffer::new(None, Some(String::from("x")), false);
    b.delete_char(0, 1);
    assert_eq!(b.line_count(), 1);
    assert_eq!(b.line_string(0), "");
}

#[test]
fn split_content_edges() {
    let empty = split_content("");
    assert_eq!(empty.len(), 1);
    assert!(empty[0].is_empty());
    let joined = join_to_chars(&split_content("a\nb"));
    assert_eq!(chars_to_string(&joined), "a\nb\n");
}

#[test]
fn decimal_rendering_exact() {
    assert_eq!(chars_to_string(&decimal_chars(0)), "0");
    assert_eq!(chars_to_string(&decimal_chars(7)), "7");
    assert_eq!(chars_to_string(&decimal_chars(10)), "10");
    assert_eq!(chars_to_string(&decimal_chars(12345)), "12345");
    assert_eq!(chars_to_string(&decimal_chars(1000)), "1000");
}

#[test]
fn status_line_unnamed_clean() {
    let b = Buffer::new(None, None, false);
    assert_eq!(status_text(&b), " [No Name] - 1 lines ");
}

#[test]
fn status_line_named_modified() {
    let mut b = Buffer::new(Some(String::from("f.txt")), Some(String::from("ab\ncd")), false);
    b.insert_char(0, 0, 'x');
    assert_eq!(status_text(&b), " f.txt - 2 lines (modified)");
}
