use generic_launcher::entry_buffer::SearchEntryBuffer;
use generic_launcher::text::{
    char_is_whitespace, char_position, char_utf8_width, chars_of, is_blank_str, split_ranges,
    string_from_range,
};

#[test]
fn char_position_counts_bytes_of_first_n_chars() {
    assert_eq!(char_position("hello", 1), 1);
    assert_eq!(char_position("hello", 3), 3);
    assert_eq!(char_position("hello", 5), 5);
    // 'é' takes two bytes, '€' three.
    assert_eq!(char_position("héllo", 2), 3);
    assert_eq!(char_position("a€b", 2), 4);
    assert_eq!(char_position("a€b", 3), 5);
}

#[test]
fn char_position_is_zero_at_start_and_past_the_end() {
    assert_eq!(char_position("hello", 0), 0);
    assert_eq!(char_position("hello", 6), 0);
    assert_eq!(char_position("", 1), 0);
}

#[test]
fn utf8_widths() {
    assert_eq!(char_utf8_width('a'), 1);
    assert_eq!(char_utf8_width('é'), 2);
    assert_eq!(char_utf8_width('€'), 3);
    assert_eq!(char_utf8_width('😀'), 4);
}

#[test]
fn blank_text() {
    assert!(is_blank_str(""));
    assert!(is_blank_str("  \n\t "));
    assert!(is_blank_str("\u{3000}"));
    assert!(!is_blank_str("  a "));
    assert!(char_is_whitespace('\u{85}'));
    assert!(!char_is_whitespace('x'));
}

#[test]
fn splitting_on_a_separator() {
    let s = chars_of("/usr/share::/opt");
    let parts = split_ranges(&s, ':');
    assert_eq!(parts, vec![(0, 10), (11, 11), (12, 16)]);
    assert_eq!(string_from_range(&s, 12, 16), "/opt");
    let empty = chars_of("");
    assert_eq!(split_ranges(&empty, ':'), vec![(0, 0)]);
}

#[test]
fn buffer_insert_and_delete() {
    let mut b = SearchEntryBuffer::new();
    b.inserted_text(0, "frefox");
    assert_eq!(b.text(), "frefox");
    b.inserted_text(1, "i");
    assert_eq!(b.text(), "firefox");
    assert_eq!(b.length(), 7);
    b.deleted_text(4, Some(3));
    assert_eq!(b.text(), "fire");
    b.deleted_text(1, None);
    assert_eq!(b.text(), "f");
}

#[test]
fn buffer_ignores_carriage_return() {
    let mut b = SearchEntryBuffer::new();
    b.inserted_text(0, "ab");
    b.inserted_text(2, "\r");
    assert_eq!(b.text(), "ab");
}

#[test]
fn buffer_position_past_end_inserts_at_start() {
    let mut b = SearchEntryBuffer::new();
    b.inserted_text(0, "bc");
    b.inserted_text(9, "a");
    assert_eq!(b.text(), "abc");
}

#[test]
fn buffer_delete_count_past_end_deletes_nothing() {
    let mut b = SearchEntryBuffer::new();
    b.inserted_text(0, "abc");
    b.deleted_text(1, Some(5));
    assert_eq!(b.text(), "abc");
}

#[test]
fn buffer_multibyte_text() {
    let mut b = SearchEntryBuffer::new();
    b.inserted_text(0, "añb");
    b.inserted_text(2, "€");
    assert_eq!(b.text(), "añ€b");
    assert_eq!(b.length(), 4);
    b.deleted_text(1, Some(2));
    assert_eq!(b.text(), "ab");
}

#[test]
fn buffer_insert_then_delete_restores_text() {
    let mut b = SearchEntryBuffer::new();
    b.inserted_text(0, "kitty");
    b.inserted_text(3, "XYZ");
    assert_eq!(b.text(), "kitXYZty");
    b.deleted_text(3, Some(3));
    assert_eq!(b.text(), "kitty");
}
