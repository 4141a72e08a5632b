use wave::buffer::{EditorError, TextBuffer};

fn chars(s: &str) -> Vec<char> {
    s.chars().collect()
}

fn lines_of(buf: &TextBuffer) -> Vec<String> {
    let mut out = Vec::new();
    let mut i = 0;
    while i < buf.line_count() {
        let line = buf.line_text(i).unwrap();
        out.push(line.into_iter().collect::<String>());
        i += 1;
    }
    out
}

#[test]
fn new_buffer_is_one_empty_line() {
    let buf = TextBuffer::new();
    assert_eq!(buf.line_count(), 1);
    assert_eq!(buf.line_len(0), 0);
    assert_eq!(buf.char_count(), 0);
}

#[test]
fn from_text_splits_lines() {
    let buf = TextBuffer::from_text(&chars("hello\nworld"));
    assert_eq!(lines_of(&buf), vec!["hello".to_string(), "world".to_string()]);
    assert_eq!(buf.char_count(), 11);
}

#[test]
fn from_text_empty_and_trailing_newline() {
    let empty = TextBuffer::from_text(&chars(""));
    assert_eq!(lines_of(&empty), vec!["".to_string()]);
    let trailing = TextBuffer::from_text(&chars("ab\n"));
    assert_eq!(lines_of(&trailing), vec!["ab".to_string(), "".to_string()]);
}

#[test]
fn insert_single_line_text() {
    let mut buf = TextBuffer::from_text(&chars("hello\nworld"));
    let end = buf.insert(0, 5, &chars("!")).unwrap();
    assert_eq!(end, (0, 6));
    assert_eq!(lines_of(&buf), vec!["hello!".to_string(), "world".to_string()]);
}

#[test]
fn insert_multiline_text_splits() {
    let mut buf = TextBuffer::from_text(&chars("ad"));
    let end = buf.insert(0, 1, &chars("b\nc")).unwrap();
    assert_eq!(end, (1, 1));
    assert_eq!(lines_of(&buf), vec!["ab".to_string(), "cd".to_string()]);
}

#[test]
fn insert_out_of_bounds_is_rejected() {
    let mut buf = TextBuffer::from_text(&chars("ab"));
    assert_eq!(buf.insert(1, 0, &chars("x")), Err(EditorError::OutOfBounds));
    assert_eq!(buf.insert(0, 3, &chars("x")), Err(EditorError::OutOfBounds));
    assert_eq!(lines_of(&buf), vec!["ab".to_string()]);
}

#[test]
fn delete_within_line() {
    let mut buf = TextBuffer::from_text(&chars("hello"));
    let removed = buf.delete(0, 1, 3).unwrap();
    assert_eq!(removed.into_iter().collect::<String>(), "ell");
    assert_eq!(lines_of(&buf), vec!["ho".to_string()]);
}

#[test]
fn delete_across_lines_merges() {
    let mut buf = TextBuffer::from_text(&chars("ab\ncd"));
    let removed = buf.delete(0, 1, 3).unwrap();
    assert_eq!(removed.into_iter().collect::<String>(), "b\nc");
    assert_eq!(lines_of(&buf), vec!["ad".to_string()]);
}

#[test]
fn delete_past_end_is_rejected() {
    let mut buf = TextBuffer::from_text(&chars("ab"));
    assert_eq!(buf.delete(0, 1, 2), Err(EditorError::OutOfBounds));
    assert_eq!(buf.delete(2, 0, 1), Err(EditorError::OutOfBounds));
    assert_eq!(lines_of(&buf), vec!["ab".to_string()]);
}

#[test]
fn char_at_reads_columns_and_line_feeds() {
    let buf = TextBuffer::from_text(&chars("ab\ncd"));
    assert_eq!(buf.char_at(0, 1), Ok('b'));
    assert_eq!(buf.char_at(0, 2), Ok('\n'));
    assert_eq!(buf.char_at(1, 0), Ok('c'));
    assert_eq!(buf.char_at(1, 2), Err(EditorError::OutOfBounds));
    assert_eq!(buf.char_at(2, 0), Err(EditorError::OutOfBounds));
}

#[test]
fn line_text_out_of_bounds() {
    let buf = TextBuffer::new();
    assert_eq!(buf.line_text(1), Err(EditorError::OutOfBounds));
}

#[test]
fn pos_offset_counts_line_feeds() {
    let buf = TextBuffer::from_text(&chars("ab\ncd"));
    assert_eq!(buf.pos_offset(0, 0), 0);
    assert_eq!(buf.pos_offset(0, 2), 2);
    assert_eq!(buf.pos_offset(1, 0), 3);
    assert_eq!(buf.pos_offset(1, 1), 4);
}

#[test]
fn insert_then_delete_round_trip() {
    let mut buf = TextBuffer::from_text(&chars("hello\nworld"));
    let text = chars("one\ntwo");
    buf.insert(1, 2, &text).unwrap();
    let removed = buf.delete(1, 2, text.len()).unwrap();
    assert_eq!(removed, text);
    assert_eq!(lines_of(&buf), vec!["hello".to_string(), "world".to_string()]);
}
