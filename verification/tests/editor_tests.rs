use wave::buffer::TextBuffer;
use wave::editor::{EditorCore, InputEvent, KeyCode, Mode};

fn chars(s: &str) -> Vec<char> {
    s.chars().collect()
}

fn lines_of(ed: &EditorCore) -> Vec<String> {
    let mut out = Vec::new();
    let mut i = 0;
    while i < ed.buf.line_count() {
        let line = ed.buf.line_text(i).unwrap();
        out.push(line.into_iter().collect::<String>());
        i += 1;
    }
    out
}

fn key(ed: &mut EditorCore, k: KeyCode) {
    ed.handle_event(InputEvent::Key(k));
}

#[test]
fn insert_undo_redo_scenario() {
    // buffer = "hello\nworld", insert "!" at line 0 col 5, undo, redo.
    let buf = TextBuffer::from_text(&chars("hello\nworld"));
    let mut ed = EditorCore::with_buffer(buf, 10, 40);
    for _ in 0..5 {
        key(&mut ed, KeyCode::Right);
    }
    assert_eq!(ed.cursor(), (0, 5));
    key(&mut ed, KeyCode::Char('i'));
    assert_eq!(ed.mode, Mode::Insert);
    key(&mut ed, KeyCode::Char('!'));
    assert_eq!(lines_of(&ed), vec!["hello!".to_string(), "world".to_string()]);
    key(&mut ed, KeyCode::Esc);
    assert_eq!(ed.mode, Mode::Navigation);
    key(&mut ed, KeyCode::Char('u'));
    assert_eq!(lines_of(&ed), vec!["hello".to_string(), "world".to_string()]);
    assert_eq!(ed.cursor(), (0, 5));
    key(&mut ed, KeyCode::Char('r'));
    assert_eq!(lines_of(&ed), vec!["hello!".to_string(), "world".to_string()]);
    assert_eq!(ed.cursor(), (0, 6));
}

#[test]
fn down_twice_scrolls_viewport() {
    // Cursor at (0,0) in a 3-line document, viewport of 2 rows and 80
    // columns: two Down keys put the cursor on line 2 and scroll the top to
    // line 1.
    let buf = TextBuffer::from_text(&chars("one\ntwo\nthree"));
    let mut ed = EditorCore::with_buffer(buf, 2, 80);
    key(&mut ed, KeyCode::Down);
    key(&mut ed, KeyCode::Down);
    assert_eq!(ed.cursor(), (2, 0));
    assert_eq!(ed.vp.top_line, 1);
}

#[test]
fn backspace_merges_lines_and_undo_restores() {
    // Backspace at (1,0) in ["ab","cd"] merges to ["abcd"], cursor (0,2);
    // undo restores ["ab","cd"] with the cursor back at (1,0).
    let buf = TextBuffer::from_text(&chars("ab\ncd"));
    let mut ed = EditorCore::with_buffer(buf, 10, 40);
    key(&mut ed, KeyCode::Down);
    assert_eq!(ed.cursor(), (1, 0));
    key(&mut ed, KeyCode::Char('i'));
    key(&mut ed, KeyCode::Backspace);
    assert_eq!(lines_of(&ed), vec!["abcd".to_string()]);
    assert_eq!(ed.cursor(), (0, 2));
    key(&mut ed, KeyCode::Esc);
    key(&mut ed, KeyCode::Char('u'));
    assert_eq!(lines_of(&ed), vec!["ab".to_string(), "cd".to_string()]);
    assert_eq!(ed.cursor(), (1, 0));
}

#[test]
fn typed_run_coalesces_into_one_undo_step() {
    let mut ed = EditorCore::new(10, 40);
    key(&mut ed, KeyCode::Char('i'));
    key(&mut ed, KeyCode::Char('a'));
    key(&mut ed, KeyCode::Char('b'));
    key(&mut ed, KeyCode::Char('c'));
    assert_eq!(lines_of(&ed), vec!["abc".to_string()]);
    assert_eq!(ed.log.undo_len(), 1);
    key(&mut ed, KeyCode::Esc);
    key(&mut ed, KeyCode::Char('u'));
    assert_eq!(lines_of(&ed), vec!["".to_string()]);
    assert_eq!(ed.log.undo_len(), 0);
}

#[test]
fn cursor_move_closes_typed_run() {
    let mut ed = EditorCore::new(10, 40);
    key(&mut ed, KeyCode::Char('i'));
    key(&mut ed, KeyCode::Char('a'));
    key(&mut ed, KeyCode::Esc);
    key(&mut ed, KeyCode::Left);
    key(&mut ed, KeyCode::Right);
    key(&mut ed, KeyCode::Char('i'));
    key(&mut ed, KeyCode::Char('b'));
    assert_eq!(lines_of(&ed), vec!["ab".to_string()]);
    assert_eq!(ed.log.undo_len(), 2);
}

#[test]
fn enter_splits_line() {
    let mut ed = EditorCore::new(10, 40);
    key(&mut ed, KeyCode::Char('i'));
    key(&mut ed, KeyCode::Char('a'));
    key(&mut ed, KeyCode::Char('b'));
    key(&mut ed, KeyCode::Esc);
    key(&mut ed, KeyCode::Left);
    key(&mut ed, KeyCode::Char('i'));
    key(&mut ed, KeyCode::Enter);
    assert_eq!(lines_of(&ed), vec!["a".to_string(), "b".to_string()]);
    assert_eq!(ed.cursor(), (1, 0));
}

#[test]
fn undo_with_empty_history_is_a_no_op() {
    let mut ed = EditorCore::new(10, 40);
    key(&mut ed, KeyCode::Char('u'));
    assert_eq!(lines_of(&ed), vec!["".to_string()]);
    assert_eq!(ed.cursor(), (0, 0));
    assert_eq!(ed.log.undo_len(), 0);
    assert_eq!(ed.log.redo_len(), 0);
}

#[test]
fn redo_with_empty_history_is_a_no_op() {
    let mut ed = EditorCore::new(10, 40);
    key(&mut ed, KeyCode::Char('r'));
    assert_eq!(lines_of(&ed), vec!["".to_string()]);
    assert_eq!(ed.cursor(), (0, 0));
}

#[test]
fn fresh_edit_clears_redo() {
    let mut ed = EditorCore::new(10, 40);
    key(&mut ed, KeyCode::Char('i'));
    key(&mut ed, KeyCode::Char('a'));
    key(&mut ed, KeyCode::Esc);
    key(&mut ed, KeyCode::Char('u'));
    assert_eq!(ed.log.redo_len(), 1);
    key(&mut ed, KeyCode::Char('i'));
    key(&mut ed, KeyCode::Char('b'));
    assert_eq!(ed.log.redo_len(), 0);
    assert_eq!(lines_of(&ed), vec!["b".to_string()]);
}

#[test]
fn edits_then_undos_restore_original() {
    let buf = TextBuffer::from_text(&chars("base"));
    let mut ed = EditorCore::with_buffer(buf, 10, 40);
    key(&mut ed, KeyCode::Char('i'));
    key(&mut ed, KeyCode::Char('x'));
    key(&mut ed, KeyCode::Esc);
    key(&mut ed, KeyCode::Char('i'));
    key(&mut ed, KeyCode::Enter);
    key(&mut ed, KeyCode::Char('y'));
    key(&mut ed, KeyCode::Esc);
    while ed.log.undo_len() > 0 {
        key(&mut ed, KeyCode::Char('u'));
    }
    assert_eq!(lines_of(&ed), vec!["base".to_string()]);
    assert_eq!(ed.log.undo_len(), 0);
}

#[test]
fn arrows_clamp_at_document_edges() {
    let buf = TextBuffer::from_text(&chars("abc\nx"));
    let mut ed = EditorCore::with_buffer(buf, 10, 40);
    key(&mut ed, KeyCode::Left);
    assert_eq!(ed.cursor(), (0, 0));
    key(&mut ed, KeyCode::Up);
    assert_eq!(ed.cursor(), (0, 0));
    key(&mut ed, KeyCode::Right);
    key(&mut ed, KeyCode::Right);
    key(&mut ed, KeyCode::Right);
    key(&mut ed, KeyCode::Right);
    assert_eq!(ed.cursor(), (0, 3));
    key(&mut ed, KeyCode::Down);
    // The column clamps to the shorter line below.
    assert_eq!(ed.cursor(), (1, 1));
    key(&mut ed, KeyCode::Down);
    assert_eq!(ed.cursor(), (1, 1));
}

#[test]
fn esc_in_navigation_quits() {
    let mut ed = EditorCore::new(10, 40);
    assert!(ed.is_running());
    key(&mut ed, KeyCode::Esc);
    assert!(!ed.is_running());
}

#[test]
fn mouse_events_are_ignored() {
    let mut ed = EditorCore::new(10, 40);
    ed.handle_event(InputEvent::Mouse);
    assert_eq!(lines_of(&ed), vec!["".to_string()]);
    assert_eq!(ed.cursor(), (0, 0));
    assert!(ed.is_running());
}

#[test]
fn resize_keeps_cursor_visible() {
    let buf = TextBuffer::from_text(&chars("a\nb\nc\nd\ne"));
    let mut ed = EditorCore::with_buffer(buf, 5, 80);
    for _ in 0..4 {
        key(&mut ed, KeyCode::Down);
    }
    assert_eq!(ed.cursor(), (4, 0));
    assert_eq!(ed.vp.top_line, 0);
    ed.handle_event(InputEvent::Resize { rows: 2, cols: 80 });
    assert_eq!(ed.vp.rows, 2);
    // The viewport invariant holds: the cursor line is back in view.
    assert!(ed.vp.top_line <= 4 && 4 < ed.vp.top_line + ed.vp.rows);
    assert_eq!(ed.vp.top_line, 3);
}

#[test]
fn typing_at_the_size_threshold_is_ignored() {
    let text = vec!['a'; wave::model::MAX_DOC_LEN];
    let buf = TextBuffer::from_text(&text);
    let mut ed = EditorCore::with_buffer(buf, 10, 40);
    key(&mut ed, KeyCode::Char('i'));
    key(&mut ed, KeyCode::Char('x'));
    assert_eq!(ed.buf.char_count(), wave::model::MAX_DOC_LEN);
    assert_eq!(ed.cursor(), (0, 0));
    assert_eq!(ed.log.undo_len(), 0);
}

#[test]
fn backspace_at_document_start_does_nothing() {
    let mut ed = EditorCore::new(10, 40);
    key(&mut ed, KeyCode::Char('i'));
    key(&mut ed, KeyCode::Backspace);
    assert_eq!(lines_of(&ed), vec!["".to_string()]);
    assert_eq!(ed.cursor(), (0, 0));
    assert_eq!(ed.log.undo_len(), 0);
}
