use wave::buffer::TextBuffer;
use wave::renderer::{PaintCommand, Renderer};
use wave::viewport::Viewport;
use wave::welcome::welcome_row;

fn chars(s: &str) -> Vec<char> {
    s.chars().collect()
}

fn text_of(v: &Vec<char>) -> String {
    v.iter().collect()
}

#[test]
fn first_render_paints_every_row_then_cursor() {
    let buf = TextBuffer::from_text(&chars("hello\nworld"));
    let vp = Viewport::new(3, 8);
    let mut rd = Renderer::new();
    let cmds = rd.render(&buf, &vp, 0, 0);
    assert_eq!(cmds.len(), 4);
    match &cmds[0] {
        PaintCommand::Put { row, col, text } => {
            assert_eq!((*row, *col), (0, 0));
            assert_eq!(text_of(text), "hello   ");
        }
        _ => panic!("expected a row write"),
    }
    match &cmds[1] {
        PaintCommand::Put { row, col, text } => {
            assert_eq!((*row, *col), (1, 0));
            assert_eq!(text_of(text), "world   ");
        }
        _ => panic!("expected a row write"),
    }
    match &cmds[2] {
        PaintCommand::Put { row, col, text } => {
            assert_eq!((*row, *col), (2, 0));
            assert_eq!(text_of(text), "~       ");
        }
        _ => panic!("expected a row write"),
    }
    match &cmds[3] {
        PaintCommand::MoveCursor { row, col } => assert_eq!((*row, *col), (0, 0)),
        _ => panic!("the final command must position the cursor"),
    }
}

#[test]
fn unchanged_frame_emits_only_the_cursor_command() {
    let buf = TextBuffer::from_text(&chars("hello\nworld"));
    let vp = Viewport::new(2, 10);
    let mut rd = Renderer::new();
    rd.render(&buf, &vp, 0, 0);
    let cmds = rd.render(&buf, &vp, 1, 2);
    assert_eq!(cmds.len(), 1);
    assert!(matches!(cmds[0], PaintCommand::MoveCursor { row: 1, col: 2 }));
}

#[test]
fn one_changed_character_emits_one_paint_command() {
    let mut buf = TextBuffer::from_text(&chars("hello\nworld"));
    let vp = Viewport::new(2, 10);
    let mut rd = Renderer::new();
    rd.render(&buf, &vp, 0, 0);
    // Change a single character on line 1.
    buf.delete(1, 0, 1).unwrap();
    buf.insert(1, 0, &chars("W")).unwrap();
    let cmds = rd.render(&buf, &vp, 1, 1);
    assert_eq!(cmds.len(), 2);
    match &cmds[0] {
        PaintCommand::Put { row, col, text } => {
            assert_eq!((*row, *col), (1, 0));
            assert_eq!(text_of(text), "World     ");
        }
        _ => panic!("expected a row write"),
    }
    assert!(matches!(cmds[1], PaintCommand::MoveCursor { row: 1, col: 1 }));
}

#[test]
fn horizontal_scroll_slices_the_line() {
    let buf = TextBuffer::from_text(&chars("abcdefgh"));
    let mut vp = Viewport::new(1, 4);
    vp.scroll_to_show(0, 5);
    assert_eq!(vp.left_col, 2);
    let mut rd = Renderer::new();
    let cmds = rd.render(&buf, &vp, 0, 5);
    match &cmds[0] {
        PaintCommand::Put { text, .. } => assert_eq!(text_of(text), "cdef"),
        _ => panic!("expected a row write"),
    }
    assert!(matches!(cmds[1], PaintCommand::MoveCursor { row: 0, col: 3 }));
}

#[test]
fn resize_repaints_from_blank() {
    let buf = TextBuffer::from_text(&chars("hi"));
    let mut rd = Renderer::new();
    let vp1 = Viewport::new(2, 5);
    rd.render(&buf, &vp1, 0, 0);
    let vp2 = Viewport::new(1, 5);
    let cmds = rd.render(&buf, &vp2, 0, 0);
    // After a size change the single row differs from the blank base.
    assert_eq!(cmds.len(), 2);
    match &cmds[0] {
        PaintCommand::Put { text, .. } => assert_eq!(text_of(text), "hi   "),
        _ => panic!("expected a row write"),
    }
}

#[test]
fn scroll_clamps_each_axis() {
    let mut vp = Viewport::new(4, 10);
    vp.scroll_to_show(9, 0);
    assert_eq!(vp.top_line, 6);
    vp.scroll_to_show(2, 0);
    assert_eq!(vp.top_line, 2);
    vp.scroll_to_show(3, 25);
    assert_eq!(vp.top_line, 2);
    assert_eq!(vp.left_col, 16);
}

#[test]
fn resize_preserves_reading_position() {
    let mut vp = Viewport::new(4, 10);
    vp.scroll_to_show(9, 0);
    assert_eq!(vp.top_line, 6);
    vp.resize(8, 20);
    assert_eq!(vp.top_line, 6);
    assert_eq!(vp.left_col, 0);
    assert_eq!((vp.rows, vp.cols), (8, 20));
}

#[test]
fn welcome_rows_center_the_banner() {
    let message = chars("Wave editor -- version 0.1.0");
    let banner = welcome_row(40, 5, 15, &message);
    let s = text_of(&banner);
    assert_eq!(s.len(), 34);
    assert!(s.starts_with("~     Wave editor -- version 0.1.0"));
    let plain = welcome_row(40, 0, 15, &message);
    assert_eq!(text_of(&plain), "~");
    let narrow = welcome_row(10, 5, 15, &message);
    assert_eq!(text_of(&narrow), "~Wave edit");
}
