//! The editor core: the input dispatcher. It owns the caret, the mode and
//! the viewport, routes decoded key events to the buffer and the edit log,
//! and keeps the caret on screen after every step.

use vstd::prelude::*;

use crate::buffer::TextBuffer;
use crate::editlog::{
    coalesces_with, lemma_stack_record, lemma_stack_redo, lemma_stack_typed, lemma_stack_undo,
    merged, redo_cursor, redo_ok, stack_undoable, undo_all, undo_cursor, EditLog, EditOp, GOp,
};
use crate::model::{
    char_at_pos, del_removed, del_text, flatten, ins_text, lemma_del_text_snoc,
    lemma_line_start_step, lemma_offset_bounds, line_insert_char, offset_of, pos_after_char,
    valid_pos, MAX_DOC_LEN,
};
use crate::viewport::{clamp_axis, Viewport};

verus! {

/// A decoded key.
#[derive(Clone, Copy, Debug, PartialEq, Eq, Structural)]
pub enum KeyCode {
    Left,
    Right,
    Up,
    Down,
    Char(char),
    Enter,
    Backspace,
    Esc,
}

/// A decoded terminal event. Mouse events are accepted and ignored.
#[derive(Clone, Copy, Debug, PartialEq, Eq, Structural)]
pub enum InputEvent {
    Key(KeyCode),
    Resize { rows: usize, cols: usize },
    Mouse,
}

/// The dispatcher's mode: arrows navigate, or characters are inserted.
#[derive(Clone, Copy, Debug, PartialEq, Eq, Structural)]
pub enum Mode {
    Navigation,
    Insert,
}

/// Where an arrow key moves the caret: clamped at the line's ends and the
/// document's first and last line, the column clamped to the target line.
pub open spec fn move_target(doc: Seq<Seq<char>>, l: int, c: int, key: KeyCode) -> (int, int) {
    match key {
        KeyCode::Left => if c > 0 {
            (l, c - 1)
        } else {
            (l, c)
        },
        KeyCode::Right => if c < doc[l].len() {
            (l, c + 1)
        } else {
            (l, c)
        },
        KeyCode::Up => if l > 0 {
            (l - 1, if c <= doc[l - 1].len() {
                c
            } else {
                doc[l - 1].len() as int
            })
        } else {
            (l, c)
        },
        KeyCode::Down => if l + 1 < doc.len() {
            (l + 1, if c <= doc[l + 1].len() {
                c
            } else {
                doc[l + 1].len() as int
            })
        } else {
            (l, c)
        },
        _ => (l, c),
    }
}

/// The position just before the caret: one column left, or the end of the
/// previous line.
pub open spec fn prev_pos(doc: Seq<Seq<char>>, l: int, c: int) -> (int, int) {
    if c > 0 {
        (l, c - 1)
    } else {
        (l - 1, doc[l - 1].len() as int)
    }
}

/// The editor: document, edit log, caret, viewport, mode.
pub struct EditorCore {
    pub buf: TextBuffer,
    pub log: EditLog,
    pub cur_line: usize,
    pub cur_col: usize,
    pub vp: Viewport,
    pub mode: Mode,
    pub running: bool,
}

/// The viewport of `post` is that of `pre` scrolled to the caret of `post`.
pub open spec fn scrolled_to(pre: EditorCore, post: EditorCore) -> bool {
    &&& post.vp.rows == pre.vp.rows
    &&& post.vp.cols == pre.vp.cols
    &&& post.vp.top_line == clamp_axis(
        pre.vp.top_line as int,
        post.cur_line as int,
        pre.vp.rows as int,
    )
    &&& post.vp.left_col == clamp_axis(
        pre.vp.left_col as int,
        post.cur_col as int,
        pre.vp.cols as int,
    )
}

/// Neither the document nor the recorded edits moved.
pub open spec fn same_doc_and_log(pre: EditorCore, post: EditorCore) -> bool {
    &&& post.buf@ == pre.buf@
    &&& post.log.undo_ops() == pre.log.undo_ops()
    &&& post.log.redo_ops() == pre.log.redo_ops()
}

impl EditorCore {
    /// Everything holds together: the buffer and log are consistent, the
    /// caret is a valid document position, the viewport shows it (the
    /// viewport invariant), every undo step can be undone in turn and every
    /// redo step reapplied.
    pub open spec fn inv(&self) -> bool {
        &&& self.buf.inv()
        &&& self.log.inv()
        &&& valid_pos(self.buf@, self.cur_line as int, self.cur_col as int)
        &&& self.vp.inv()
        &&& self.vp.shows(self.cur_line as int, self.cur_col as int)
        &&& stack_undoable(self.buf@, self.log.undo_ops())
        &&& redo_ok(self.buf@, self.log.redo_ops())
    }

    /// The document all recorded undo steps lead back to. Every edit,
    /// undo and redo leaves it unchanged: undoing everything always
    /// restores the content the history began from.
    pub open spec fn origin(&self) -> Seq<Seq<char>> {
        undo_all(self.buf@, self.log.undo_ops())
    }

    /// A fresh editor over the given document, caret at the start, in
    /// navigation mode, with an empty history.
    pub fn with_buffer(buf: TextBuffer, rows: usize, cols: usize) -> (r: EditorCore)
        requires
            buf.inv(),
            rows >= 1,
            cols >= 1,
        ensures
            r.inv(),
            r.buf@ == buf@,
            r.cur_line == 0 && r.cur_col == 0,
            r.vp == (Viewport { top_line: 0, left_col: 0, rows, cols }),
            r.mode == Mode::Navigation,
            r.running,
            r.log.undo_ops().len() == 0 && r.log.redo_ops().len() == 0,
    {
        proof {
            buf.lemma_inv();
        }
        EditorCore {
            buf,
            log: EditLog::new(),
            cur_line: 0,
            cur_col: 0,
            vp: Viewport::new(rows, cols),
            mode: Mode::Navigation,
            running: true,
        }
    }

    /// A fresh editor over an empty document.
    pub fn new(rows: usize, cols: usize) -> (r: EditorCore)
        requires
            rows >= 1,
            cols >= 1,
        ensures
            r.inv(),
            r.buf@ == seq![Seq::<char>::empty()],
            r.cur_line == 0 && r.cur_col == 0,
            r.mode == Mode::Navigation,
            r.running,
            r.log.undo_ops().len() == 0 && r.log.redo_ops().len() == 0,
    {
        EditorCore::with_buffer(TextBuffer::new(), rows, cols)
    }

    /// Move the caret by one arrow key, clamped by the line lengths, close
    /// the typed run, and scroll the caret into view.
    pub fn move_cursor(&mut self, key: KeyCode)
        requires
            old(self).inv(),
            key is Left || key is Right || key is Up || key is Down,
        ensures
            final(self).inv(),
            same_doc_and_log(*old(self), *final(self)),
            !final(self).log.group_open(),
            (final(self).cur_line as int, final(self).cur_col as int) == move_target(
                old(self).buf@,
                old(self).cur_line as int,
                old(self).cur_col as int,
                key,
            ),
            scrolled_to(*old(self), *final(self)),
            final(self).mode == old(self).mode,
            final(self).running == old(self).running,
            final(self).origin() == old(self).origin(),
    {
        match key {
            KeyCode::Left => {
                if self.cur_col > 0 {
                    self.cur_col = self.cur_col - 1;
                }
            },
            KeyCode::Right => {
                if self.cur_col < self.buf.line_len(self.cur_line) {
                    self.cur_col = self.cur_col + 1;
                }
            },
            KeyCode::Up => {
                if self.cur_line > 0 {
                    self.cur_line = self.cur_line - 1;
                    let len = self.buf.line_len(self.cur_line);
                    if self.cur_col > len {
                        self.cur_col = len;
                    }
                }
            },
            KeyCode::Down => {
                let count = self.buf.line_count();
                if self.cur_line + 1 < count {
                    self.cur_line = self.cur_line + 1;
                    let len = self.buf.line_len(self.cur_line);
                    if self.cur_col > len {
                        self.cur_col = len;
                    }
                }
            },
            _ => {},
        }
        self.log.close_group();
        self.vp.scroll_to_show(self.cur_line, self.cur_col);
    }

    /// Type one character at the caret: it goes into the document, the caret
    /// advances past it, the redo stack clears, and the character joins the
    /// open typed run as one undo step or starts a new one. On a document
    /// already at the size threshold the keystroke does nothing.
    pub fn type_char(&mut self, c: char)
        requires
            old(self).inv(),
        ensures
            final(self).inv(),
            final(self).mode == old(self).mode,
            final(self).running == old(self).running,
            final(self).origin() == old(self).origin(),
            flatten(old(self).buf@).len() >= MAX_DOC_LEN ==> *final(self) == *old(self),
            flatten(old(self).buf@).len() < MAX_DOC_LEN ==> {
                let pre = *old(self);
                let post = *final(self);
                &&& post.buf@ == ins_text(
                    pre.buf@,
                    pre.cur_line as int,
                    pre.cur_col as int,
                    seq![c],
                )
                &&& (post.cur_line as int, post.cur_col as int) == pos_after_char(
                    pre.cur_line as int,
                    pre.cur_col as int,
                    c,
                )
                &&& post.log.redo_ops().len() == 0
                &&& post.log.group_open()
                &&& {
                    let ops = pre.log.undo_ops();
                    if pre.log.group_open() && ops.len() > 0 && coalesces_with(
                        ops.last(),
                        pre.cur_line as int,
                        pre.cur_col as int,
                    ) {
                        post.log.undo_ops() == ops.update(
                            ops.len() - 1,
                            merged(ops.last(), c),
                        )
                    } else {
                        post.log.undo_ops() == ops.push(
                            GOp::Insert {
                                line: pre.cur_line as int,
                                col: pre.cur_col as int,
                                text: seq![c],
                            },
                        )
                    }
                }
                &&& scrolled_to(pre, post)
            },
    {
        if self.buf.char_count() >= MAX_DOC_LEN {
            return ;
        }
        let ghost pre = *self;
        proof {
            self.buf.lemma_inv();
            lemma_stack_typed(
                self.buf@,
                self.log.undo_ops(),
                self.cur_line as int,
                self.cur_col as int,
                c,
            );
            assert(seq![c].drop_first() =~= Seq::<char>::empty());
        }
        let line = self.cur_line;
        let col = self.cur_col;
        let p = self.buf.insert_char(line, col, c);
        self.log.record_typed(line, col, p.0, p.1, c);
        self.cur_line = p.0;
        self.cur_col = p.1;
        self.vp.scroll_to_show(self.cur_line, self.cur_col);
        proof {
            let d1 = line_insert_char(pre.buf@, line as int, col as int, c);
            let pp = pos_after_char(line as int, col as int, c);
            assert(seq![c][0] == c);
            assert(ins_text(d1, pp.0, pp.1, Seq::<char>::empty()) == d1);
            assert(self.buf@ == ins_text(pre.buf@, line as int, col as int, seq![c]));
        }
    }

    /// Delete the character before the caret: within a line the column to
    /// its left, at a line's start the line feed that ends the previous
    /// line, merging the two. The caret lands where the character stood, and
    /// the deletion is one fresh undo step. At the document's very start the
    /// keystroke only closes the typed run.
    pub fn backspace(&mut self)
        requires
            old(self).inv(),
        ensures
            final(self).inv(),
            final(self).mode == old(self).mode,
            final(self).running == old(self).running,
            final(self).origin() == old(self).origin(),
            !final(self).log.group_open(),
            old(self).cur_line == 0 && old(self).cur_col == 0 ==> {
                &&& same_doc_and_log(*old(self), *final(self))
                &&& final(self).cur_line == old(self).cur_line
                &&& final(self).cur_col == old(self).cur_col
                &&& final(self).vp == old(self).vp
            },
            !(old(self).cur_line == 0 && old(self).cur_col == 0) ==> {
                let pre = *old(self);
                let post = *final(self);
                let p = prev_pos(pre.buf@, pre.cur_line as int, pre.cur_col as int);
                &&& post.buf@ == del_text(pre.buf@, p.0, p.1, 1)
                &&& (post.cur_line as int, post.cur_col as int) == p
                &&& post.log.undo_ops() == pre.log.undo_ops().push(
                    GOp::Delete { line: p.0, col: p.1, text: seq![char_at_pos(pre.buf@, p.0, p.1)] },
                )
                &&& post.log.redo_ops().len() == 0
                &&& scrolled_to(pre, post)
            },
    {
        if self.cur_line == 0 && self.cur_col == 0 {
            self.log.close_group();
            return ;
        }
        let ghost pre = *self;
        let pl: usize;
        let pc: usize;
        if self.cur_col > 0 {
            pl = self.cur_line;
            pc = self.cur_col - 1;
        } else {
            pl = self.cur_line - 1;
            pc = self.buf.line_len(self.cur_line - 1);
            proof {
                lemma_line_start_step(self.buf@, pl as int);
            }
        }
        proof {
            lemma_offset_bounds(self.buf@, self.cur_line as int, self.cur_col as int);
            assert(offset_of(pre.buf@, pl as int, pc as int) + 1 == offset_of(
                pre.buf@,
                pre.cur_line as int,
                pre.cur_col as int,
            ));
        }
        let ch = self.buf.delete_char(pl, pc);
        let ghost gop = GOp::Delete {
            line: pl as int,
            col: pc as int,
            text: seq![char_at_pos(pre.buf@, pl as int, pc as int)],
        };
        proof {
            self.buf.lemma_inv();
            lemma_del_text_snoc(pre.buf@, pl as int, pc as int, 0);
            assert(del_text(pre.buf@, pl as int, pc as int, 1) == self.buf@);
            assert(del_removed(pre.buf@, pl as int, pc as int, 1) =~= seq![
                char_at_pos(pre.buf@, pl as int, pc as int),
            ]);
            assert(gop.valid_for(pre.buf@));
            pre.buf.lemma_inv();
            lemma_stack_record(pre.buf@, pre.log.undo_ops(), gop);
        }
        let mut text: Vec<char> = Vec::new();
        text.push(ch);
        proof {
            assert(text@ =~= seq![ch]);
        }
        self.log.record(EditOp::Delete { line: pl, col: pc, text });
        self.cur_line = pl;
        self.cur_col = pc;
        self.vp.scroll_to_show(pl, pc);
    }

    /// Undo the newest recorded step, if any: its inverse is applied, the
    /// caret returns to where the edit began (for an undone deletion, past
    /// the re-inserted text), and the step moves to the redo stack. With an
    /// empty history nothing changes but the typed run closing.
    pub fn undo(&mut self) -> (did: bool)
        requires
            old(self).inv(),
        ensures
            final(self).inv(),
            final(self).mode == old(self).mode,
            final(self).running == old(self).running,
            final(self).origin() == old(self).origin(),
            !final(self).log.group_open(),
            did <==> old(self).log.undo_ops().len() > 0,
            !did ==> same_doc_and_log(*old(self), *final(self)) && final(self).cur_line == old(
                self,
            ).cur_line && final(self).cur_col == old(self).cur_col && final(self).vp == old(
                self,
            ).vp,
            did ==> {
                let pre = *old(self);
                let post = *final(self);
                let op = pre.log.undo_ops().last();
                &&& post.buf@ == op.inverse().apply(pre.buf@)
                &&& post.log.undo_ops() == pre.log.undo_ops().drop_last()
                &&& post.log.redo_ops() == pre.log.redo_ops().push(op)
                &&& (post.cur_line as int, post.cur_col as int) == undo_cursor(op)
                &&& scrolled_to(pre, post)
            },
    {
        let ghost pre = *self;
        proof {
            self.buf.lemma_inv();
            if pre.log.undo_ops().len() > 0 {
                lemma_stack_undo(pre.buf@, pre.log.undo_ops(), pre.log.redo_ops());
            }
        }
        let popped = self.log.pop_undo();
        match popped {
            Option::None => false,
            Option::Some(op) => {
                match &op {
                    EditOp::Insert { line, col, text, .. } => {
                        let r = self.buf.delete(*line, *col, text.len());
                        proof {
                            assert(r is Ok);
                        }
                        self.cur_line = *line;
                        self.cur_col = *col;
                    },
                    EditOp::Delete { line, col, text } => {
                        let r = self.buf.insert(*line, *col, text);
                        match r {
                            Result::Ok(p) => {
                                self.cur_line = p.0;
                                self.cur_col = p.1;
                            },
                            Result::Err(_) => {
                                proof {
                                    assert(false);
                                }
                            },
                        }
                    },
                }
                self.log.push_redo(op);
                self.vp.scroll_to_show(self.cur_line, self.cur_col);
                true
            },
        }
    }

    /// Redo the most recently undone step, if any: it is reapplied, the
    /// caret lands as the original edit left it, and the step returns to the
    /// undo stack. With nothing to redo nothing changes but the typed run
    /// closing.
    pub fn redo(&mut self) -> (did: bool)
        requires
            old(self).inv(),
        ensures
            final(self).inv(),
            final(self).mode == old(self).mode,
            final(self).running == old(self).running,
            final(self).origin() == old(self).origin(),
            !final(self).log.group_open(),
            did <==> old(self).log.redo_ops().len() > 0,
            !did ==> same_doc_and_log(*old(self), *final(self)) && final(self).cur_line == old(
                self,
            ).cur_line && final(self).cur_col == old(self).cur_col && final(self).vp == old(
                self,
            ).vp,
            did ==> {
                let pre = *old(self);
                let post = *final(self);
                let op = pre.log.redo_ops().last();
                &&& post.buf@ == op.apply(pre.buf@)
                &&& post.log.redo_ops() == pre.log.redo_ops().drop_last()
                &&& post.log.undo_ops() == pre.log.undo_ops().push(op)
                &&& (post.cur_line as int, post.cur_col as int) == redo_cursor(op)
                &&& scrolled_to(pre, post)
            },
    {
        let ghost pre = *self;
        proof {
            self.buf.lemma_inv();
            if pre.log.redo_ops().len() > 0 {
                lemma_stack_redo(pre.buf@, pre.log.undo_ops(), pre.log.redo_ops());
            }
        }
        let popped = self.log.pop_redo();
        match popped {
            Option::None => false,
            Option::Some(op) => {
                match &op {
                    EditOp::Insert { line, col, text, .. } => {
                        let r = self.buf.insert(*line, *col, text);
                        match r {
                            Result::Ok(p) => {
                                self.cur_line = p.0;
                                self.cur_col = p.1;
                            },
                            Result::Err(_) => {
                                proof {
                                    assert(false);
                                }
                            },
                        }
                    },
                    EditOp::Delete { line, col, text } => {
                        let r = self.buf.delete(*line, *col, text.len());
                        proof {
                            assert(r is Ok);
                        }
                        self.cur_line = *line;
                        self.cur_col = *col;
                    },
                }
                self.log.push_undo(op);
                self.vp.scroll_to_show(self.cur_line, self.cur_col);
                true
            },
        }
    }

    /// The terminal changed size: the window takes the new size (never
    /// empty), keeps its reading position, and scrolls just enough to show
    /// the caret again.
    pub fn resize(&mut self, rows: usize, cols: usize)
        requires
            old(self).inv(),
        ensures
            final(self).inv(),
            same_doc_and_log(*old(self), *final(self)),
            final(self).cur_line == old(self).cur_line,
            final(self).cur_col == old(self).cur_col,
            final(self).mode == old(self).mode,
            final(self).running == old(self).running,
            final(self).origin() == old(self).origin(),
            final(self).log.group_open() == old(self).log.group_open(),
            final(self).vp.rows == if rows >= 1 {
                rows as int
            } else {
                1
            },
            final(self).vp.cols == if cols >= 1 {
                cols as int
            } else {
                1
            },
            final(self).vp.top_line == clamp_axis(
                old(self).vp.top_line as int,
                final(self).cur_line as int,
                final(self).vp.rows as int,
            ),
            final(self).vp.left_col == clamp_axis(
                old(self).vp.left_col as int,
                final(self).cur_col as int,
                final(self).vp.cols as int,
            ),
    {
        let r = if rows >= 1 {
            rows
        } else {
            1
        };
        let k = if cols >= 1 {
            cols
        } else {
            1
        };
        self.vp.resize(r, k);
        self.vp.scroll_to_show(self.cur_line, self.cur_col);
    }

    /// Enter insert mode: characters will be typed into the document.
    pub fn enter_insert(&mut self)
        requires
            old(self).inv(),
        ensures
            final(self).inv(),
            same_doc_and_log(*old(self), *final(self)),
            final(self).cur_line == old(self).cur_line,
            final(self).cur_col == old(self).cur_col,
            final(self).vp == old(self).vp,
            final(self).mode == Mode::Insert,
            final(self).running == old(self).running,
            final(self).origin() == old(self).origin(),
            !final(self).log.group_open(),
    {
        self.mode = Mode::Insert;
        self.log.close_group();
    }

    /// Leave insert mode for navigation, closing the typed run.
    pub fn leave_insert(&mut self)
        requires
            old(self).inv(),
        ensures
            final(self).inv(),
            same_doc_and_log(*old(self), *final(self)),
            final(self).cur_line == old(self).cur_line,
            final(self).cur_col == old(self).cur_col,
            final(self).vp == old(self).vp,
            final(self).mode == Mode::Navigation,
            final(self).running == old(self).running,
            final(self).origin() == old(self).origin(),
            !final(self).log.group_open(),
    {
        self.mode = Mode::Navigation;
        self.log.close_group();
    }

    /// Stop the editor, closing the typed run so no group dangles.
    pub fn quit(&mut self)
        requires
            old(self).inv(),
        ensures
            final(self).inv(),
            same_doc_and_log(*old(self), *final(self)),
            final(self).cur_line == old(self).cur_line,
            final(self).cur_col == old(self).cur_col,
            final(self).vp == old(self).vp,
            final(self).mode == old(self).mode,
            !final(self).running,
            final(self).origin() == old(self).origin(),
            !final(self).log.group_open(),
    {
        self.running = false;
        self.log.close_group();
    }

    /// One step of the state machine: route a decoded event by the current
    /// mode. Navigation: arrows move the caret, `i` enters insert mode, `u`
    /// undoes, `r` redoes, escape quits, all else is ignored. Insert:
    /// characters and enter type into the document, backspace deletes
    /// backwards, escape returns to navigation, arrows and the rest are
    /// ignored. A resize reshapes the viewport in either mode; mouse events
    /// are ignored.
    pub fn handle_event(&mut self, e: InputEvent)
        requires
            old(self).inv(),
        ensures
            final(self).inv(),
            final(self).origin() == old(self).origin(),
            match e {
                InputEvent::Key(key) => match (old(self).mode, key) {
                    (Mode::Navigation, KeyCode::Left) | (Mode::Navigation, KeyCode::Right) | (
                        Mode::Navigation,
                        KeyCode::Up,
                    ) | (Mode::Navigation, KeyCode::Down) => {
                        &&& same_doc_and_log(*old(self), *final(self))
                        &&& (final(self).cur_line as int, final(self).cur_col as int)
                            == move_target(
                            old(self).buf@,
                            old(self).cur_line as int,
                            old(self).cur_col as int,
                            key,
                        )
                        &&& scrolled_to(*old(self), *final(self))
                        &&& final(self).mode == old(self).mode
                        &&& final(self).running == old(self).running
                    },
                    (Mode::Navigation, KeyCode::Char(ch)) => if ch == 'i' {
                        final(self).mode == Mode::Insert && same_doc_and_log(
                            *old(self),
                            *final(self),
                        ) && final(self).running == old(self).running
                    } else if ch == 'u' {
                        final(self).mode == old(self).mode && final(self).running == old(
                            self,
                        ).running && (old(self).log.undo_ops().len() > 0 ==> final(self).buf@
                            == old(self).log.undo_ops().last().inverse().apply(old(self).buf@))
                            && (old(self).log.undo_ops().len() == 0 ==> same_doc_and_log(
                            *old(self),
                            *final(self),
                        ))
                    } else if ch == 'r' {
                        final(self).mode == old(self).mode && final(self).running == old(
                            self,
                        ).running && (old(self).log.redo_ops().len() > 0 ==> final(self).buf@
                            == old(self).log.redo_ops().last().apply(old(self).buf@)) && (old(
                            self,
                        ).log.redo_ops().len() == 0 ==> same_doc_and_log(*old(self), *final(self)))
                    } else {
                        *final(self) == *old(self)
                    },
                    (Mode::Navigation, KeyCode::Esc) => !final(self).running && same_doc_and_log(
                        *old(self),
                        *final(self),
                    ) && final(self).mode == old(self).mode,
                    (Mode::Insert, KeyCode::Char(ch)) => final(self).mode == Mode::Insert && (
                    flatten(old(self).buf@).len() < MAX_DOC_LEN ==> final(self).buf@ == ins_text(
                        old(self).buf@,
                        old(self).cur_line as int,
                        old(self).cur_col as int,
                        seq![ch],
                    )),
                    (Mode::Insert, KeyCode::Enter) => final(self).mode == Mode::Insert && (flatten(
                        old(self).buf@,
                    ).len() < MAX_DOC_LEN ==> final(self).buf@ == ins_text(
                        old(self).buf@,
                        old(self).cur_line as int,
                        old(self).cur_col as int,
                        seq!['\n'],
                    )),
                    (Mode::Insert, KeyCode::Backspace) => final(self).mode == Mode::Insert && (!(
                    old(self).cur_line == 0 && old(self).cur_col == 0) ==> final(self).buf@
                        == del_text(
                        old(self).buf@,
                        prev_pos(old(self).buf@, old(self).cur_line as int, old(self).cur_col as int).0,
                        prev_pos(old(self).buf@, old(self).cur_line as int, old(self).cur_col as int).1,
                        1,
                    )) && ((old(self).cur_line == 0 && old(self).cur_col == 0) ==> final(self).buf@
                        == old(self).buf@),
                    (Mode::Insert, KeyCode::Esc) => final(self).mode == Mode::Navigation
                        && same_doc_and_log(*old(self), *final(self)) && final(self).running == old(
                        self,
                    ).running,
                    _ => *final(self) == *old(self),
                },
                InputEvent::Resize { rows, cols } => {
                    &&& same_doc_and_log(*old(self), *final(self))
                    &&& final(self).mode == old(self).mode
                    &&& final(self).running == old(self).running
                    &&& final(self).vp.rows == if rows >= 1 {
                        rows as int
                    } else {
                        1
                    }
                    &&& final(self).vp.cols == if cols >= 1 {
                        cols as int
                    } else {
                        1
                    }
                },
                InputEvent::Mouse => *final(self) == *old(self),
            },
    {
        match e {
            InputEvent::Key(key) => {
                match self.mode {
                    Mode::Navigation => {
                        match key {
                            KeyCode::Left | KeyCode::Right | KeyCode::Up | KeyCode::Down => {
                                self.move_cursor(key);
                            },
                            KeyCode::Char(ch) => {
                                if ch == 'i' {
                                    self.enter_insert();
                                } else if ch == 'u' {
                                    self.undo();
                                } else if ch == 'r' {
                                    self.redo();
                                }
                            },
                            KeyCode::Esc => {
                                self.quit();
                            },
                            _ => {},
                        }
                    },
                    Mode::Insert => {
                        match key {
                            KeyCode::Char(ch) => {
                                self.type_char(ch);
                            },
                            KeyCode::Enter => {
                                self.type_char('\n');
                            },
                            KeyCode::Backspace => {
                                self.backspace();
                            },
                            KeyCode::Esc => {
                                self.leave_insert();
                            },
                            _ => {},
                        }
                    },
                }
            },
            InputEvent::Resize { rows, cols } => {
                self.resize(rows, cols);
            },
            InputEvent::Mouse => {},
        }
    }

    /// The caret's document position.
    pub fn cursor(&self) -> (p: (usize, usize))
        ensures
            p.0 == self.cur_line,
            p.1 == self.cur_col,
    {
        (self.cur_line, self.cur_col)
    }

    /// Whether the editor is still running.
    pub fn is_running(&self) -> (r: bool)
        ensures
            r == self.running,
    {
        self.running
    }
}

} // verus!
