//! The edit log: two stacks of invertible edit operations for undo and redo,
//! consecutive typed characters coalescing into one undo step.

use vstd::prelude::*;

use crate::model::{
    del_removed, del_text, doc_ok, flatten, ins_text, lemma_delete_then_insert, lemma_del_text,
    lemma_insert_then_delete, lemma_ins_text, lemma_ins_text_append, lemma_pos_after_snoc,
    offset_of, pos_after, pos_after_char, valid_pos, MAX_DOC_LEN,
};

verus! {

/// A recorded edit: the position it was made at, and the text it inserted or
/// removed. An insertion also carries where the caret ended, which is
/// determined by its position and text.
pub enum EditOp {
    Insert { line: usize, col: usize, end_line: usize, end_col: usize, text: Vec<char> },
    Delete { line: usize, col: usize, text: Vec<char> },
}

/// The mathematical form of an edit operation.
pub enum GOp {
    Insert { line: int, col: int, text: Seq<char> },
    Delete { line: int, col: int, text: Seq<char> },
}

impl View for EditOp {
    type V = GOp;

    open spec fn view(&self) -> GOp {
        match self {
            EditOp::Insert { line, col, end_line, end_col, text } => GOp::Insert {
                line: *line as int,
                col: *col as int,
                text: text@,
            },
            EditOp::Delete { line, col, text } => GOp::Delete {
                line: *line as int,
                col: *col as int,
                text: text@,
            },
        }
    }
}

impl EditOp {
    /// An insertion's stored caret end is where the caret lands after its
    /// text.
    pub open spec fn wf(&self) -> bool {
        match self {
            EditOp::Insert { line, col, end_line, end_col, text } => (
                *end_line as int,
                *end_col as int,
            ) == pos_after(*line as int, *col as int, text@),
            EditOp::Delete { .. } => true,
        }
    }
}

impl GOp {
    /// The operation that undoes this one: an insertion's inverse deletes
    /// the inserted text, a deletion's inverse re-inserts the removed one.
    pub open spec fn inverse(self) -> GOp {
        match self {
            GOp::Insert { line, col, text } => GOp::Delete { line, col, text },
            GOp::Delete { line, col, text } => GOp::Insert { line, col, text },
        }
    }

    /// The document after the operation.
    pub open spec fn apply(self, doc: Seq<Seq<char>>) -> Seq<Seq<char>> {
        match self {
            GOp::Insert { line, col, text } => ins_text(doc, line, col, text),
            GOp::Delete { line, col, text } => del_text(doc, line, col, text.len()),
        }
    }

    /// The operation applies to the document: its position is valid; an
    /// insertion keeps the document within the size threshold; a deletion's
    /// range lies inside, and its stored text is exactly what stands there.
    pub open spec fn valid_for(self, doc: Seq<Seq<char>>) -> bool {
        match self {
            GOp::Insert { line, col, text } => valid_pos(doc, line, col) && flatten(doc).len()
                + text.len() <= MAX_DOC_LEN,
            GOp::Delete { line, col, text } => valid_pos(doc, line, col) && offset_of(
                doc,
                line,
                col,
            ) + text.len() <= flatten(doc).len() && del_removed(doc, line, col, text.len())
                == text,
        }
    }
}

/// An applicable operation stays a well-formed, in-threshold document, its
/// inverse applies to the result, and the two together change nothing.
pub proof fn lemma_gop_inverse(doc: Seq<Seq<char>>, op: GOp)
    requires
        doc_ok(doc),
        op.valid_for(doc),
    ensures
        doc_ok(op.apply(doc)),
        op.inverse().valid_for(op.apply(doc)),
        op.inverse().apply(op.apply(doc)) == doc,
        op.inverse().inverse() == op,
{
    match op {
        GOp::Insert { line, col, text } => {
            lemma_ins_text(doc, line, col, text);
            lemma_insert_then_delete(doc, line, col, text);
        },
        GOp::Delete { line, col, text } => {
            lemma_del_text(doc, line, col, text.len());
            lemma_delete_then_insert(doc, line, col, text.len());
        },
    }
}

/// Every operation on the undo stack, newest first, can be undone in turn:
/// its inverse applies to the document as it then stands.
pub open spec fn stack_undoable(doc: Seq<Seq<char>>, ops: Seq<GOp>) -> bool
    decreases ops.len(),
{
    ops.len() == 0 || {
        &&& ops.last().inverse().valid_for(doc)
        &&& stack_undoable(ops.last().inverse().apply(doc), ops.drop_last())
    }
}

/// Every operation on the redo stack, newest first, can be reapplied in turn.
pub open spec fn redo_ok(doc: Seq<Seq<char>>, ops: Seq<GOp>) -> bool
    decreases ops.len(),
{
    ops.len() == 0 || {
        &&& ops.last().valid_for(doc)
        &&& redo_ok(ops.last().apply(doc), ops.drop_last())
    }
}

/// The document after undoing the whole stack, newest operation first.
pub open spec fn undo_all(doc: Seq<Seq<char>>, ops: Seq<GOp>) -> Seq<Seq<char>>
    decreases ops.len(),
{
    if ops.len() == 0 {
        doc
    } else {
        undo_all(ops.last().inverse().apply(doc), ops.drop_last())
    }
}

/// Recording an applicable edit keeps the undo stack undoable and does not
/// move the document the whole stack undoes to.
pub proof fn lemma_stack_record(doc: Seq<Seq<char>>, stack: Seq<GOp>, op: GOp)
    requires
        doc_ok(doc),
        stack_undoable(doc, stack),
        op.valid_for(doc),
    ensures
        doc_ok(op.apply(doc)),
        stack_undoable(op.apply(doc), stack.push(op)),
        undo_all(op.apply(doc), stack.push(op)) == undo_all(doc, stack),
{
    lemma_gop_inverse(doc, op);
    assert(stack.push(op).last() == op);
    assert(stack.push(op).drop_last() =~= stack);
}

/// Typing one character records it: either as a fresh insertion pushed onto
/// the stack, or by lengthening the open insertion it continues. Either way
/// the stack stays undoable and undoes to the same document.
pub proof fn lemma_stack_typed(doc: Seq<Seq<char>>, stack: Seq<GOp>, line: int, col: int, c: char)
    requires
        doc_ok(doc),
        stack_undoable(doc, stack),
        valid_pos(doc, line, col),
        flatten(doc).len() + 1 <= MAX_DOC_LEN,
    ensures
        ({
            let charop = GOp::Insert { line, col, text: seq![c] };
            let doc2 = charop.apply(doc);
            &&& doc_ok(doc2)
            &&& stack_undoable(doc2, stack.push(charop))
            &&& undo_all(doc2, stack.push(charop)) == undo_all(doc, stack)
            &&& (stack.len() > 0 && coalesces_with(stack.last(), line, col)) ==> {
                let upd = stack.update(stack.len() - 1, merged(stack.last(), c));
                &&& stack_undoable(doc2, upd)
                &&& undo_all(doc2, upd) == undo_all(doc, stack)
            }
        }),
{
    let charop = GOp::Insert { line, col, text: seq![c] };
    let doc2 = charop.apply(doc);
    lemma_stack_record(doc, stack, charop);
    if stack.len() > 0 && coalesces_with(stack.last(), line, col) {
        let lastop = stack.last();
        let rest = stack.drop_last();
        let base = lastop.inverse().apply(doc);
        lemma_gop_inverse(doc, lastop.inverse());
        match lastop {
            GOp::Insert { line: l0, col: c0, text: t0 } => {
                let m = merged(lastop, c);
                lemma_ins_text_append(base, l0, c0, t0, seq![c]);
                assert(t0 + seq![c] =~= t0.push(c));
                lemma_ins_text(base, l0, c0, t0);
                assert(m.valid_for(base));
                lemma_gop_inverse(base, m);
                let upd = stack.update(stack.len() - 1, m);
                assert(upd.last() == m);
                assert(upd.drop_last() =~= rest);
                assert(m.apply(base) == doc2);
                assert(m.inverse().apply(doc2) == base);
            },
            GOp::Delete { .. } => {
                assert(false);
            },
        }
    }
}

/// Undoing the newest step keeps both stacks consistent: the step moves to
/// the redo stack, from where it reapplies, and the shorter undo stack still
/// undoes to the same document.
pub proof fn lemma_stack_undo(doc: Seq<Seq<char>>, stack: Seq<GOp>, redo: Seq<GOp>)
    requires
        doc_ok(doc),
        stack_undoable(doc, stack),
        redo_ok(doc, redo),
        stack.len() > 0,
    ensures
        ({
            let op = stack.last();
            let doc2 = op.inverse().apply(doc);
            &&& op.inverse().valid_for(doc)
            &&& doc_ok(doc2)
            &&& stack_undoable(doc2, stack.drop_last())
            &&& redo_ok(doc2, redo.push(op))
            &&& undo_all(doc2, stack.drop_last()) == undo_all(doc, stack)
            &&& valid_pos(doc2, undo_cursor(op).0, undo_cursor(op).1)
        }),
{
    let op = stack.last();
    let doc2 = op.inverse().apply(doc);
    lemma_gop_inverse(doc, op.inverse());
    assert(redo.push(op).last() == op);
    assert(redo.push(op).drop_last() =~= redo);
    match op {
        GOp::Insert { line, col, text } => {
            lemma_del_text(doc, line, col, text.len());
        },
        GOp::Delete { line, col, text } => {
            lemma_ins_text(doc, line, col, text);
        },
    }
}

/// Redoing the most recently undone step keeps both stacks consistent: the
/// step moves back to the undo stack, and still undoes to the same document.
pub proof fn lemma_stack_redo(doc: Seq<Seq<char>>, stack: Seq<GOp>, redo: Seq<GOp>)
    requires
        doc_ok(doc),
        stack_undoable(doc, stack),
        redo_ok(doc, redo),
        redo.len() > 0,
    ensures
        ({
            let op = redo.last();
            let doc2 = op.apply(doc);
            &&& op.valid_for(doc)
            &&& doc_ok(doc2)
            &&& stack_undoable(doc2, stack.push(op))
            &&& redo_ok(doc2, redo.drop_last())
            &&& undo_all(doc2, stack.push(op)) == undo_all(doc, stack)
            &&& valid_pos(doc2, redo_cursor(op).0, redo_cursor(op).1)
        }),
{
    let op = redo.last();
    lemma_stack_record(doc, stack, op);
    match op {
        GOp::Insert { line, col, text } => {
            lemma_ins_text(doc, line, col, text);
        },
        GOp::Delete { line, col, text } => {
            lemma_del_text(doc, line, col, text.len());
        },
    }
}

/// Where the caret stands after undoing an operation: at an undone
/// insertion's start, or one past an undone deletion's re-inserted text.
pub open spec fn undo_cursor(op: GOp) -> (int, int) {
    match op {
        GOp::Insert { line, col, .. } => (line, col),
        GOp::Delete { line, col, text } => pos_after(line, col, text),
    }
}

/// Where the caret stands after redoing an operation: one past a redone
/// insertion's text, or at a redone deletion's start.
pub open spec fn redo_cursor(op: GOp) -> (int, int) {
    match op {
        GOp::Insert { line, col, text } => pos_after(line, col, text),
        GOp::Delete { line, col, .. } => (line, col),
    }
}

/// The operations a stack of recorded edits stands for, oldest first.
pub open spec fn ops_view(v: Seq<EditOp>) -> Seq<GOp> {
    Seq::new(v.len(), |i: int| v[i]@)
}

/// Every recorded edit in a stack is well formed.
pub open spec fn ops_wf(v: Seq<EditOp>) -> bool {
    forall|i: int| 0 <= i < v.len() ==> (#[trigger] v[i]).wf()
}

/// The last typed insertion coalesces with a character typed at (line, col)
/// when the caret ended exactly there.
pub open spec fn coalesces_with(op: GOp, line: int, col: int) -> bool {
    match op {
        GOp::Insert { line: l0, col: c0, text: t0 } => pos_after(l0, c0, t0) == (line, col),
        GOp::Delete { .. } => false,
    }
}

/// The last typed insertion, lengthened by one more character.
pub open spec fn merged(op: GOp, c: char) -> GOp {
    match op {
        GOp::Insert { line, col, text } => GOp::Insert { line, col, text: text.push(c) },
        GOp::Delete { .. } => op,
    }
}

/// The undo and redo stacks. A fresh edit lands on the undo stack and clears
/// the redo stack; a typed character may instead lengthen the last typed
/// insertion while its group stays open.
pub struct EditLog {
    undo: Vec<EditOp>,
    redo: Vec<EditOp>,
    open_group: bool,
}

impl EditLog {
    /// The operations awaiting undo, oldest first.
    pub closed spec fn undo_ops(&self) -> Seq<GOp> {
        ops_view(self.undo@)
    }

    /// The operations awaiting redo, most recently undone last.
    pub closed spec fn redo_ops(&self) -> Seq<GOp> {
        ops_view(self.redo@)
    }

    /// Whether the current run of typed characters is still open.
    pub closed spec fn group_open(&self) -> bool {
        self.open_group
    }

    /// All recorded edits are well formed.
    pub closed spec fn inv(&self) -> bool {
        ops_wf(self.undo@) && ops_wf(self.redo@)
    }

    /// An empty log with no open group.
    pub fn new() -> (r: EditLog)
        ensures
            r.inv(),
            r.undo_ops() == Seq::<GOp>::empty(),
            r.redo_ops() == Seq::<GOp>::empty(),
            !r.group_open(),
    {
        let r = EditLog { undo: Vec::new(), redo: Vec::new(), open_group: false };
        proof {
            assert(r.undo_ops() =~= Seq::<GOp>::empty());
            assert(r.redo_ops() =~= Seq::<GOp>::empty());
        }
        r
    }

    /// Close the current run of typed characters: the next one starts a new
    /// undo step.
    pub fn close_group(&mut self)
        ensures
            final(self).inv() == old(self).inv(),
            final(self).undo_ops() == old(self).undo_ops(),
            final(self).redo_ops() == old(self).redo_ops(),
            !final(self).group_open(),
    {
        self.open_group = false;
    }

    /// Record a fresh edit: it becomes the newest undo step, whatever could
    /// have been redone is gone, and the typed run is closed.
    pub fn record(&mut self, op: EditOp)
        requires
            old(self).inv(),
            op.wf(),
        ensures
            final(self).inv(),
            final(self).undo_ops() == old(self).undo_ops().push(op@),
            final(self).redo_ops() == Seq::<GOp>::empty(),
            !final(self).group_open(),
    {
        self.redo.clear();
        self.undo.push(op);
        self.open_group = false;
        proof {
            assert(final(self).undo_ops() =~= old(self).undo_ops().push(op@));
            assert(final(self).redo_ops() =~= Seq::<GOp>::empty());
        }
    }

    /// Record a typed character whose insertion moved the caret from
    /// (line, col) to (end_line, end_col): while the typed run is open and
    /// ended exactly at (line, col), it lengthens the last insertion into
    /// one undo step; otherwise it starts a new one. Redo is gone either
    /// way, and the run is open afterwards.
    pub fn record_typed(&mut self, line: usize, col: usize, end_line: usize, end_col: usize, c: char)
        requires
            old(self).inv(),
            (end_line as int, end_col as int) == pos_after_char(line as int, col as int, c),
        ensures
            final(self).inv(),
            final(self).redo_ops() == Seq::<GOp>::empty(),
            final(self).group_open(),
            ({
                let ops = old(self).undo_ops();
                if old(self).group_open() && ops.len() > 0 && coalesces_with(
                    ops.last(),
                    line as int,
                    col as int,
                ) {
                    final(self).undo_ops() == ops.update(ops.len() - 1, merged(ops.last(), c))
                } else {
                    final(self).undo_ops() == ops.push(
                        GOp::Insert { line: line as int, col: col as int, text: seq![c] },
                    )
                }
            }),
    {
        self.redo.clear();
        let mut coal = false;
        if self.open_group && self.undo.len() > 0 {
            match &self.undo[self.undo.len() - 1] {
                EditOp::Insert { end_line: el, end_col: ec, .. } => {
                    if *el == line && *ec == col {
                        coal = true;
                    }
                },
                EditOp::Delete { .. } => {},
            }
        }
        if coal {
            let last = self.undo.pop().unwrap();
            match last {
                EditOp::Insert { line: l0, col: c0, text: mut t0, .. } => {
                    proof {
                        lemma_pos_after_snoc(l0 as int, c0 as int, t0@, c);
                    }
                    t0.push(c);
                    self.undo.push(
                        EditOp::Insert {
                            line: l0,
                            col: c0,
                            end_line,
                            end_col,
                            text: t0,
                        },
                    );
                    proof {
                        assert(self.undo_ops() =~= old(self).undo_ops().update(
                            old(self).undo_ops().len() - 1,
                            merged(old(self).undo_ops().last(), c),
                        ));
                    }
                },
                EditOp::Delete { line: l0, col: c0, text: t0 } => {
                    // A coalescible last step is always an insertion.
                    proof {
                        assert(false);
                    }
                    self.undo.push(EditOp::Delete { line: l0, col: c0, text: t0 });
                },
            }
        } else {
            let mut text: Vec<char> = Vec::new();
            text.push(c);
            proof {
                let p = pos_after_char(line as int, col as int, c);
                assert(text@ =~= seq![c]);
                assert(seq![c].drop_first() =~= Seq::<char>::empty());
                assert(pos_after(p.0, p.1, Seq::<char>::empty()) == p);
                assert(pos_after(line as int, col as int, seq![c]) == p);
            }
            self.undo.push(EditOp::Insert { line, col, end_line, end_col, text });
            proof {
                assert(self.undo_ops() =~= old(self).undo_ops().push(
                    GOp::Insert { line: line as int, col: col as int, text: seq![c] },
                ));
            }
        }
        self.open_group = true;
        proof {
            assert(final(self).redo_ops() =~= Seq::<GOp>::empty());
        }
    }

    /// Take the newest undo step, if any, and close the typed run. The
    /// caller applies its inverse and hands it on for redo.
    pub fn pop_undo(&mut self) -> (r: Option<EditOp>)
        requires
            old(self).inv(),
        ensures
            final(self).inv(),
            final(self).redo_ops() == old(self).redo_ops(),
            !final(self).group_open(),
            old(self).undo_ops().len() == 0 ==> r is None && final(self).undo_ops() == old(
                self,
            ).undo_ops(),
            old(self).undo_ops().len() > 0 ==> r is Some && r->0@ == old(self).undo_ops().last()
                && r->0.wf() && final(self).undo_ops() == old(self).undo_ops().drop_last(),
    {
        self.open_group = false;
        let r = self.undo.pop();
        proof {
            if old(self).undo_ops().len() > 0 {
                assert(final(self).undo_ops() =~= old(self).undo_ops().drop_last());
            } else {
                assert(final(self).undo_ops() =~= old(self).undo_ops());
            }
        }
        r
    }

    /// Take the most recently undone step, if any, and close the typed run.
    /// The caller reapplies it and hands it back for undo.
    pub fn pop_redo(&mut self) -> (r: Option<EditOp>)
        requires
            old(self).inv(),
        ensures
            final(self).inv(),
            final(self).undo_ops() == old(self).undo_ops(),
            !final(self).group_open(),
            old(self).redo_ops().len() == 0 ==> r is None && final(self).redo_ops() == old(
                self,
            ).redo_ops(),
            old(self).redo_ops().len() > 0 ==> r is Some && r->0@ == old(self).redo_ops().last()
                && r->0.wf() && final(self).redo_ops() == old(self).redo_ops().drop_last(),
    {
        self.open_group = false;
        let r = self.redo.pop();
        proof {
            if old(self).redo_ops().len() > 0 {
                assert(final(self).redo_ops() =~= old(self).redo_ops().drop_last());
            } else {
                assert(final(self).redo_ops() =~= old(self).redo_ops());
            }
        }
        r
    }

    /// Put an undone step onto the redo stack.
    pub fn push_redo(&mut self, op: EditOp)
        requires
            old(self).inv(),
            op.wf(),
        ensures
            final(self).inv(),
            final(self).undo_ops() == old(self).undo_ops(),
            final(self).redo_ops() == old(self).redo_ops().push(op@),
            final(self).group_open() == old(self).group_open(),
    {
        self.redo.push(op);
        proof {
            assert(final(self).redo_ops() =~= old(self).redo_ops().push(op@));
        }
    }

    /// Put a redone step back onto the undo stack.
    pub fn push_undo(&mut self, op: EditOp)
        requires
            old(self).inv(),
            op.wf(),
        ensures
            final(self).inv(),
            final(self).redo_ops() == old(self).redo_ops(),
            final(self).undo_ops() == old(self).undo_ops().push(op@),
            final(self).group_open() == old(self).group_open(),
    {
        self.undo.push(op);
        proof {
            assert(final(self).undo_ops() =~= old(self).undo_ops().push(op@));
        }
    }

    /// How many undo steps are recorded.
    pub fn undo_len(&self) -> (n: usize)
        ensures
            n == self.undo_ops().len(),
    {
        self.undo.len()
    }

    /// How many redo steps are recorded.
    pub fn redo_len(&self) -> (n: usize)
        ensures
            n == self.redo_ops().len(),
    {
        self.redo.len()
    }
}

} // verus!
