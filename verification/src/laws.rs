//! The laws the editor core obeys, stated and proved over the model: the
//! line-structured buffer agrees with a flat reference model under any edit
//! sequence; edits are undone exactly and redone exactly; a minimal diff is
//! emitted for a one-character change.

use vstd::prelude::*;

use crate::editlog::{lemma_gop_inverse, undo_all, GOp};
use crate::model::{
    doc_ok, flatten, lemma_del_text, lemma_ins_text, lemma_offset_bounds, lemma_split_flatten,
    offset_of, splice_del, splice_ins, split_lines,
};
use crate::renderer::{diff_cmds, lemma_diff_one_row, GPaint};

verus! {

/// A document after an edit sequence, oldest edit first.
pub open spec fn replay(doc: Seq<Seq<char>>, ops: Seq<GOp>) -> Seq<Seq<char>>
    decreases ops.len(),
{
    if ops.len() == 0 {
        doc
    } else {
        replay(ops[0].apply(doc), ops.drop_first())
    }
}

/// Each edit of the sequence applies to the document as it then stands.
pub open spec fn replay_valid(doc: Seq<Seq<char>>, ops: Seq<GOp>) -> bool
    decreases ops.len(),
{
    ops.len() == 0 || {
        &&& ops[0].valid_for(doc)
        &&& replay_valid(ops[0].apply(doc), ops.drop_first())
    }
}

/// The flat reference model of one edit: the text spliced in or cut out of
/// the flat content at the position's offset.
pub open spec fn flat_apply(s: Seq<char>, op: GOp) -> Seq<char> {
    match op {
        GOp::Insert { line, col, text } => splice_ins(
            s,
            offset_of(split_lines(s), line, col),
            text,
        ),
        GOp::Delete { line, col, text } => splice_del(
            s,
            offset_of(split_lines(s), line, col),
            text.len() as int,
        ),
    }
}

/// The flat reference model after an edit sequence, oldest edit first.
pub open spec fn flat_replay(s: Seq<char>, ops: Seq<GOp>) -> Seq<char>
    decreases ops.len(),
{
    if ops.len() == 0 {
        s
    } else {
        flat_replay(flat_apply(s, ops[0]), ops.drop_first())
    }
}

/// Model equivalence: replaying one applicable edit sequence on the
/// line-structured document and on the flat reference model agree — after
/// the replay, every line of the document reads as the corresponding line of
/// the split flat content.
pub proof fn lemma_model_equivalence(doc: Seq<Seq<char>>, ops: Seq<GOp>)
    requires
        doc_ok(doc),
        replay_valid(doc, ops),
    ensures
        doc_ok(replay(doc, ops)),
        flatten(replay(doc, ops)) == flat_replay(flatten(doc), ops),
        forall|i: int|
            0 <= i < replay(doc, ops).len() ==> replay(doc, ops)[i] == split_lines(
                flat_replay(flatten(doc), ops),
            )[i],
    decreases ops.len(),
{
    lemma_split_flatten(doc);
    if ops.len() == 0 {
    } else {
        let op = ops[0];
        let doc2 = op.apply(doc);
        match op {
            GOp::Insert { line, col, text } => {
                lemma_ins_text(doc, line, col, text);
            },
            GOp::Delete { line, col, text } => {
                lemma_del_text(doc, line, col, text.len());
            },
        }
        assert(flatten(doc2) == flat_apply(flatten(doc), op));
        lemma_model_equivalence(doc2, ops.drop_first());
        lemma_split_flatten(replay(doc, ops));
    }
}

/// Replaying one more edit is replaying the sequence, then that edit.
pub proof fn lemma_replay_snoc(doc: Seq<Seq<char>>, ops: Seq<GOp>, op: GOp)
    ensures
        replay(doc, ops.push(op)) == op.apply(replay(doc, ops)),
        replay_valid(doc, ops.push(op)) == (replay_valid(doc, ops) && op.valid_for(
            replay(doc, ops),
        )),
    decreases ops.len(),
{
    if ops.len() == 0 {
        assert(ops.push(op)[0] == op);
        assert(ops.push(op).drop_first() =~= Seq::<GOp>::empty());
        assert(replay(op.apply(doc), Seq::<GOp>::empty()) == op.apply(doc));
        assert(replay_valid(op.apply(doc), Seq::<GOp>::empty()));
    } else {
        assert(ops.push(op)[0] == ops[0]);
        assert(ops.push(op).drop_first() =~= ops.drop_first().push(op));
        lemma_replay_snoc(ops[0].apply(doc), ops.drop_first(), op);
    }
}

/// Performing any applicable edit sequence and then undoing every recorded
/// step, newest first, restores the document it began from exactly — with
/// the whole stack undone, nothing of the edits remains.
pub proof fn lemma_edits_then_undos(doc: Seq<Seq<char>>, ops: Seq<GOp>)
    requires
        doc_ok(doc),
        replay_valid(doc, ops),
    ensures
        doc_ok(replay(doc, ops)),
        undo_all(replay(doc, ops), ops) == doc,
    decreases ops.len(),
{
    if ops.len() == 0 {
    } else {
        let rest = ops.drop_last();
        let last = ops.last();
        assert(rest.push(last) =~= ops);
        lemma_replay_snoc(doc, rest, last);
        lemma_edits_then_undos(doc, rest);
        let m = replay(doc, rest);
        lemma_gop_inverse(m, last);
        assert(undo_all(replay(doc, ops), ops) == undo_all(
            last.inverse().apply(last.apply(m)),
            rest,
        ));
    }
}

/// Undo followed immediately by redo reproduces the post-edit document
/// exactly: undoing an applicable edit leaves a document the edit applies to
/// again, and reapplying it gives back what stood before the undo.
pub proof fn lemma_undo_then_redo(doc: Seq<Seq<char>>, op: GOp)
    requires
        doc_ok(doc),
        op.valid_for(doc),
    ensures
        ({
            let after = op.apply(doc);
            let undone = op.inverse().apply(after);
            &&& op.inverse().valid_for(after)
            &&& undone == doc
            &&& op.valid_for(undone)
            &&& op.apply(undone) == after
        }),
{
    lemma_gop_inverse(doc, op);
}

/// Position stability: an insertion at a position leaves every flat offset
/// strictly before it untouched and shifts every offset at or after it by
/// exactly the inserted length; a deletion leaves offsets before its range
/// untouched and shifts offsets after the range back by the removed length.
/// A position held across an edit made elsewhere therefore still names the
/// same character.
pub proof fn lemma_position_stability(doc: Seq<Seq<char>>, line: int, col: int, op: GOp)
    requires
        doc_ok(doc),
        op.valid_for(doc),
        op matches GOp::Insert { line: l, col: c, .. } ==> (line, col) == (l, c),
        op matches GOp::Delete { line: l, col: c, .. } ==> (line, col) == (l, c),
    ensures
        ({
            let s = flatten(doc);
            let s2 = flatten(op.apply(doc));
            let off = offset_of(doc, line, col);
            match op {
                GOp::Insert { text, .. } => {
                    &&& forall|q: int| 0 <= q < off ==> s2[q] == s[q]
                    &&& forall|q: int| off <= q < s.len() ==> s2[q + text.len()] == s[q]
                },
                GOp::Delete { text, .. } => {
                    &&& forall|q: int| 0 <= q < off ==> s2[q] == s[q]
                    &&& forall|q: int| off + text.len() <= q < s.len() ==> s2[q - text.len()] == s[q]
                },
            }
        }),
{
    match op {
        GOp::Insert { line: l, col: c, text } => {
            lemma_offset_bounds(doc, l, c);
            lemma_ins_text(doc, l, c, text);
            assert(flatten(op.apply(doc)) == splice_ins(
                flatten(doc),
                offset_of(doc, l, c),
                text,
            ));
        },
        GOp::Delete { line: l, col: c, text } => {
            lemma_offset_bounds(doc, l, c);
            lemma_del_text(doc, l, c, text.len());
            assert(flatten(op.apply(doc)) == splice_del(
                flatten(doc),
                offset_of(doc, l, c),
                text.len() as int,
            ));
        },
    }
}

/// Renderer diff minimality: frames of one size that differ in exactly one
/// character diff to exactly one paint command, the write of that row; the
/// renderer appends only the final caret command after it.
pub proof fn lemma_render_minimal(
    prev: Seq<Seq<char>>,
    want: Seq<Seq<char>>,
    rows: nat,
    cols: int,
    r0: int,
    c0: int,
)
    requires
        prev.len() == rows,
        want.len() == rows,
        forall|r: int|
            0 <= r < rows ==> (#[trigger] prev[r]).len() == cols && (#[trigger] want[r]).len()
                == cols,
        0 <= r0 < rows,
        0 <= c0 < cols,
        prev[r0][c0] != want[r0][c0],
        forall|r: int, c: int|
            0 <= r < rows && 0 <= c < cols && (r != r0 || c != c0) ==> (#[trigger] prev[r][c])
                == want[r][c],
    ensures
        diff_cmds(prev, want, rows) == seq![GPaint::Put { row: r0, col: 0, text: want[r0] }],
{
    assert forall|r: int| 0 <= r < rows && r != r0 implies prev[r] == want[r] by {
        assert forall|c: int| 0 <= c < cols implies prev[r][c] == want[r][c] by {
            assert(prev[r][c] == want[r][c]);
        }
        assert(prev[r] =~= want[r]);
    }
    lemma_diff_one_row(prev, want, rows, r0);
}

} // verus!
