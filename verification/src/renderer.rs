//! The renderer: it keeps the frame last written to the screen, computes the
//! frame the document and viewport now call for, and emits one paint command
//! per changed row, then one final caret-position command.

use vstd::prelude::*;

use crate::buffer::{lines_view, TextBuffer};
use crate::viewport::Viewport;

verus! {

/// A write to the terminal: text painted at a cell, or the caret moved.
pub enum PaintCommand {
    Put { row: usize, col: usize, text: Vec<char> },
    MoveCursor { row: usize, col: usize },
}

/// The mathematical form of a paint command.
pub enum GPaint {
    Put { row: int, col: int, text: Seq<char> },
    MoveCursor { row: int, col: int },
}

impl View for PaintCommand {
    type V = GPaint;

    open spec fn view(&self) -> GPaint {
        match self {
            PaintCommand::Put { row, col, text } => GPaint::Put {
                row: *row as int,
                col: *col as int,
                text: text@,
            },
            PaintCommand::MoveCursor { row, col } => GPaint::MoveCursor {
                row: *row as int,
                col: *col as int,
            },
        }
    }
}

/// The commands a vector of paint commands stands for.
pub open spec fn cmds_view(v: Seq<PaintCommand>) -> Seq<GPaint> {
    Seq::new(v.len(), |i: int| v[i]@)
}

/// A document line as one screen row: its slice from column `left` on,
/// truncated or padded with spaces to width `cols`.
pub open spec fn render_line(line: Seq<char>, left: int, cols: int) -> Seq<char> {
    Seq::new(cols as nat, |j: int| if left + j < line.len() {
        line[left + j]
    } else {
        ' '
    })
}

/// A screen row beyond the document's end: a tilde, then spaces.
pub open spec fn empty_row(cols: int) -> Seq<char> {
    Seq::new(cols as nat, |j: int| if j == 0 {
        '~'
    } else {
        ' '
    })
}

/// A blank frame: spaces everywhere, as on a freshly cleared screen.
pub open spec fn blank_frame(rows: int, cols: int) -> Seq<Seq<char>> {
    Seq::new(rows as nat, |r: int| Seq::new(cols as nat, |j: int| ' '))
}

/// The frame the screen should show: each viewport row the rendered document
/// line under it, rows past the document's end empty.
pub open spec fn desired_frame(doc: Seq<Seq<char>>, vp: Viewport) -> Seq<Seq<char>> {
    Seq::new(vp.rows as nat, |r: int| if vp.top_line + r < doc.len() {
        render_line(doc[vp.top_line + r], vp.left_col as int, vp.cols as int)
    } else {
        empty_row(vp.cols as int)
    })
}

/// The paint commands for the first `n` rows: one whole-row write for each
/// row where the frames differ, in row order, and nothing else.
pub open spec fn diff_cmds(prev: Seq<Seq<char>>, want: Seq<Seq<char>>, n: nat) -> Seq<GPaint>
    decreases n,
{
    if n == 0 {
        Seq::empty()
    } else {
        diff_cmds(prev, want, (n - 1) as nat) + if prev[n - 1] == want[n - 1] {
            Seq::<GPaint>::empty()
        } else {
            seq![GPaint::Put { row: n - 1, col: 0, text: want[n - 1] }]
        }
    }
}

/// Two equal frames need no paint command.
pub proof fn lemma_diff_empty(prev: Seq<Seq<char>>, want: Seq<Seq<char>>, n: nat)
    requires
        forall|r: int| 0 <= r < n ==> prev[r] == want[r],
    ensures
        diff_cmds(prev, want, n) == Seq::<GPaint>::empty(),
    decreases n,
{
    if n > 0 {
        lemma_diff_empty(prev, want, (n - 1) as nat);
        assert(diff_cmds(prev, want, n) =~= Seq::<GPaint>::empty());
    }
}

/// Frames differing in exactly one row take exactly one paint command,
/// the write of that row.
pub proof fn lemma_diff_one_row(prev: Seq<Seq<char>>, want: Seq<Seq<char>>, n: nat, r0: int)
    requires
        0 <= r0 < n,
        prev[r0] != want[r0],
        forall|r: int| 0 <= r < n && r != r0 ==> prev[r] == want[r],
    ensures
        diff_cmds(prev, want, n) == seq![GPaint::Put { row: r0, col: 0, text: want[r0] }],
    decreases n,
{
    if n - 1 == r0 {
        lemma_diff_empty(prev, want, (n - 1) as nat);
        assert(diff_cmds(prev, want, n) =~= seq![GPaint::Put { row: r0, col: 0, text: want[r0] }]);
    } else {
        lemma_diff_one_row(prev, want, (n - 1) as nat, r0);
        assert(diff_cmds(prev, want, n) =~= seq![GPaint::Put { row: r0, col: 0, text: want[r0] }]);
    }
}

/// The renderer: the frame last emitted, and its size.
pub struct Renderer {
    prev: Vec<Vec<char>>,
    rows: usize,
    cols: usize,
}

impl Renderer {
    /// The frame last emitted.
    pub closed spec fn frame(&self) -> Seq<Seq<char>> {
        lines_view(self.prev@)
    }

    /// The stored frame's height.
    pub closed spec fn spec_rows(&self) -> int {
        self.rows as int
    }

    /// The stored frame's width.
    pub closed spec fn spec_cols(&self) -> int {
        self.cols as int
    }

    /// The stored frame has one row vector per row.
    pub closed spec fn inv(&self) -> bool {
        self.prev@.len() == self.rows
    }

    /// A renderer that has written nothing yet.
    pub fn new() -> (r: Renderer)
        ensures
            r.inv(),
            r.spec_rows() == 0,
            r.spec_cols() == 0,
    {
        let r = Renderer { prev: Vec::new(), rows: 0, cols: 0 };
        r
    }

    /// One render pass: compute the frame the document and viewport call
    /// for, emit one whole-row paint command per row that differs from the
    /// frame last emitted (from a blank frame after a size change), then the
    /// caret-position command, always last; remember the new frame.
    pub fn render(&mut self, buf: &TextBuffer, vp: &Viewport, cur_line: usize, cur_col: usize) -> (cmds: Vec<
        PaintCommand,
    >)
        requires
            old(self).inv(),
            vp.inv(),
            vp.shows(cur_line as int, cur_col as int),
        ensures
            final(self).inv(),
            final(self).frame() == desired_frame(buf@, *vp),
            final(self).spec_rows() == vp.rows,
            final(self).spec_cols() == vp.cols,
            ({
                let base = if old(self).spec_rows() == vp.rows && old(self).spec_cols() == vp.cols {
                    old(self).frame()
                } else {
                    blank_frame(vp.rows as int, vp.cols as int)
                };
                cmds_view(cmds@) == diff_cmds(base, desired_frame(buf@, *vp), vp.rows as nat).push(
                    GPaint::MoveCursor {
                        row: cur_line - vp.top_line,
                        col: cur_col - vp.left_col,
                    },
                )
            }),
    {
        let rows = vp.rows;
        let cols = vp.cols;
        let count = buf.line_count();
        let ghost wantg = desired_frame(buf@, *vp);
        // The frame to paint.
        let mut want: Vec<Vec<char>> = Vec::new();
        let mut r: usize = 0;
        while r < rows
            invariant
                r <= rows,
                rows == vp.rows,
                cols == vp.cols,
                vp.inv(),
                count == buf@.len(),
                wantg == desired_frame(buf@, *vp),
                want@.len() == r,
                forall|k: int| 0 <= k < r ==> (#[trigger] want@[k])@ == wantg[k],
            decreases rows - r,
        {
            let mut row: Vec<char> = Vec::new();
            if vp.top_line < count && r < count - vp.top_line {
                let li = vp.top_line + r;
                let line = match buf.line_text(li) {
                    Result::Ok(l) => l,
                    Result::Err(_) => {
                        proof {
                            assert(false);
                        }
                        Vec::new()
                    },
                };
                let mut j: usize = 0;
                while j < cols
                    invariant
                        j <= cols,
                        row@.len() == j,
                        line@ == buf@[li as int],
                        li == vp.top_line + r,
                        r < rows,
                        rows == vp.rows,
                        cols == vp.cols,
                        li < buf@.len(),
                        forall|k: int|
                            0 <= k < j ==> row@[k] == render_line(
                                buf@[li as int],
                                vp.left_col as int,
                                cols as int,
                            )[k],
                    decreases cols - j,
                {
                    if vp.left_col < line.len() && j < line.len() - vp.left_col {
                        row.push(line[vp.left_col + j]);
                    } else {
                        row.push(' ');
                    }
                    j = j + 1;
                }
                proof {
                    assert(row@ =~= render_line(buf@[li as int], vp.left_col as int, cols as int));
                    assert(wantg[r as int] == row@);
                }
            } else {
                row.push('~');
                let mut j: usize = 1;
                while j < cols
                    invariant
                        1 <= j <= cols,
                        row@.len() == j,
                        row@[0] == '~',
                        forall|k: int| 1 <= k < j ==> row@[k] == ' ',
                    decreases cols - j,
                {
                    row.push(' ');
                    j = j + 1;
                }
                proof {
                    assert(row@ =~= empty_row(cols as int));
                    assert(wantg[r as int] == row@);
                }
            }
            want.push(row);
            r = r + 1;
        }
        proof {
            assert(lines_view(want@) =~~= wantg);
        }
        // The frame to diff against: after a size change, a blank screen.
        if self.rows != rows || self.cols != cols {
            let mut blank: Vec<Vec<char>> = Vec::new();
            let mut br: usize = 0;
            while br < rows
                invariant
                    br <= rows,
                    blank@.len() == br,
                    forall|k: int|
                        0 <= k < br ==> (#[trigger] blank@[k])@ == blank_frame(
                            rows as int,
                            cols as int,
                        )[k],
                decreases rows - br,
            {
                let mut brow: Vec<char> = Vec::new();
                let mut bj: usize = 0;
                while bj < cols
                    invariant
                        bj <= cols,
                        brow@.len() == bj,
                        forall|k: int| 0 <= k < bj ==> brow@[k] == ' ',
                    decreases cols - bj,
                {
                    brow.push(' ');
                    bj = bj + 1;
                }
                proof {
                    assert(brow@ =~= blank_frame(rows as int, cols as int)[br as int]);
                }
                blank.push(brow);
                br = br + 1;
            }
            self.prev = blank;
            self.rows = rows;
            self.cols = cols;
            proof {
                assert(self.frame() =~~= blank_frame(rows as int, cols as int));
            }
        }
        let ghost base = self.frame();
        // One whole-row write per changed row, in row order.
        let mut cmds: Vec<PaintCommand> = Vec::new();
        let mut r2: usize = 0;
        while r2 < rows
            invariant
                r2 <= rows,
                rows == vp.rows,
                self.inv(),
                self.rows == rows,
                base == self.frame(),
                want@.len() == rows,
                lines_view(want@) == wantg,
                cmds_view(cmds@) == diff_cmds(base, wantg, r2 as nat),
            decreases rows - r2,
        {
            let same = chars_eq(&want[r2], &self.prev[r2]);
            if !same {
                let t = copy_chars(&want[r2]);
                cmds.push(PaintCommand::Put { row: r2, col: 0, text: t });
                proof {
                    assert(want@[r2 as int]@ == wantg[r2 as int]);
                    assert(cmds_view(cmds@) =~= diff_cmds(base, wantg, (r2 + 1) as nat));
                }
            } else {
                proof {
                    assert(want@[r2 as int]@ == wantg[r2 as int]);
                    assert(cmds_view(cmds@) =~= diff_cmds(base, wantg, (r2 + 1) as nat));
                }
            }
            r2 = r2 + 1;
        }
        self.prev = want;
        self.rows = rows;
        self.cols = cols;
        cmds.push(PaintCommand::MoveCursor { row: cur_line - vp.top_line, col: cur_col - vp.left_col });
        proof {
            assert(self.frame() == lines_view(want@));
            assert(cmds_view(cmds@) =~= diff_cmds(base, wantg, vp.rows as nat).push(
                GPaint::MoveCursor {
                    row: cur_line - vp.top_line,
                    col: cur_col - vp.left_col,
                },
            ));
        }
        cmds
    }
}

/// Whether two rows hold the same characters.
fn chars_eq(a: &Vec<char>, b: &Vec<char>) -> (r: bool)
    ensures
        r <==> a@ == b@,
{
    if a.len() != b.len() {
        proof {
            assert(a@ != b@);
        }
        return false;
    }
    let mut i: usize = 0;
    while i < a.len()
        invariant
            i <= a@.len(),
            a@.len() == b@.len(),
            forall|k: int| 0 <= k < i ==> a@[k] == b@[k],
        decreases a@.len() - i,
    {
        if a[i] != b[i] {
            proof {
                assert(a@ != b@);
            }
            return false;
        }
        i = i + 1;
    }
    proof {
        assert(a@ =~= b@);
    }
    true
}

/// A copy of a row.
fn copy_chars(a: &Vec<char>) -> (r: Vec<char>)
    ensures
        r@ == a@,
{
    let mut out: Vec<char> = Vec::new();
    let mut i: usize = 0;
    while i < a.len()
        invariant
            i <= a@.len(),
            out@ == a@.take(i as int),
        decreases a@.len() - i,
    {
        out.push(a[i]);
        proof {
            assert(out@ =~= a@.take(i + 1));
        }
        i = i + 1;
    }
    proof {
        assert(out@ =~= a@);
    }
    out
}

} // verus!
