//! The text buffer: the document's lines, with contracts over the model.

use vstd::prelude::*;

use crate::model::{
    char_at_pos, del_removed, del_text, doc_ok, flatten, ins_text, lemma_del_char,
    lemma_del_text, lemma_del_text_snoc, lemma_ins_char, lemma_ins_text_append,
    lemma_line_start_step, lemma_offset_bounds, lemma_split_snoc, lemma_split_wf,
    line_delete_char, line_insert_char, line_start, offset_of, pos_after, pos_after_char,
    split_lines, valid_pos, wf_lines, MAX_DOC_LEN,
};

verus! {

/// The error kinds of the editor core. Positions outside the document give
/// `OutOfBounds`; the remaining kinds classify failures of the outer
/// collaborators (file load and save, the terminal itself).
#[derive(Clone, Copy, Debug, PartialEq, Eq, Structural)]
pub enum EditorError {
    OutOfBounds,
    IoError,
    EncodingError,
    TerminalError,
}

/// The document: a non-empty sequence of lines, none containing a line feed,
/// together with its flat character count (line feeds included).
pub struct TextBuffer {
    lines: Vec<Vec<char>>,
    total: usize,
}

/// The lines a sequence of character vectors holds.
pub open spec fn lines_view(v: Seq<Vec<char>>) -> Seq<Seq<char>> {
    Seq::new(v.len(), |i: int| v[i]@)
}

impl View for TextBuffer {
    type V = Seq<Seq<char>>;

    closed spec fn view(&self) -> Seq<Seq<char>> {
        lines_view(self.lines@)
    }
}

impl TextBuffer {
    /// Well-formed, and the stored total is the flat length.
    pub closed spec fn inv(&self) -> bool {
        &&& wf_lines(self@)
        &&& self.total == flatten(self@).len()
        &&& self.total <= MAX_DOC_LEN
    }

    /// The invariant says exactly that the view is a well-formed document
    /// within the size threshold.
    pub proof fn lemma_inv(&self)
        requires
            self.inv(),
        ensures
            doc_ok(self@),
    {
    }

    /// An empty document: one empty line.
    pub fn new() -> (r: TextBuffer)
        ensures
            r.inv(),
            r@ == seq![Seq::<char>::empty()],
    {
        let mut lines: Vec<Vec<char>> = Vec::new();
        lines.push(Vec::new());
        let r = TextBuffer { lines, total: 0 };
        proof {
            assert(r@ =~~= seq![Seq::<char>::empty()]);
        }
        r
    }

    /// How many lines the document has.
    pub fn line_count(&self) -> (n: usize)
        ensures
            n == self@.len(),
    {
        self.lines.len()
    }

    /// The length of line `line`.
    pub fn line_len(&self, line: usize) -> (n: usize)
        requires
            line < self@.len(),
        ensures
            n == self@[line as int].len(),
    {
        self.lines[line].len()
    }

    /// The flat length of the document, line feeds included.
    pub fn char_count(&self) -> (n: usize)
        requires
            self.inv(),
        ensures
            n == flatten(self@).len(),
    {
        self.total
    }

    /// A copy of line `line`, in or out of bounds exactly as the position is.
    pub fn line_text(&self, line: usize) -> (r: Result<Vec<char>, EditorError>)
        ensures
            line < self@.len() <==> r is Ok,
            line < self@.len() ==> r->Ok_0@ == self@[line as int],
            line >= self@.len() ==> r == Err::<Vec<char>, EditorError>(EditorError::OutOfBounds),
    {
        if line >= self.lines.len() {
            return Err(EditorError::OutOfBounds);
        }
        let src = &self.lines[line];
        let mut out: Vec<char> = Vec::new();
        let mut i: usize = 0;
        while i < src.len()
            invariant
                i <= src.len(),
                out@ == src@.take(i as int),
            decreases src.len() - i,
        {
            out.push(src[i]);
            proof {
                assert(out@ =~= src@.take(i + 1));
            }
            i = i + 1;
        }
        proof {
            assert(out@ =~= src@);
        }
        Ok(out)
    }

    /// The character standing at flat position (line, col): the column's
    /// character within the line, or the line feed at the line's end. The
    /// position past the last line's end holds no character.
    pub fn char_at(&self, line: usize, col: usize) -> (r: Result<char, EditorError>)
        ensures
            r is Ok <==> valid_pos(self@, line as int, col as int) && (col < self@[line as int].len()
                || line + 1 < self@.len()),
            r is Ok ==> r->Ok_0 == char_at_pos(self@, line as int, col as int),
            r is Err ==> r == Err::<char, EditorError>(EditorError::OutOfBounds),
    {
        if line < self.lines.len() {
            if col < self.lines[line].len() {
                Ok(self.lines[line][col])
            } else if col == self.lines[line].len() && line + 1 < self.lines.len() {
                Ok('\n')
            } else {
                Err(EditorError::OutOfBounds)
            }
        } else {
            Err(EditorError::OutOfBounds)
        }
    }

    /// The flat offset of a valid position.
    pub fn pos_offset(&self, line: usize, col: usize) -> (off: usize)
        requires
            self.inv(),
            valid_pos(self@, line as int, col as int),
        ensures
            off == offset_of(self@, line as int, col as int),
            off <= flatten(self@).len(),
    {
        proof {
            lemma_offset_bounds(self@, line as int, col as int);
        }
        let mut acc: usize = 0;
        let mut j: usize = 0;
        while j < line
            invariant
                j <= line,
                self.inv(),
                valid_pos(self@, line as int, col as int),
                acc == line_start(self@, j as int),
                acc <= flatten(self@).len(),
            decreases line - j,
        {
            proof {
                lemma_line_start_step(self@, j as int);
                lemma_offset_bounds(self@, j + 1, 0);
            }
            acc = acc + self.lines[j].len() + 1;
            j = j + 1;
        }
        proof {
            lemma_offset_bounds(self@, line as int, col as int);
        }
        acc + col
    }

    /// Insert one character at a valid position; a line feed splits the
    /// line. Returns where the caret lands, one past the new character.
    pub fn insert_char(&mut self, line: usize, col: usize, c: char) -> (p: (usize, usize))
        requires
            old(self).inv(),
            valid_pos(old(self)@, line as int, col as int),
            flatten(old(self)@).len() < MAX_DOC_LEN,
        ensures
            final(self).inv(),
            final(self)@ == line_insert_char(old(self)@, line as int, col as int, c),
            (p.0 as int, p.1 as int) == pos_after_char(line as int, col as int, c),
            valid_pos(final(self)@, p.0 as int, p.1 as int),
            flatten(final(self)@).len() == flatten(old(self)@).len() + 1,
    {
        proof {
            lemma_ins_char(self@, line as int, col as int, c);
            lemma_offset_bounds(self@, line as int, col as int);
        }
        let _nlines = self.lines.len();
        if c == '\n' {
            let mut lv = self.lines.remove(line);
            let rest = lv.split_off(col);
            self.lines.insert(line, rest);
            self.lines.insert(line, lv);
            self.total = self.total + 1;
            proof {
                assert(self@ =~~= line_insert_char(old(self)@, line as int, col as int, c));
            }
            (line + 1, 0)
        } else {
            let mut lv = self.lines.remove(line);
            lv.insert(col, c);
            self.lines.insert(line, lv);
            self.total = self.total + 1;
            proof {
                assert(self@[line as int] =~= old(self)@[line as int].take(col as int) + seq![c]
                    + old(self)@[line as int].skip(col as int));
                assert(self@ =~~= line_insert_char(old(self)@, line as int, col as int, c));
            }
            (line, col + 1)
        }
    }

    /// Delete the character at a valid position strictly inside the flat
    /// content; at a line's end the next line merges in. Returns the
    /// character removed.
    pub fn delete_char(&mut self, line: usize, col: usize) -> (c: char)
        requires
            old(self).inv(),
            valid_pos(old(self)@, line as int, col as int),
            offset_of(old(self)@, line as int, col as int) < flatten(old(self)@).len(),
        ensures
            final(self).inv(),
            final(self)@ == line_delete_char(old(self)@, line as int, col as int),
            c == char_at_pos(old(self)@, line as int, col as int),
            flatten(final(self)@).len() == flatten(old(self)@).len() - 1,
    {
        proof {
            lemma_del_char(self@, line as int, col as int);
            lemma_offset_bounds(self@, line as int, col as int);
        }
        let _nlines = self.lines.len();
        if col < self.lines[line].len() {
            let mut lv = self.lines.remove(line);
            let c = lv.remove(col);
            self.lines.insert(line, lv);
            self.total = self.total - 1;
            proof {
                assert(self@[line as int] =~= old(self)@[line as int].take(col as int) + old(
                    self,
                )@[line as int].skip(col as int + 1));
                assert(self@ =~~= line_delete_char(old(self)@, line as int, col as int));
            }
            c
        } else {
            let mut next = self.lines.remove(line + 1);
            let mut lv = self.lines.remove(line);
            lv.append(&mut next);
            self.lines.insert(line, lv);
            self.total = self.total - 1;
            proof {
                assert(self@ =~~= line_delete_char(old(self)@, line as int, col as int));
            }
            '\n'
        }
    }

    /// Insert a text at a position: at a valid one the text goes in
    /// character by character, line feeds splitting lines, and the caret
    /// lands one past its end; at any other the document is unchanged and
    /// the position is out of bounds.
    pub fn insert(&mut self, line: usize, col: usize, text: &Vec<char>) -> (r: Result<
        (usize, usize),
        EditorError,
    >)
        requires
            old(self).inv(),
            flatten(old(self)@).len() + text@.len() <= MAX_DOC_LEN,
        ensures
            final(self).inv(),
            r is Ok <==> valid_pos(old(self)@, line as int, col as int),
            r is Ok ==> final(self)@ == ins_text(old(self)@, line as int, col as int, text@) && (
            r->Ok_0.0 as int,
            r->Ok_0.1 as int,
            ) == pos_after(line as int, col as int, text@) && valid_pos(
                final(self)@,
                r->Ok_0.0 as int,
                r->Ok_0.1 as int,
            ),
            r is Err ==> final(self)@ == old(self)@ && r == Err::<(usize, usize), EditorError>(
                EditorError::OutOfBounds,
            ),
    {
        if line >= self.lines.len() {
            return Err(EditorError::OutOfBounds);
        }
        if col > self.lines[line].len() {
            return Err(EditorError::OutOfBounds);
        }
        let ghost doc0 = self@;
        let mut l = line;
        let mut c = col;
        let mut i: usize = 0;
        proof {
            assert(ins_text(doc0, line as int, col as int, text@.take(0)) == doc0);
            assert(pos_after(line as int, col as int, text@.take(0)) == (line as int, col as int));
        }
        while i < text.len()
            invariant
                i <= text@.len(),
                self.inv(),
                valid_pos(doc0, line as int, col as int),
                flatten(doc0).len() + text@.len() <= MAX_DOC_LEN,
                self@ == ins_text(doc0, line as int, col as int, text@.take(i as int)),
                (l as int, c as int) == pos_after(line as int, col as int, text@.take(i as int)),
                valid_pos(self@, l as int, c as int),
                flatten(self@).len() == flatten(doc0).len() + i,
            decreases text@.len() - i,
        {
            let ghost tpre = text@.take(i as int);
            let ghost x = text@[i as int];
            let ghost d1 = line_insert_char(self@, l as int, c as int, x);
            let ghost pp = pos_after_char(l as int, c as int, x);
            proof {
                lemma_ins_text_append(doc0, line as int, col as int, tpre, seq![x]);
                assert(tpre + seq![x] =~= text@.take(i + 1));
                assert(seq![x][0] == x && seq![x].drop_first() =~= Seq::<char>::empty());
                assert(ins_text(d1, pp.0, pp.1, Seq::<char>::empty()) == d1);
                assert(pos_after(pp.0, pp.1, Seq::<char>::empty()) == (pp.0, pp.1));
                assert(ins_text(self@, l as int, c as int, seq![x]) == d1);
                assert(pos_after(l as int, c as int, seq![x]) == pp);
            }
            let p = self.insert_char(l, c, text[i]);
            l = p.0;
            c = p.1;
            i = i + 1;
        }
        proof {
            assert(text@.take(text@.len() as int) =~= text@);
        }
        Ok((l, c))
    }

    /// Delete `n` characters forward from a position: from a valid one with
    /// `n` characters before the document's end they are removed and
    /// returned in order; from any other the document is unchanged and the
    /// range is out of bounds.
    pub fn delete(&mut self, line: usize, col: usize, n: usize) -> (r: Result<
        Vec<char>,
        EditorError,
    >)
        requires
            old(self).inv(),
        ensures
            final(self).inv(),
            r is Ok <==> valid_pos(old(self)@, line as int, col as int) && offset_of(
                old(self)@,
                line as int,
                col as int,
            ) + n <= flatten(old(self)@).len(),
            r is Ok ==> final(self)@ == del_text(old(self)@, line as int, col as int, n as nat)
                && r->Ok_0@ == del_removed(old(self)@, line as int, col as int, n as nat),
            r is Err ==> final(self)@ == old(self)@ && r == Err::<Vec<char>, EditorError>(
                EditorError::OutOfBounds,
            ),
    {
        if line >= self.lines.len() {
            return Err(EditorError::OutOfBounds);
        }
        if col > self.lines[line].len() {
            return Err(EditorError::OutOfBounds);
        }
        let off = self.pos_offset(line, col);
        if n > self.total - off {
            return Err(EditorError::OutOfBounds);
        }
        let ghost doc0 = self@;
        let mut out: Vec<char> = Vec::new();
        let mut i: usize = 0;
        proof {
            assert(del_text(doc0, line as int, col as int, 0) == doc0);
            assert(del_removed(doc0, line as int, col as int, 0) == Seq::<char>::empty());
            lemma_offset_bounds(doc0, line as int, col as int);
        }
        while i < n
            invariant
                i <= n,
                self.inv(),
                wf_lines(doc0),
                valid_pos(doc0, line as int, col as int),
                offset_of(doc0, line as int, col as int) + n <= flatten(doc0).len(),
                self@ == del_text(doc0, line as int, col as int, i as nat),
                out@ == del_removed(doc0, line as int, col as int, i as nat),
                valid_pos(self@, line as int, col as int),
                offset_of(self@, line as int, col as int) == offset_of(
                    doc0,
                    line as int,
                    col as int,
                ),
                flatten(self@).len() == flatten(doc0).len() - i,
            decreases n - i,
        {
            proof {
                lemma_del_text_snoc(doc0, line as int, col as int, i as nat);
            }
            let ch = self.delete_char(line, col);
            out.push(ch);
            i = i + 1;
            proof {
                lemma_del_text(doc0, line as int, col as int, i as nat);
            }
        }
        Ok(out)
    }

    /// The document whose flat content is the given text: the text split
    /// into lines at each line feed.
    pub fn from_text(text: &Vec<char>) -> (r: TextBuffer)
        requires
            text@.len() <= MAX_DOC_LEN,
        ensures
            r.inv(),
            r@ == split_lines(text@),
    {
        let mut lines: Vec<Vec<char>> = Vec::new();
        let mut cur: Vec<char> = Vec::new();
        let mut i: usize = 0;
        proof {
            assert(text@.take(0) =~= Seq::<char>::empty());
            assert(lines_view(lines@).push(cur@) =~~= split_lines(text@.take(0)));
        }
        while i < text.len()
            invariant
                i <= text@.len(),
                lines_view(lines@).push(cur@) == split_lines(text@.take(i as int)),
            decreases text@.len() - i,
        {
            let ghost pre = text@.take(i as int);
            proof {
                lemma_split_snoc(pre, text@[i as int]);
                assert(pre.push(text@[i as int]) =~= text@.take(i + 1));
            }
            let ch = text[i];
            if ch == '\n' {
                lines.push(cur);
                cur = Vec::new();
                proof {
                    assert(lines_view(lines@).push(cur@) =~~= split_lines(text@.take(i + 1)));
                }
            } else {
                cur.push(ch);
                proof {
                    assert(lines_view(lines@).push(cur@) =~~= split_lines(text@.take(i + 1)));
                }
            }
            i = i + 1;
        }
        lines.push(cur);
        let ghost full = lines_view(lines@);
        proof {
            assert(text@.take(text@.len() as int) =~= text@);
            assert(full =~~= split_lines(text@));
            lemma_split_wf(text@);
        }
        TextBuffer { lines, total: text.len() }
    }
}

} // verus!
