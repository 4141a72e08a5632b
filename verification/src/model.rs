//! The mathematical model of a document.
//!
//! A document is a sequence of lines, each a sequence of characters with no
//! line feed inside; its flat content is the lines joined by `'\n'`. All
//! buffer contracts are stated over this model: single-character insertion
//! and deletion, their extension to whole texts, the (line, column) to flat
//! offset correspondence, and the splitting of a flat sequence into lines.

use vstd::prelude::*;

verus! {

/// Largest flat document length the naive line representation is stated for.
pub const MAX_DOC_LEN: usize = 1048576;

/// Well-formed document: at least one line, and no line contains a line feed.
pub open spec fn wf_lines(doc: Seq<Seq<char>>) -> bool {
    &&& doc.len() >= 1
    &&& forall|i: int| 0 <= i < doc.len() ==> !(#[trigger] doc[i]).contains('\n')
}

/// A well-formed document that also fits the stated size threshold.
pub open spec fn doc_ok(doc: Seq<Seq<char>>) -> bool {
    &&& wf_lines(doc)
    &&& flatten(doc).len() <= MAX_DOC_LEN
}

/// The flat content of a document: its lines joined by line feeds.
pub open spec fn flatten(doc: Seq<Seq<char>>) -> Seq<char>
    decreases doc.len(),
{
    if doc.len() == 0 {
        Seq::empty()
    } else if doc.len() == 1 {
        doc[0]
    } else {
        doc[0] + seq!['\n'] + flatten(doc.drop_first())
    }
}

/// Split a flat sequence into lines at each line feed. The result always
/// holds at least one line; a trailing line feed yields a final empty line.
pub open spec fn split_lines(s: Seq<char>) -> Seq<Seq<char>>
    decreases s.len(),
{
    if s.len() == 0 {
        seq![Seq::<char>::empty()]
    } else if s[0] == '\n' {
        seq![Seq::<char>::empty()] + split_lines(s.drop_first())
    } else {
        let rest = split_lines(s.drop_first());
        seq![seq![s[0]] + rest[0]] + rest.drop_first()
    }
}

/// A caret position: on a line of the document, at or before its end.
pub open spec fn valid_pos(doc: Seq<Seq<char>>, line: int, col: int) -> bool {
    &&& 0 <= line < doc.len()
    &&& 0 <= col <= doc[line].len()
}

/// The flat offset at which line `line` starts: the lengths of the lines
/// above it, each with its line feed.
pub open spec fn line_start(doc: Seq<Seq<char>>, line: int) -> int
    decreases line,
{
    if line <= 0 {
        0
    } else {
        doc[0].len() + 1 + line_start(doc.drop_first(), line - 1)
    }
}

/// The flat offset of position (line, col).
pub open spec fn offset_of(doc: Seq<Seq<char>>, line: int, col: int) -> int {
    line_start(doc, line) + col
}

/// Insert one character at (line, col): a line feed splits the line in two,
/// any other character lengthens the line.
pub open spec fn line_insert_char(doc: Seq<Seq<char>>, line: int, col: int, c: char) -> Seq<
    Seq<char>,
> {
    if c == '\n' {
        doc.take(line) + seq![doc[line].take(col), doc[line].skip(col)] + doc.skip(line + 1)
    } else {
        doc.update(line, doc[line].take(col) + seq![c] + doc[line].skip(col))
    }
}

/// Where the caret stands after typing `c` at (line, col).
pub open spec fn pos_after_char(line: int, col: int, c: char) -> (int, int) {
    if c == '\n' {
        (line + 1, 0)
    } else {
        (line, col + 1)
    }
}

/// Insert a text character by character, the caret advancing as it goes.
pub open spec fn ins_text(doc: Seq<Seq<char>>, line: int, col: int, t: Seq<char>) -> Seq<Seq<char>>
    decreases t.len(),
{
    if t.len() == 0 {
        doc
    } else {
        let d = line_insert_char(doc, line, col, t[0]);
        let p = pos_after_char(line, col, t[0]);
        ins_text(d, p.0, p.1, t.drop_first())
    }
}

/// Where the caret stands after typing the whole text `t` from (line, col).
pub open spec fn pos_after(line: int, col: int, t: Seq<char>) -> (int, int)
    decreases t.len(),
{
    if t.len() == 0 {
        (line, col)
    } else {
        let p = pos_after_char(line, col, t[0]);
        pos_after(p.0, p.1, t.drop_first())
    }
}

/// Delete the character at flat position (line, col): within the line it is
/// removed; at the line's end the line feed goes and the next line merges in.
pub open spec fn line_delete_char(doc: Seq<Seq<char>>, line: int, col: int) -> Seq<Seq<char>> {
    if col < doc[line].len() {
        doc.update(line, doc[line].take(col) + doc[line].skip(col + 1))
    } else {
        doc.take(line) + seq![doc[line] + doc[line + 1]] + doc.skip(line + 2)
    }
}

/// The character standing at flat position (line, col): within the line its
/// column's character, at the line's end the line feed. It is what
/// `line_delete_char` removes.
pub open spec fn char_at_pos(doc: Seq<Seq<char>>, line: int, col: int) -> char {
    if col < doc[line].len() {
        doc[line][col]
    } else {
        '\n'
    }
}

/// Delete `n` characters forward from (line, col).
pub open spec fn del_text(doc: Seq<Seq<char>>, line: int, col: int, n: nat) -> Seq<Seq<char>>
    decreases n,
{
    if n == 0 {
        doc
    } else {
        del_text(line_delete_char(doc, line, col), line, col, (n - 1) as nat)
    }
}

/// The text that `del_text` removes, in document order.
pub open spec fn del_removed(doc: Seq<Seq<char>>, line: int, col: int, n: nat) -> Seq<char>
    decreases n,
{
    if n == 0 {
        Seq::empty()
    } else {
        seq![char_at_pos(doc, line, col)] + del_removed(
            line_delete_char(doc, line, col),
            line,
            col,
            (n - 1) as nat,
        )
    }
}

/// Splice `t` into `s` at `off`.
pub open spec fn splice_ins(s: Seq<char>, off: int, t: Seq<char>) -> Seq<char> {
    s.take(off) + t + s.skip(off)
}

/// Remove `n` characters of `s` from `off` on.
pub open spec fn splice_del(s: Seq<char>, off: int, n: int) -> Seq<char> {
    s.take(off) + s.skip(off + n)
}

/// Position (l2, c2) lies at or before (l1, c1) in reading order.
pub open spec fn pos_le(l2: int, c2: int, l1: int, c1: int) -> bool {
    l2 < l1 || (l2 == l1 && c2 <= c1)
}

/// A valid position's offset lies within the flat content, at its very end
/// exactly at the end of the last line.
pub proof fn lemma_offset_bounds(doc: Seq<Seq<char>>, line: int, col: int)
    requires
        valid_pos(doc, line, col),
    ensures
        col <= offset_of(doc, line, col),
        offset_of(doc, line, col) <= flatten(doc).len(),
        offset_of(doc, line, col) == flatten(doc).len() <==> (line == doc.len() - 1 && col
            == doc[line].len()),
    decreases line,
{
    if line > 0 {
        assert(doc.drop_first()[line - 1] == doc[line]);
        lemma_offset_bounds(doc.drop_first(), line - 1, col);
    }
}

/// Unrolling `flatten` at the front.
pub proof fn lemma_flatten_cons(x: Seq<char>, rest: Seq<Seq<char>>)
    ensures
        flatten(seq![x] + rest) == if rest.len() == 0 {
            x
        } else {
            x + seq!['\n'] + flatten(rest)
        },
{
    let s = seq![x] + rest;
    assert(s[0] == x);
    if rest.len() == 0 {
        assert(flatten(s) == s[0]);
    } else {
        assert(s.drop_first() =~~= rest);
    }
}

/// Splicing into the right part of a concatenation.
pub proof fn lemma_splice_ins_shift(x: Seq<char>, s: Seq<char>, off: int, t: Seq<char>)
    requires
        0 <= off <= s.len(),
    ensures
        splice_ins(x + s, x.len() + off, t) == x + splice_ins(s, off, t),
{
    assert(splice_ins(x + s, x.len() + off, t) =~= x + splice_ins(s, off, t));
}

/// Deleting from the right part of a concatenation.
pub proof fn lemma_splice_del_shift(x: Seq<char>, s: Seq<char>, off: int, n: int)
    requires
        0 <= off,
        0 <= n,
        off + n <= s.len(),
    ensures
        splice_del(x + s, x.len() + off, n) == x + splice_del(s, off, n),
{
    assert(splice_del(x + s, x.len() + off, n) =~= x + splice_del(s, off, n));
}

/// A subrange of a line without line feeds has none either.
pub proof fn lemma_no_nl_subrange(l: Seq<char>, i: int, j: int)
    requires
        !l.contains('\n'),
        0 <= i <= j <= l.len(),
    ensures
        !l.subrange(i, j).contains('\n'),
{
    if l.subrange(i, j).contains('\n') {
        let k = choose|k: int| 0 <= k < l.subrange(i, j).len() && l.subrange(i, j)[k] == '\n';
        assert(l[i + k] == '\n');
        assert(l.contains('\n'));
    }
}

/// A concatenation of lines without line feeds has none either.
pub proof fn lemma_no_nl_concat(a: Seq<char>, b: Seq<char>)
    requires
        !a.contains('\n'),
        !b.contains('\n'),
    ensures
        !(a + b).contains('\n'),
{
    if (a + b).contains('\n') {
        let k = choose|k: int| 0 <= k < (a + b).len() && (a + b)[k] == '\n';
        if k < a.len() {
            assert(a[k] == '\n');
            assert(a.contains('\n'));
        } else {
            assert(b[k - a.len()] == '\n');
            assert(b.contains('\n'));
        }
    }
}

/// What inserting one character does to the flat content and the offsets:
/// the character lands at the position's offset, the caret moves one past it,
/// and every position at or before the insertion point keeps its offset.
pub proof fn lemma_ins_char(doc: Seq<Seq<char>>, line: int, col: int, c: char)
    requires
        wf_lines(doc),
        valid_pos(doc, line, col),
    ensures
        ({
            let d2 = line_insert_char(doc, line, col, c);
            let off = offset_of(doc, line, col);
            let p = pos_after_char(line, col, c);
            &&& wf_lines(d2)
            &&& flatten(d2) == splice_ins(flatten(doc), off, seq![c])
            &&& flatten(d2).len() == flatten(doc).len() + 1
            &&& valid_pos(d2, p.0, p.1)
            &&& offset_of(d2, p.0, p.1) == off + 1
            &&& forall|l2: int, c2: int|
                valid_pos(doc, l2, c2) && pos_le(l2, c2, line, col) ==> valid_pos(d2, l2, c2)
                    && offset_of(d2, l2, c2) == offset_of(doc, l2, c2)
        }),
    decreases line,
{
    let d2 = line_insert_char(doc, line, col, c);
    let off = offset_of(doc, line, col);
    lemma_offset_bounds(doc, line, col);
    if line == 0 {
        if c == '\n' {
            let la = doc[0].take(col);
            let lb = doc[0].skip(col);
            assert(d2 =~~= seq![la, lb] + doc.drop_first());
            lemma_no_nl_subrange(doc[0], 0, col);
            lemma_no_nl_subrange(doc[0], col, doc[0].len() as int);
            assert forall|i: int| 0 <= i < d2.len() implies !(#[trigger] d2[i]).contains(
                '\n',
            ) by {
                if i >= 2 {
                    assert(d2[i] == doc[i - 1]);
                }
            }
            assert(d2.drop_first() =~~= seq![lb] + doc.drop_first());
            lemma_flatten_cons(lb, doc.drop_first());
            assert(flatten(d2) == la + seq!['\n'] + flatten(d2.drop_first()));
            if doc.len() == 1 {
                assert(flatten(d2) =~= splice_ins(flatten(doc), off, seq!['\n']));
            } else {
                assert(flatten(doc) == doc[0] + seq!['\n'] + flatten(doc.drop_first()));
                assert(flatten(d2) =~= splice_ins(flatten(doc), off, seq!['\n']));
            }
            assert(d2[0] == la && la.len() == col);
            assert(offset_of(d2, 1, 0) == d2[0].len() + 1 + line_start(d2.drop_first(), 0));
        } else {
            let nl = doc[0].take(col) + seq![c] + doc[0].skip(col);
            lemma_no_nl_subrange(doc[0], 0, col);
            lemma_no_nl_subrange(doc[0], col, doc[0].len() as int);
            lemma_no_nl_concat(doc[0].take(col), seq![c]);
            lemma_no_nl_concat(doc[0].take(col) + seq![c], doc[0].skip(col));
            assert(!nl.contains('\n'));
            assert forall|i: int| 0 <= i < d2.len() implies !(#[trigger] d2[i]).contains(
                '\n',
            ) by {
                if i != 0 {
                    assert(d2[i] == doc[i]);
                }
            }
            if doc.len() == 1 {
                assert(flatten(d2) == nl);
                assert(flatten(d2) =~= splice_ins(flatten(doc), off, seq![c]));
            } else {
                assert(d2.drop_first() =~~= doc.drop_first());
                assert(flatten(d2) == nl + seq!['\n'] + flatten(doc.drop_first()));
                assert(flatten(doc) == doc[0] + seq!['\n'] + flatten(doc.drop_first()));
                assert(flatten(d2) =~= splice_ins(flatten(doc), off, seq![c]));
            }
        }
    } else {
        let tail = doc.drop_first();
        assert(tail[line - 1] == doc[line]);
        assert forall|i: int| 0 <= i < tail.len() implies !(#[trigger] tail[i]).contains(
            '\n',
        ) by {
            assert(tail[i] == doc[i + 1]);
        }
        lemma_ins_char(tail, line - 1, col, c);
        let d2t = line_insert_char(tail, line - 1, col, c);
        let offt = offset_of(tail, line - 1, col);
        lemma_offset_bounds(tail, line - 1, col);
        assert(d2[0] == doc[0]);
        if c == '\n' {
            assert(d2.drop_first() =~~= d2t);
        } else {
            assert(d2.drop_first() =~~= d2t);
        }
        assert(d2.len() >= 2);
        assert(flatten(d2) == doc[0] + seq!['\n'] + flatten(d2t));
        assert(flatten(doc) == doc[0] + seq!['\n'] + flatten(tail));
        lemma_splice_ins_shift(doc[0] + seq!['\n'], flatten(tail), offt, seq![c]);
        assert(off == doc[0].len() + 1 + offt);
        assert(flatten(d2) =~= splice_ins(flatten(doc), off, seq![c]));
        assert forall|i: int| 0 <= i < d2.len() implies !(#[trigger] d2[i]).contains('\n') by {
            if i != 0 {
                assert(d2[i] == d2t[i - 1]);
            }
        }
        let p = pos_after_char(line, col, c);
        let pt = pos_after_char(line - 1, col, c);
        assert(d2.drop_first()[pt.0] == d2[p.0]);
        assert(offset_of(d2, p.0, p.1) == d2[0].len() + 1 + offset_of(d2t, pt.0, pt.1));
        assert forall|l2: int, c2: int|
            valid_pos(doc, l2, c2) && pos_le(l2, c2, line, col) implies valid_pos(d2, l2, c2)
            && offset_of(d2, l2, c2) == offset_of(doc, l2, c2) by {
            if l2 == 0 {
                assert(d2[0] == doc[0]);
            } else {
                assert(tail[l2 - 1] == doc[l2]);
                assert(valid_pos(tail, l2 - 1, c2) && pos_le(l2 - 1, c2, line - 1, col));
                assert(valid_pos(d2t, l2 - 1, c2) && offset_of(d2t, l2 - 1, c2) == offset_of(
                    tail,
                    l2 - 1,
                    c2,
                ));
                assert(d2[l2] == d2t[l2 - 1]);
            }
        }
    }
}

/// What deleting one character does to the flat content: the character at
/// the position's offset goes, and the position itself keeps its offset.
pub proof fn lemma_del_char(doc: Seq<Seq<char>>, line: int, col: int)
    requires
        wf_lines(doc),
        valid_pos(doc, line, col),
        offset_of(doc, line, col) < flatten(doc).len(),
    ensures
        ({
            let d2 = line_delete_char(doc, line, col);
            let off = offset_of(doc, line, col);
            &&& wf_lines(d2)
            &&& flatten(d2) == splice_del(flatten(doc), off, 1)
            &&& flatten(d2).len() == flatten(doc).len() - 1
            &&& char_at_pos(doc, line, col) == flatten(doc)[off]
            &&& valid_pos(d2, line, col)
            &&& offset_of(d2, line, col) == off
        }),
    decreases line,
{
    let d2 = line_delete_char(doc, line, col);
    let off = offset_of(doc, line, col);
    lemma_offset_bounds(doc, line, col);
    if line == 0 {
        if col < doc[0].len() {
            let nl = doc[0].take(col) + doc[0].skip(col + 1);
            lemma_no_nl_subrange(doc[0], 0, col);
            lemma_no_nl_subrange(doc[0], col + 1, doc[0].len() as int);
            lemma_no_nl_concat(doc[0].take(col), doc[0].skip(col + 1));
            assert forall|i: int| 0 <= i < d2.len() implies !(#[trigger] d2[i]).contains(
                '\n',
            ) by {
                if i != 0 {
                    assert(d2[i] == doc[i]);
                }
            }
            if doc.len() == 1 {
                assert(flatten(d2) == nl);
                assert(flatten(d2) =~= splice_del(flatten(doc), off, 1));
                assert(char_at_pos(doc, 0, col) == flatten(doc)[off]);
            } else {
                assert(d2.drop_first() =~~= doc.drop_first());
                assert(flatten(d2) == nl + seq!['\n'] + flatten(doc.drop_first()));
                assert(flatten(doc) == doc[0] + seq!['\n'] + flatten(doc.drop_first()));
                assert(flatten(d2) =~= splice_del(flatten(doc), off, 1));
                assert(char_at_pos(doc, 0, col) == flatten(doc)[off]);
            }
        } else {
            // The offset is strictly inside the flat content, so line 0 is
            // not the last line: the line feed at its end is removed.
            assert(doc.len() >= 2);
            let merged = doc[0] + doc[1];
            lemma_no_nl_concat(doc[0], doc[1]);
            assert(d2 =~~= seq![merged] + doc.skip(2));
            assert forall|i: int| 0 <= i < d2.len() implies !(#[trigger] d2[i]).contains(
                '\n',
            ) by {
                if i != 0 {
                    assert(d2[i] == doc[i + 1]);
                }
            }
            lemma_flatten_cons(merged, doc.skip(2));
            let tail = doc.drop_first();
            assert(tail[0] == doc[1]);
            assert(flatten(doc) == doc[0] + seq!['\n'] + flatten(tail));
            if doc.len() == 2 {
                assert(flatten(tail) == doc[1]);
                assert(doc.skip(2).len() == 0);
                assert(flatten(d2) == merged);
                assert(flatten(d2) =~= splice_del(flatten(doc), off, 1));
            } else {
                assert(tail.drop_first() =~~= doc.skip(2));
                assert(flatten(tail) == doc[1] + seq!['\n'] + flatten(doc.skip(2)));
                assert(flatten(d2) == merged + seq!['\n'] + flatten(doc.skip(2)));
                assert(flatten(d2) =~= splice_del(flatten(doc), off, 1));
            }
            assert(char_at_pos(doc, 0, col) == flatten(doc)[off]);
        }
    } else {
        let tail = doc.drop_first();
        assert(tail[line - 1] == doc[line]);
        assert forall|i: int| 0 <= i < tail.len() implies !(#[trigger] tail[i]).contains(
            '\n',
        ) by {
            assert(tail[i] == doc[i + 1]);
        }
        let offt = offset_of(tail, line - 1, col);
        assert(flatten(doc) == doc[0] + seq!['\n'] + flatten(tail));
        assert(off == doc[0].len() + 1 + offt);
        if line + 1 < doc.len() {
            assert(tail[line] == doc[line + 1]);
        }
        lemma_del_char(tail, line - 1, col);
        let d2t = line_delete_char(tail, line - 1, col);
        lemma_offset_bounds(tail, line - 1, col);
        assert(d2[0] == doc[0]);
        assert(d2.drop_first() =~~= d2t);
        assert(d2.len() >= 2);
        assert(flatten(d2) == doc[0] + seq!['\n'] + flatten(d2t));
        lemma_splice_del_shift(doc[0] + seq!['\n'], flatten(tail), offt, 1);
        assert(flatten(d2) =~= splice_del(flatten(doc), off, 1));
        assert(char_at_pos(doc, line, col) == char_at_pos(tail, line - 1, col));
        assert(flatten(doc)[off] == flatten(tail)[offt]);
        assert(d2[line] == d2t[line - 1]);
        assert(offset_of(d2, line, col) == d2[0].len() + 1 + offset_of(d2t, line - 1, col));
    }
}

/// What inserting a text does to the flat content: it is spliced in at the
/// position's offset, the caret lands one past its end, and every position
/// at or before the insertion point keeps its offset.
pub proof fn lemma_ins_text(doc: Seq<Seq<char>>, line: int, col: int, t: Seq<char>)
    requires
        wf_lines(doc),
        valid_pos(doc, line, col),
    ensures
        ({
            let d2 = ins_text(doc, line, col, t);
            let off = offset_of(doc, line, col);
            let p = pos_after(line, col, t);
            &&& wf_lines(d2)
            &&& flatten(d2) == splice_ins(flatten(doc), off, t)
            &&& flatten(d2).len() == flatten(doc).len() + t.len()
            &&& valid_pos(d2, p.0, p.1)
            &&& offset_of(d2, p.0, p.1) == off + t.len()
            &&& forall|l2: int, c2: int|
                valid_pos(doc, l2, c2) && pos_le(l2, c2, line, col) ==> valid_pos(d2, l2, c2)
                    && offset_of(d2, l2, c2) == offset_of(doc, l2, c2)
        }),
    decreases t.len(),
{
    let d2 = ins_text(doc, line, col, t);
    let off = offset_of(doc, line, col);
    let s = flatten(doc);
    lemma_offset_bounds(doc, line, col);
    if t.len() == 0 {
        assert(flatten(d2) =~= splice_ins(s, off, t));
    } else {
        let c = t[0];
        let d1 = line_insert_char(doc, line, col, c);
        let p1 = pos_after_char(line, col, c);
        lemma_ins_char(doc, line, col, c);
        lemma_ins_text(d1, p1.0, p1.1, t.drop_first());
        let s1 = flatten(d1);
        // s1 == splice_ins(s, off, seq![c]); splicing the rest right after c
        // splices the whole of t at off.
        assert(s1.take(off + 1) =~= s.take(off) + seq![c]);
        assert(s1.skip(off + 1) =~= s.skip(off));
        assert(flatten(d2) == splice_ins(s1, off + 1, t.drop_first()));
        assert(flatten(d2) =~= splice_ins(s, off, t));
        assert(pos_after(line, col, t) == pos_after(p1.0, p1.1, t.drop_first()));
        assert forall|l2: int, c2: int|
            valid_pos(doc, l2, c2) && pos_le(l2, c2, line, col) implies valid_pos(d2, l2, c2)
            && offset_of(d2, l2, c2) == offset_of(doc, l2, c2) by {
            assert(valid_pos(d1, l2, c2) && offset_of(d1, l2, c2) == offset_of(doc, l2, c2));
            assert(pos_le(l2, c2, p1.0, p1.1));
        }
    }
}

/// What deleting `n` characters does to the flat content: the `n` characters
/// from the position's offset on are removed and returned in order, and the
/// position keeps its offset.
pub proof fn lemma_del_text(doc: Seq<Seq<char>>, line: int, col: int, n: nat)
    requires
        wf_lines(doc),
        valid_pos(doc, line, col),
        offset_of(doc, line, col) + n <= flatten(doc).len(),
    ensures
        ({
            let d2 = del_text(doc, line, col, n);
            let off = offset_of(doc, line, col);
            &&& wf_lines(d2)
            &&& flatten(d2) == splice_del(flatten(doc), off, n as int)
            &&& flatten(d2).len() == flatten(doc).len() - n
            &&& del_removed(doc, line, col, n) == flatten(doc).subrange(off, off + n)
            &&& valid_pos(d2, line, col)
            &&& offset_of(d2, line, col) == off
        }),
    decreases n,
{
    let d2 = del_text(doc, line, col, n);
    let off = offset_of(doc, line, col);
    let s = flatten(doc);
    lemma_offset_bounds(doc, line, col);
    if n == 0 {
        assert(flatten(d2) =~= splice_del(s, off, 0));
        assert(del_removed(doc, line, col, n) =~= s.subrange(off, off));
    } else {
        let d1 = line_delete_char(doc, line, col);
        lemma_del_char(doc, line, col);
        lemma_del_text(d1, line, col, (n - 1) as nat);
        let s1 = flatten(d1);
        assert(s1.take(off) =~= s.take(off));
        assert(s1.skip(off + n - 1) =~= s.skip(off + n));
        assert(flatten(d2) =~= splice_del(s, off, n as int));
        assert(seq![s[off]] + s1.subrange(off, off + n - 1) =~= s.subrange(off, off + n));
    }
}

/// Inserting a concatenation is inserting the first part, then the second
/// from where the caret then stands.
pub proof fn lemma_ins_text_append(doc: Seq<Seq<char>>, line: int, col: int, t1: Seq<char>, t2: Seq<
    char,
>)
    ensures
        ({
            let p1 = pos_after(line, col, t1);
            &&& ins_text(doc, line, col, t1 + t2) == ins_text(
                ins_text(doc, line, col, t1),
                p1.0,
                p1.1,
                t2,
            )
            &&& pos_after(line, col, t1 + t2) == pos_after(p1.0, p1.1, t2)
        }),
    decreases t1.len(),
{
    if t1.len() == 0 {
        assert(t1 + t2 =~= t2);
    } else {
        assert((t1 + t2)[0] == t1[0]);
        assert((t1 + t2).drop_first() =~= t1.drop_first() + t2);
        let d1 = line_insert_char(doc, line, col, t1[0]);
        let p = pos_after_char(line, col, t1[0]);
        lemma_ins_text_append(d1, p.0, p.1, t1.drop_first(), t2);
    }
}

/// A line's start offset grows by the line's length and its line feed.
pub proof fn lemma_line_start_step(doc: Seq<Seq<char>>, j: int)
    requires
        0 <= j < doc.len(),
    ensures
        line_start(doc, j + 1) == line_start(doc, j) + doc[j].len() + 1,
    decreases j,
{
    if j > 0 {
        assert(doc.drop_first()[j - 1] == doc[j]);
        lemma_line_start_step(doc.drop_first(), j - 1);
    } else {
        assert(line_start(doc.drop_first(), 0) == 0);
    }
}

/// Unrolling `del_text` at the back: one more deletion is a deletion after.
pub proof fn lemma_del_text_snoc(doc: Seq<Seq<char>>, line: int, col: int, i: nat)
    ensures
        del_text(doc, line, col, i + 1) == line_delete_char(
            del_text(doc, line, col, i),
            line,
            col,
        ),
        del_removed(doc, line, col, i + 1) == del_removed(doc, line, col, i) + seq![
            char_at_pos(del_text(doc, line, col, i), line, col),
        ],
    decreases i,
{
    if i == 0 {
        let d1 = line_delete_char(doc, line, col);
        assert(del_text(d1, line, col, 0) == d1);
        assert(del_removed(d1, line, col, 0) == Seq::<char>::empty());
        assert(del_removed(doc, line, col, 1) =~= seq![char_at_pos(doc, line, col)]);
        assert(del_removed(doc, line, col, 0) + seq![char_at_pos(doc, line, col)] =~= seq![
            char_at_pos(doc, line, col),
        ]);
    } else {
        let d1 = line_delete_char(doc, line, col);
        lemma_del_text_snoc(d1, line, col, (i - 1) as nat);
        assert(del_removed(doc, line, col, i + 1) =~= del_removed(doc, line, col, i) + seq![
            char_at_pos(del_text(doc, line, col, i), line, col),
        ]);
    }
}

/// Unrolling `split_lines` at the back: one more character lengthens the
/// last line, a line feed opens a new empty one.
pub proof fn lemma_split_snoc(s: Seq<char>, c: char)
    ensures
        split_lines(s.push(c)) == if c == '\n' {
            split_lines(s).push(Seq::<char>::empty())
        } else {
            split_lines(s).update(
                split_lines(s).len() - 1,
                split_lines(s).last().push(c),
            )
        },
    decreases s.len(),
{
    let r = split_lines(s);
    if s.len() == 0 {
        assert(split_lines(Seq::<char>::empty()) == seq![Seq::<char>::empty()]);
        if c == '\n' {
            assert(s.push(c)[0] == '\n');
            assert(s.push(c).drop_first() =~= Seq::<char>::empty());
            assert(split_lines(s.push(c)) =~~= r.push(Seq::<char>::empty()));
        } else {
            assert(s.push(c)[0] == c);
            assert(s.push(c).drop_first() =~= Seq::<char>::empty());
            assert(split_lines(s.push(c)) =~~= r.update(r.len() - 1, r.last().push(c)));
        }
    } else {
        assert(s.push(c)[0] == s[0]);
        assert(s.push(c).drop_first() =~= s.drop_first().push(c));
        lemma_split_snoc(s.drop_first(), c);
        let rest = split_lines(s.drop_first());
        if c == '\n' {
            if s[0] == '\n' {
                assert(split_lines(s.push(c)) =~~= r.push(Seq::<char>::empty()));
            } else {
                assert(rest.push(Seq::<char>::empty())[0] == rest[0]);
                assert(rest.push(Seq::<char>::empty()).drop_first() =~~= rest.drop_first().push(
                    Seq::<char>::empty(),
                ));
                assert(split_lines(s.push(c)) =~~= r.push(Seq::<char>::empty()));
            }
        } else {
            let rest2 = rest.update(rest.len() - 1, rest.last().push(c));
            if s[0] == '\n' {
                assert(split_lines(s.push(c)) =~~= r.update(r.len() - 1, r.last().push(c)));
            } else {
                assert(rest2[0] == if rest.len() == 1 {
                    rest[0].push(c)
                } else {
                    rest[0]
                });
                assert(rest2.drop_first() =~~= if rest.len() == 1 {
                    rest.drop_first()
                } else {
                    rest.drop_first().update(rest.len() - 2, rest.last().push(c))
                });
                assert(split_lines(s.push(c)) =~~= r.update(r.len() - 1, r.last().push(c)));
            }
        }
    }
}

/// Where the caret stands after a text and one more character.
pub proof fn lemma_pos_after_snoc(line: int, col: int, t: Seq<char>, x: char)
    ensures
        pos_after(line, col, t.push(x)) == pos_after_char(
            pos_after(line, col, t).0,
            pos_after(line, col, t).1,
            x,
        ),
    decreases t.len(),
{
    if t.len() == 0 {
        let p = pos_after_char(line, col, x);
        assert(t.push(x)[0] == x);
        assert(t.push(x).drop_first() =~= Seq::<char>::empty());
        assert(pos_after(p.0, p.1, Seq::<char>::empty()) == p);
    } else {
        assert(t.push(x)[0] == t[0]);
        assert(t.push(x).drop_first() =~= t.drop_first().push(x));
        let p = pos_after_char(line, col, t[0]);
        lemma_pos_after_snoc(p.0, p.1, t.drop_first(), x);
    }
}

/// A flat sequence without line feeds splits into itself alone.
pub proof fn lemma_split_no_nl(s: Seq<char>)
    requires
        !s.contains('\n'),
    ensures
        split_lines(s) == seq![s],
    decreases s.len(),
{
    if s.len() == 0 {
        assert(split_lines(s) =~~= seq![s]);
    } else {
        assert(s[0] != '\n') by {
            if s[0] == '\n' {
                assert(s.contains('\n'));
            }
        }
        lemma_no_nl_subrange(s, 1, s.len() as int);
        lemma_split_no_nl(s.drop_first());
        assert(split_lines(s) =~~= seq![s]);
    }
}

/// Splitting a line, a line feed and a rest yields the line, then the rest's
/// lines.
pub proof fn lemma_split_concat(l: Seq<char>, s: Seq<char>)
    requires
        !l.contains('\n'),
    ensures
        split_lines(l + seq!['\n'] + s) == seq![l] + split_lines(s),
    decreases l.len(),
{
    let full = l + seq!['\n'] + s;
    if l.len() == 0 {
        assert(full[0] == '\n');
        assert(full.drop_first() =~= s);
        assert(split_lines(full) =~~= seq![l] + split_lines(s));
    } else {
        assert(full[0] == l[0]);
        assert(l[0] != '\n') by {
            if l[0] == '\n' {
                assert(l.contains('\n'));
            }
        }
        lemma_no_nl_subrange(l, 1, l.len() as int);
        assert(full.drop_first() =~= l.drop_first() + seq!['\n'] + s);
        lemma_split_concat(l.drop_first(), s);
        let rest = split_lines(full.drop_first());
        assert(rest[0] == l.drop_first());
        assert(seq![l[0]] + l.drop_first() =~= l);
        assert(rest.drop_first() =~~= split_lines(s));
        assert(split_lines(full) =~~= seq![l] + split_lines(s));
    }
}

/// Splitting the flat content of a well-formed document gives its lines back.
pub proof fn lemma_split_flatten(doc: Seq<Seq<char>>)
    requires
        wf_lines(doc),
    ensures
        split_lines(flatten(doc)) == doc,
    decreases doc.len(),
{
    if doc.len() == 1 {
        lemma_split_no_nl(doc[0]);
        assert(split_lines(flatten(doc)) =~~= doc);
    } else {
        let tail = doc.drop_first();
        assert forall|i: int| 0 <= i < tail.len() implies !(#[trigger] tail[i]).contains(
            '\n',
        ) by {
            assert(tail[i] == doc[i + 1]);
        }
        lemma_split_flatten(tail);
        lemma_split_concat(doc[0], flatten(tail));
        assert(split_lines(flatten(doc)) =~~= doc);
    }
}

/// Splitting any flat sequence yields a well-formed document whose flat
/// content is the sequence itself.
pub proof fn lemma_split_wf(s: Seq<char>)
    ensures
        wf_lines(split_lines(s)),
        flatten(split_lines(s)) == s,
    decreases s.len(),
{
    let r = split_lines(s);
    if s.len() == 0 {
        assert(!r[0].contains('\n'));
        assert(flatten(r) =~= s);
    } else if s[0] == '\n' {
        lemma_split_wf(s.drop_first());
        let rest = split_lines(s.drop_first());
        assert forall|i: int| 0 <= i < r.len() implies !(#[trigger] r[i]).contains('\n') by {
            if i > 0 {
                assert(r[i] == rest[i - 1]);
            }
        }
        lemma_flatten_cons(Seq::<char>::empty(), rest);
        assert(flatten(r) =~= s);
    } else {
        lemma_split_wf(s.drop_first());
        let rest = split_lines(s.drop_first());
        let first = seq![s[0]] + rest[0];
        assert(!seq![s[0]].contains('\n')) by {
            if seq![s[0]].contains('\n') {
                let k = choose|k: int|
                    0 <= k < seq![s[0]].len() && seq![s[0]][k] == '\n';
                assert(seq![s[0]][k] == s[0]);
            }
        }
        lemma_no_nl_concat(seq![s[0]], rest[0]);
        assert forall|i: int| 0 <= i < r.len() implies !(#[trigger] r[i]).contains('\n') by {
            if i > 0 {
                assert(r[i] == rest[i]);
            }
        }
        lemma_flatten_cons(first, rest.drop_first());
        if rest.len() == 1 {
            assert(flatten(rest) == rest[0]);
            assert(r =~~= seq![first]);
            assert(flatten(r) == first);
            assert(first =~= s);
        } else {
            assert(flatten(rest) == rest[0] + seq!['\n'] + flatten(rest.drop_first()));
            assert(r == seq![first] + rest.drop_first());
            assert(flatten(r) == first + seq!['\n'] + flatten(rest.drop_first()));
            assert(flatten(r) =~= seq![s[0]] + flatten(rest));
            assert(seq![s[0]] + s.drop_first() =~= s);
        }
    }
}

/// Two well-formed documents with one flat content are one document.
pub proof fn lemma_flatten_injective(a: Seq<Seq<char>>, b: Seq<Seq<char>>)
    requires
        wf_lines(a),
        wf_lines(b),
        flatten(a) == flatten(b),
    ensures
        a == b,
{
    lemma_split_flatten(a);
    lemma_split_flatten(b);
}

/// Deleting as many characters as were just inserted at the same position
/// undoes the insertion exactly, and removes exactly the inserted text.
pub proof fn lemma_insert_then_delete(doc: Seq<Seq<char>>, line: int, col: int, t: Seq<char>)
    requires
        wf_lines(doc),
        valid_pos(doc, line, col),
    ensures
        ({
            let d2 = ins_text(doc, line, col, t);
            &&& valid_pos(d2, line, col)
            &&& offset_of(d2, line, col) + t.len() <= flatten(d2).len()
            &&& del_text(d2, line, col, t.len()) == doc
            &&& del_removed(d2, line, col, t.len()) == t
        }),
{
    let d2 = ins_text(doc, line, col, t);
    let off = offset_of(doc, line, col);
    let s = flatten(doc);
    lemma_ins_text(doc, line, col, t);
    lemma_offset_bounds(doc, line, col);
    lemma_del_text(d2, line, col, t.len());
    assert(splice_del(flatten(d2), off, t.len() as int) =~= s);
    assert(flatten(d2).subrange(off, off + t.len()) =~= t);
    lemma_flatten_injective(del_text(d2, line, col, t.len()), doc);
}

/// Re-inserting at the same position the text a deletion removed undoes the
/// deletion exactly.
pub proof fn lemma_delete_then_insert(doc: Seq<Seq<char>>, line: int, col: int, n: nat)
    requires
        wf_lines(doc),
        valid_pos(doc, line, col),
        offset_of(doc, line, col) + n <= flatten(doc).len(),
    ensures
        ({
            let d2 = del_text(doc, line, col, n);
            &&& valid_pos(d2, line, col)
            &&& ins_text(d2, line, col, del_removed(doc, line, col, n)) == doc
        }),
{
    let d2 = del_text(doc, line, col, n);
    let off = offset_of(doc, line, col);
    let s = flatten(doc);
    let r = del_removed(doc, line, col, n);
    lemma_offset_bounds(doc, line, col);
    lemma_del_text(doc, line, col, n);
    lemma_ins_text(d2, line, col, r);
    let sd = flatten(d2);
    assert(sd.take(off) =~= s.take(off));
    assert(sd.skip(off) =~= s.skip(off + n));
    assert(splice_ins(sd, off, r) =~= s);
    lemma_flatten_injective(ins_text(d2, line, col, r), doc);
}

} // verus!
