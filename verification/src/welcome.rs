//! The welcome screen's rows: every row a tilde, and one row a third of the
//! way down carrying the centered banner message, truncated to the screen
//! width. Painting them is the terminal collaborator's part.

use vstd::prelude::*;

verus! {

/// `n` spaces.
pub open spec fn spaces(n: int) -> Seq<char> {
    Seq::new(n as nat, |i: int| ' ')
}

/// A tilde, padding that centers the message, and the message itself,
/// truncated to the screen width.
pub open spec fn centered_row(width: int, message: Seq<char>) -> Seq<char> {
    let pad = if width > message.len() {
        (width - message.len()) / 2
    } else {
        0
    };
    let sp = if pad > 0 {
        pad - 1
    } else {
        0
    };
    let full = seq!['~'] + spaces(sp) + message;
    if width < full.len() {
        full.take(width)
    } else {
        full
    }
}

/// Row `row` of the welcome screen on a `width` by `height` screen.
pub open spec fn welcome_row_spec(width: int, row: int, height: int, message: Seq<char>) -> Seq<
    char,
> {
    if height > 0 && row == height / 3 {
        centered_row(width, message)
    } else {
        seq!['~']
    }
}

/// Compute one row of the welcome screen.
pub fn welcome_row(width: usize, row: usize, height: usize, message: &Vec<char>) -> (r: Vec<char>)
    ensures
        r@ == welcome_row_spec(width as int, row as int, height as int, message@),
{
    let mut out: Vec<char> = Vec::new();
    out.push('~');
    if height > 0 && row == height / 3 {
        let pad: usize = if width > message.len() {
            (width - message.len()) / 2
        } else {
            0
        };
        let sp: usize = if pad > 0 {
            pad - 1
        } else {
            0
        };
        let mut i: usize = 0;
        while i < sp
            invariant
                i <= sp,
                out@.len() == i + 1,
                out@[0] == '~',
                forall|k: int| 1 <= k < i + 1 ==> out@[k] == ' ',
            decreases sp - i,
        {
            out.push(' ');
            i = i + 1;
        }
        let mut j: usize = 0;
        while j < message.len()
            invariant
                j <= message@.len(),
                out@.len() == sp + 1 + j,
                out@ =~= seq!['~'] + spaces(sp as int) + message@.take(j as int),
            decreases message@.len() - j,
        {
            out.push(message[j]);
            proof {
                assert(out@ =~= seq!['~'] + spaces(sp as int) + message@.take(j + 1));
            }
            j = j + 1;
        }
        proof {
            assert(message@.take(message@.len() as int) =~= message@);
            assert(out@ =~= seq!['~'] + spaces(sp as int) + message@);
        }
        out.truncate(width);
        proof {
            let full = seq!['~'] + spaces(sp as int) + message@;
            if width < full.len() {
                assert(out@ =~= centered_row(width as int, message@));
            } else {
                assert(out@ =~= centered_row(width as int, message@));
            }
        }
    } else {
        proof {
            assert(out@ =~= seq!['~']);
        }
    }
    out
}

} // verus!
