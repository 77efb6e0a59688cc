//! The arithmetic of a text display: centred text, the shade of a square,
//! and the widths of the columns of a table.

use vstd::prelude::*;
use vstd::string::{StringExecFns, StringSliceAdditionalSpecFns};
use vstd::utf8::encode_utf8;
use crate::square::Sq;

verus! {

/// `n` spaces.
pub open spec fn spaces(n: nat) -> Seq<char> {
    Seq::new(n, |i: int| ' ')
}

/// A text centred in a field of `width` bytes: half of the room, rounded
/// down, goes before it and the rest after it; a text of `width` bytes or
/// more stays as it is.
pub open spec fn centered_text(text: Seq<char>, width: nat) -> Seq<char> {
    let len = encode_utf8(text).len();
    if len >= width {
        text
    } else {
        let before = ((width - len) / 2) as nat;
        spaces(before) + text + spaces((width - len - before) as nat)
    }
}

/// Appends `n` spaces.
fn push_spaces(out: &mut String, n: usize)
    ensures
        final(out)@ == old(out)@ + spaces(n as nat),
{
    let mut i: usize = 0;
    assert(out@ =~= old(out)@ + spaces(0));
    while i < n
        invariant
            i <= n,
            out@ == old(out)@ + spaces(i as nat),
        decreases n - i,
    {
        out.push(' ');
        i += 1;
        assert(out@ =~= old(out)@ + spaces(i as nat));
    }
}

/// A text centred in a field of `width` bytes.
pub fn centered(text: &str, width: usize) -> (out: String)
    ensures
        out@ == centered_text(text@, width as nat),
{
    let len = text.as_bytes().len();
    if len >= width {
        return String::from_str(text);
    }
    let before = (width - len) / 2;
    let mut out = String::new();
    push_spaces(&mut out, before);
    out.append(text);
    push_spaces(&mut out, width - len - before);
    assert(Seq::<char>::empty() + spaces(before as nat) =~= spaces(before as nat));
    out
}

/// How a square is shown.
#[derive(Clone, Copy, Debug, PartialEq, Eq, Structural)]
pub enum SquareShade {
    /// One of the squares picked out.
    Selected,
    /// A square of the last move.
    LastMove,
    Dark,
    Light,
}

/// The shade of a square: picked out if it is among `selected`; else
/// marked if the last move left or reached it; else dark if rank and file
/// add up to an even number, light if not.
pub open spec fn shade_of(
    sq: Sq,
    rank: int,
    file: int,
    selected: Seq<Sq>,
    last_move: Option<(Sq, Sq)>,
) -> SquareShade {
    if selected.contains(sq) {
        SquareShade::Selected
    } else if last_move matches Some((from, to)) && (sq == from || sq == to) {
        SquareShade::LastMove
    } else if (rank + file) % 2 == 0 {
        SquareShade::Dark
    } else {
        SquareShade::Light
    }
}

/// The shade of a square of the board.
pub fn square_shade(
    sq: Sq,
    rank: i32,
    file: i32,
    selected: &Vec<Sq>,
    last_move: Option<(Sq, Sq)>,
) -> (shade: SquareShade)
    requires
        0 <= rank < 8,
        0 <= file < 8,
    ensures
        shade == shade_of(sq, rank as int, file as int, selected@, last_move),
{
    let mut i: usize = 0;
    while i < selected.len()
        invariant
            i <= selected@.len(),
            forall|j: int| 0 <= j < i ==> selected@[j] != sq,
        decreases selected@.len() - i,
    {
        if selected[i] == sq {
            return SquareShade::Selected;
        }
        i += 1;
    }
    if let Some((from, to)) = last_move {
        if sq == from || sq == to {
            return SquareShade::LastMove;
        }
    }
    if (rank + file) % 2 == 0 {
        SquareShade::Dark
    } else {
        SquareShade::Light
    }
}

/// The greater of two lengths.
pub open spec fn longer(a: nat, b: nat) -> nat {
    if a >= b {
        a
    } else {
        b
    }
}

/// The width of column `c` after the first `n` rows: the greatest length,
/// in bytes, of the header and of the cells of the column in those rows.
pub open spec fn column_width(header: nat, rows: Seq<Seq<nat>>, c: int, n: int) -> nat
    decreases n,
{
    if n <= 0 {
        header
    } else {
        let before = column_width(header, rows, c, n - 1);
        if c < rows[n - 1].len() {
            longer(before, rows[n - 1][c])
        } else {
            before
        }
    }
}

/// The widths of the columns of a table, from the lengths of its headers
/// and of the cells of its rows: a column is as wide as its longest text;
/// cells beyond the last header count for nothing.
pub fn column_widths(headers: &Vec<usize>, rows: &Vec<Vec<usize>>) -> (widths: Vec<usize>)
    ensures
        widths@.len() == headers@.len(),
        forall|c: int|
            0 <= c < headers@.len() ==> #[trigger] widths@[c] == column_width(
                headers@[c] as nat,
                lengths(rows@),
                c,
                rows@.len() as int,
            ),
{
    let mut widths: Vec<usize> = Vec::new();
    let mut c: usize = 0;
    while c < headers.len()
        invariant
            c <= headers@.len(),
            widths@.len() == c,
            forall|k: int|
                0 <= k < c ==> #[trigger] widths@[k] == column_width(
                    headers@[k] as nat,
                    lengths(rows@),
                    k,
                    rows@.len() as int,
                ),
        decreases headers@.len() - c,
    {
        let mut w = headers[c];
        let mut r: usize = 0;
        while r < rows.len()
            invariant
                r <= rows@.len(),
                c < headers@.len(),
                w == column_width(headers@[c as int] as nat, lengths(rows@), c as int, r as int),
            decreases rows@.len() - r,
        {
            let row = &rows[r];
            assert(lengths(rows@)[r as int] == row@.map_values(|x: usize| x as nat));
            if c < row.len() {
                if row[c] > w {
                    w = row[c];
                }
            }
            r += 1;
        }
        widths.push(w);
        c += 1;
    }
    widths
}

/// The lengths of the cells of the rows, as numbers.
pub open spec fn lengths(rows: Seq<Vec<usize>>) -> Seq<Seq<nat>> {
    rows.map_values(|row: Vec<usize>| row@.map_values(|x: usize| x as nat))
}

} // verus!
