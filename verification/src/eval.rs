//! Static evaluation: the balance of material, seen from the side to move.

use vstd::prelude::*;
use crate::attack::valid_square;
use crate::board::{Board, BoardState};
use crate::piece::Piece;
use crate::square::{lemma_on_board, on_board};
use crate::zobrist::squares_before;

verus! {

/// The value of a piece in hundredths of a pawn, positive for white and
/// negative for black.
pub open spec fn piece_value(p: Piece) -> int {
    match p {
        Piece::WP => 100,
        Piece::WN => 320,
        Piece::WB => 330,
        Piece::WR => 500,
        Piece::WQ => 900,
        Piece::WK => 20000,
        Piece::BP => -100,
        Piece::BN => -320,
        Piece::BB => -330,
        Piece::BR => -500,
        Piece::BQ => -900,
        Piece::BK => -20000,
        Piece::Empty => 0,
    }
}

/// The sum of the values of the pieces on the real squares below `n`.
pub open spec fn material(cells: Seq<Piece>, n: int) -> int
    decreases n,
{
    if n <= 0 {
        0
    } else if valid_square(n - 1) {
        material(cells, n - 1) + piece_value(cells[n - 1])
    } else {
        material(cells, n - 1)
    }
}

/// The score of a position: the material balance, seen from the side to
/// move.
pub open spec fn eval_of(st: BoardState) -> int {
    if st.side_white {
        material(st.cells, 128)
    } else {
        -material(st.cells, 128)
    }
}

/// The number of real squares below `n` that hold the piece `p`.
pub open spec fn count_piece(cells: Seq<Piece>, p: Piece, n: int) -> int
    decreases n,
{
    if n <= 0 {
        0
    } else if valid_square(n - 1) && cells[n - 1] == p {
        count_piece(cells, p, n - 1) + 1
    } else {
        count_piece(cells, p, n - 1)
    }
}

/// The number of real squares below `n` that hold a piece.
pub open spec fn piece_count(cells: Seq<Piece>, n: int) -> int
    decreases n,
{
    if n <= 0 {
        0
    } else if valid_square(n - 1) && cells[n - 1] != Piece::Empty {
        piece_count(cells, n - 1) + 1
    } else {
        piece_count(cells, n - 1)
    }
}

/// Neither side has more than one king.
pub open spec fn kings_ok(cells: Seq<Piece>) -> bool {
    count_piece(cells, Piece::WK, 128) <= 1 && count_piece(cells, Piece::BK, 128) <= 1
}

/// The greatest score of a position in which neither side has more than
/// one king: a king and 63 queens against a bare board.
pub open spec fn eval_bound() -> int {
    76700
}

pub proof fn lemma_count_bounds(cells: Seq<Piece>, p: Piece, n: int)
    requires
        0 <= n <= 128,
    ensures
        0 <= count_piece(cells, p, n) <= squares_before(n),
        0 <= piece_count(cells, n) <= squares_before(n),
    decreases n,
{
    if n > 0 {
        lemma_count_bounds(cells, p, n - 1);
    }
}

/// Replacing one cell changes the number of pieces `p` by what left and
/// what came.
pub proof fn lemma_count_update(cells: Seq<Piece>, i: int, q: Piece, p: Piece, n: int)
    requires
        0 <= i < cells.len(),
        0 <= n <= cells.len(),
    ensures
        count_piece(cells.update(i, q), p, n) == count_piece(cells, p, n) + (if i < n
            && valid_square(i) {
            (if q == p { 1int } else { 0int }) - (if cells[i] == p { 1int } else { 0int })
        } else {
            0int
        }),
        piece_count(cells.update(i, q), n) == piece_count(cells, n) + (if i < n && valid_square(i) {
            (if q != Piece::Empty { 1int } else { 0int }) - (if cells[i] != Piece::Empty {
                1int
            } else {
                0int
            })
        } else {
            0int
        }),
    decreases n,
{
    if n > 0 {
        lemma_count_update(cells, i, q, p, n - 1);
    }
}

/// The material balance lies between what the two sides could have at
/// most: 900 a square, and 19100 more for each king.
pub proof fn lemma_material_bound(cells: Seq<Piece>, n: int)
    requires
        0 <= n <= 128,
    ensures
        material(cells, n) <= 900 * squares_before(n) + 19100 * count_piece(cells, Piece::WK, n),
        material(cells, n) >= -900 * squares_before(n) - 19100 * count_piece(cells, Piece::BK, n),
    decreases n,
{
    if n > 0 {
        lemma_material_bound(cells, n - 1);
        lemma_count_bounds(cells, Piece::WK, n - 1);
        lemma_count_bounds(cells, Piece::BK, n - 1);
    }
}

/// The score of any position is at most 1280000 either way, and at most
/// [`eval_bound`] where neither side has more than one king.
pub proof fn lemma_eval_bound(st: BoardState)
    ensures
        -1280000 <= eval_of(st) <= 1280000,
        kings_ok(st.cells) ==> -eval_bound() <= eval_of(st) <= eval_bound(),
{
    lemma_material_bound(st.cells, 128);
    lemma_count_bounds(st.cells, Piece::WK, 128);
    lemma_count_bounds(st.cells, Piece::BK, 128);
}

/// The value of a piece.
fn value_of(p: Piece) -> (v: i32)
    ensures
        v == piece_value(p),
{
    match p {
        Piece::WP => 100,
        Piece::WN => 320,
        Piece::WB => 330,
        Piece::WR => 500,
        Piece::WQ => 900,
        Piece::WK => 20000,
        Piece::BP => -100,
        Piece::BN => -320,
        Piece::BB => -330,
        Piece::BR => -500,
        Piece::BQ => -900,
        Piece::BK => -20000,
        Piece::Empty => 0,
    }
}

/// The score of the position: pawn 100, knight 320, bishop 330, rook 500,
/// queen 900, king 20000, white minus black, negated if black is to move.
pub fn eval(board: &Board) -> (score: i32)
    ensures
        score == eval_of(board@),
        -1280000 <= score <= 1280000,
{
    let ghost cells = board@.cells;
    let mut score: i32 = 0;
    let mut s: usize = 0;
    while s < 128
        invariant
            s <= 128,
            cells == board@.cells,
            score == material(cells, s as int),
            -20000 * squares_before(s as int) <= score <= 20000 * squares_before(s as int),
        decreases 128 - s,
    {
        proof {
            lemma_on_board(s);
        }
        if on_board(s) {
            score = score + value_of(board.piece_at(s));
        }
        s += 1;
    }
    proof {
        lemma_eval_bound(board@);
    }
    if !board.white_to_move() {
        score = -score
    }
    score
}

/// Whether neither side has more than one king.
pub fn has_at_most_one_king_each(board: &Board) -> (b: bool)
    ensures
        b == kings_ok(board@.cells),
{
    let ghost cells = board@.cells;
    let mut white: usize = 0;
    let mut black: usize = 0;
    let mut s: usize = 0;
    while s < 128
        invariant
            s <= 128,
            cells == board@.cells,
            white == count_piece(cells, Piece::WK, s as int),
            black == count_piece(cells, Piece::BK, s as int),
            white <= s,
            black <= s,
        decreases 128 - s,
    {
        proof {
            lemma_on_board(s);
        }
        if on_board(s) {
            let p = board.piece_at(s);
            if p == Piece::WK {
                white += 1;
            } else if p == Piece::BK {
                black += 1;
            }
        }
        s += 1;
    }
    white <= 1 && black <= 1
}

/// The value of a piece in the balance that leaves the kings out.
pub open spec fn plain_value(p: Piece) -> int {
    if p == Piece::WK || p == Piece::BK {
        0
    } else {
        piece_value(p)
    }
}

/// The sum of the values of the pieces other than kings on the real
/// squares below `n`.
pub open spec fn plain_material(cells: Seq<Piece>, n: int) -> int
    decreases n,
{
    if n <= 0 {
        0
    } else if valid_square(n - 1) {
        plain_material(cells, n - 1) + plain_value(cells[n - 1])
    } else {
        plain_material(cells, n - 1)
    }
}

/// The balance of material without the kings, white minus black.
pub fn material_balance(board: &Board) -> (score: i32)
    ensures
        score == plain_material(board@.cells, 128),
{
    let ghost cells = board@.cells;
    let mut score: i32 = 0;
    let mut s: usize = 0;
    while s < 128
        invariant
            s <= 128,
            cells == board@.cells,
            score == plain_material(cells, s as int),
            -900 * squares_before(s as int) <= score <= 900 * squares_before(s as int),
        decreases 128 - s,
    {
        proof {
            lemma_on_board(s);
        }
        if on_board(s) {
            let p = board.piece_at(s);
            if p != Piece::WK && p != Piece::BK {
                score = score + value_of(p);
            }
        }
        s += 1;
    }
    score
}

} // verus!
