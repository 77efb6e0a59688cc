//! Attack detection: which squares a side's pieces bear on.

use vstd::prelude::*;
use crate::board::Board;
use crate::piece::Piece;
use crate::square::{Sq, lemma_on_board, on_board};

verus! {

pub const KNIGHT_DELTAS: [i32; 8] = [33, 31, 18, 14, -33, -31, -18, -14];

pub const KING_DELTAS: [i32; 8] = [16, 1, -16, -1, 17, 15, -15, -17];

pub const ROOK_DELTAS: [i32; 4] = [16, 1, -16, -1];

pub const BISHOP_DELTAS: [i32; 4] = [17, 15, -17, -15];

/// A slot index that is a real square of the board.
pub open spec fn valid_square(i: int) -> bool {
    0 <= i < 128 && i % 16 < 8
}

/// The square `k` steps of `d` away from `s`.
pub open spec fn ray_sq(s: int, d: int, k: int) -> int {
    s + k * d
}

/// The first `k - 1` squares from `s` along `d` are on the board and empty.
pub open spec fn ray_clear(cells: Seq<Piece>, s: int, d: int, k: int) -> bool {
    forall|j: int|
        1 <= j < k ==> valid_square(#[trigger] ray_sq(s, d, j)) && cells[ray_sq(s, d, j)]
            == Piece::Empty
}

/// A slider on `s` sees the `k`-th square along `d`: that square is on the
/// board and nothing stands between.
pub open spec fn ray_reaches(cells: Seq<Piece>, s: int, d: int, k: int) -> bool {
    k >= 1 && ray_clear(cells, s, d, k) && valid_square(ray_sq(s, d, k))
}

/// The `k`-th square from `s` along `d` is in sight and holds `p` or `q`.
pub open spec fn ray_hit(cells: Seq<Piece>, s: int, d: int, k: int, p: Piece, q: Piece) -> bool {
    ray_reaches(cells, s, d, k) && (cells[ray_sq(s, d, k)] == p || cells[ray_sq(s, d, k)] == q)
}

/// Along `d` from `s`, the first piece in sight is `p` or `q`.
pub open spec fn ray_sees(cells: Seq<Piece>, s: int, d: int, p: Piece, q: Piece) -> bool {
    exists|k: int| #[trigger] ray_hit(cells, s, d, k, p, q)
}

/// The square at offset `deltas[i]` from `s` is on the board and holds `p`.
pub open spec fn step_hit(cells: Seq<Piece>, s: int, deltas: Seq<i32>, i: int, p: Piece) -> bool {
    valid_square(s + deltas[i]) && cells[s + deltas[i]] == p
}

/// Some square one step of `deltas` from `s` holds `p`.
pub open spec fn step_sees(cells: Seq<Piece>, s: int, deltas: Seq<i32>, p: Piece) -> bool {
    exists|i: int| 0 <= i < deltas.len() && #[trigger] step_hit(cells, s, deltas, i, p)
}

/// Along some direction of `deltas`, the first piece in sight from `s` is
/// `p` or `q`.
pub open spec fn rays_see(cells: Seq<Piece>, s: int, deltas: Seq<i32>, p: Piece, q: Piece) -> bool {
    exists|i: int| 0 <= i < deltas.len() && #[trigger] ray_sees(cells, s, deltas[i] as int, p, q)
}

/// A pawn of the attacking side stands diagonally behind `s`, seen from
/// that side.
pub open spec fn pawn_attacks(cells: Seq<Piece>, s: int, by_white: bool) -> bool {
    if by_white {
        (valid_square(s - 17) && cells[s - 17] == Piece::WP) || (valid_square(s - 15) && cells[s
            - 15] == Piece::WP)
    } else {
        (valid_square(s + 17) && cells[s + 17] == Piece::BP) || (valid_square(s + 15) && cells[s
            + 15] == Piece::BP)
    }
}

/// A piece of the given side attacks square `s`.
pub open spec fn attacked(cells: Seq<Piece>, s: int, by_white: bool) -> bool {
    let knight = if by_white { Piece::WN } else { Piece::BN };
    let bishop = if by_white { Piece::WB } else { Piece::BB };
    let rook = if by_white { Piece::WR } else { Piece::BR };
    let queen = if by_white { Piece::WQ } else { Piece::BQ };
    let king = if by_white { Piece::WK } else { Piece::BK };
    ||| pawn_attacks(cells, s, by_white)
    ||| step_sees(cells, s, KNIGHT_DELTAS@, knight)
    ||| rays_see(cells, s, ROOK_DELTAS@, rook, queen)
    ||| rays_see(cells, s, BISHOP_DELTAS@, bishop, queen)
    ||| step_sees(cells, s, KING_DELTAS@, king)
}

/// The king of a side.
pub open spec fn king_of(white: bool) -> Piece {
    if white {
        Piece::WK
    } else {
        Piece::BK
    }
}

/// `s` is the first square, rank by rank from white's side, that holds the
/// king of the given side.
pub open spec fn is_king_square(cells: Seq<Piece>, white: bool, s: int) -> bool {
    &&& valid_square(s)
    &&& cells[s] == king_of(white)
    &&& forall|t: int| 0 <= t < s && valid_square(t) ==> cells[t] != king_of(white)
}

/// No square holds the king of the given side.
pub open spec fn no_king(cells: Seq<Piece>, white: bool) -> bool {
    forall|t: int| valid_square(t) ==> cells[t] != king_of(white)
}

/// The king of the given side is attacked, or that side has no king.
pub open spec fn king_attacked(cells: Seq<Piece>, white: bool) -> bool {
    no_king(cells, white) || exists|s: int|
        #[trigger] is_king_square(cells, white, s) && attacked(cells, s, !white)
}

/// The square at offset `d` from `s`, if it is on the board.
pub fn offset_square(s: Sq, d: i32) -> (r: Option<Sq>)
    requires
        s < 128,
        -40 <= d <= 40,
    ensures
        r == (if valid_square(s + d) {
            Some((s + d) as usize)
        } else {
            None::<Sq>
        }),
{
    let a: i32 = s as i32 + d;
    if a >= 0 {
        let u: usize = a as usize;
        proof {
            lemma_on_board(u);
        }
        if on_board(u) {
            return Some(u);
        }
    }
    None
}

/// Whether the square at offset `d` from `s` is on the board and holds `p`.
fn holds_at(board: &Board, s: Sq, d: i32, p: Piece) -> (b: bool)
    requires
        s < 128,
        -40 <= d <= 40,
    ensures
        b == (valid_square(s + d) && board@.cells[s + d] == p),
{
    match offset_square(s, d) {
        Some(a) => board.piece_at(a) == p,
        None => false,
    }
}

/// Whether one of eight steps from `s` leads to a piece `p`.
fn steps_see(board: &Board, s: Sq, deltas: &[i32; 8], p: Piece) -> (b: bool)
    requires
        s < 128,
        forall|i: int| 0 <= i < 8 ==> -40 <= #[trigger] deltas@[i] <= 40,
    ensures
        b == step_sees(board@.cells, s as int, deltas@, p),
{
    let mut i: usize = 0;
    while i < 8
        invariant
            i <= 8,
            s < 128,
            forall|i: int| 0 <= i < 8 ==> -40 <= #[trigger] deltas@[i] <= 40,
            forall|j: int| 0 <= j < i ==> !#[trigger] step_hit(board@.cells, s as int, deltas@, j, p),
        decreases 8 - i,
    {
        if holds_at(board, s, deltas[i], p) {
            assert(step_hit(board@.cells, s as int, deltas@, i as int, p));
            return true;
        }
        i += 1;
    }
    false
}

/// Whether the first piece in sight from `s` along `d` is `p` or `q`.
fn ray_finds(board: &Board, s: Sq, d: i32, p: Piece, q: Piece) -> (b: bool)
    requires
        s < 128,
        1 <= d <= 17 || -17 <= d <= -1,
        p != Piece::Empty,
        q != Piece::Empty,
    ensures
        b == ray_sees(board@.cells, s as int, d as int, p, q),
{
    let ghost cells = board@.cells;
    let ghost mut k: int = 1;
    let mut cur: Sq = s;
    proof {
        board.lemma_cells_len();
        assert(ray_sq(s as int, d as int, 0) == s);
    }
    loop
        invariant
            s < 128,
            cur < 128,
            1 <= d <= 17 || -17 <= d <= -1,
            1 <= k,
            p != Piece::Empty,
            q != Piece::Empty,
            cells == board@.cells,
            cells.len() == 128,
            cur == ray_sq(s as int, d as int, k - 1),
            ray_clear(cells, s as int, d as int, k),
        decreases
            (if d > 0 {
                128 - cur
            } else {
                cur as int
            }),
    {
        assert(ray_sq(s as int, d as int, k) == cur + d) by (nonlinear_arith)
            requires
                cur == ray_sq(s as int, d as int, k - 1),
        ;
        match offset_square(cur, d) {
            None => {
                proof {
                    lemma_ray_stops(cells, s as int, d as int, k, p, q);
                }
                return false;
            },
            Some(a) => {
                let x = board.piece_at(a);
                if !x.is_empty() {
                    let found = x == p || x == q;
                    proof {
                        if found {
                            assert(ray_hit(cells, s as int, d as int, k, p, q));
                        } else {
                            lemma_ray_stops(cells, s as int, d as int, k, p, q);
                        }
                    }
                    return found;
                }
                proof {
                    assert forall|j: int| 1 <= j < k + 1 implies valid_square(
                        #[trigger] ray_sq(s as int, d as int, j),
                    ) && cells[ray_sq(s as int, d as int, j)] == Piece::Empty by {
                        if j == k {
                        }
                    }
                }
                cur = a;
                proof {
                    k = k + 1;
                }
            },
        }
    }
}

/// Whether along one of four directions the first piece in sight from `s`
/// is `p` or `q`.
fn rays_find(board: &Board, s: Sq, deltas: &[i32; 4], p: Piece, q: Piece) -> (b: bool)
    requires
        s < 128,
        p != Piece::Empty,
        q != Piece::Empty,
        forall|i: int|
            0 <= i < 4 ==> 1 <= #[trigger] deltas@[i] <= 17 || -17 <= deltas@[i] <= -1,
    ensures
        b == rays_see(board@.cells, s as int, deltas@, p, q),
{
    let mut i: usize = 0;
    while i < 4
        invariant
            i <= 4,
            s < 128,
            p != Piece::Empty,
            q != Piece::Empty,
            forall|i: int|
                0 <= i < 4 ==> 1 <= #[trigger] deltas@[i] <= 17 || -17 <= deltas@[i] <= -1,
            forall|j: int|
                0 <= j < i ==> !#[trigger] ray_sees(board@.cells, s as int, deltas@[j] as int, p, q),
        decreases 4 - i,
    {
        if ray_finds(board, s, deltas[i], p, q) {
            return true;
        }
        i += 1;
    }
    false
}

/// The values of the four tables of steps.
pub proof fn lemma_deltas()
    ensures
        KNIGHT_DELTAS@.len() == 8,
        KNIGHT_DELTAS@[0] == 33 && KNIGHT_DELTAS@[1] == 31 && KNIGHT_DELTAS@[2] == 18
            && KNIGHT_DELTAS@[3] == 14,
        KNIGHT_DELTAS@[4] == -33 && KNIGHT_DELTAS@[5] == -31 && KNIGHT_DELTAS@[6] == -18
            && KNIGHT_DELTAS@[7] == -14,
        KING_DELTAS@.len() == 8,
        KING_DELTAS@[0] == 16 && KING_DELTAS@[1] == 1 && KING_DELTAS@[2] == -16 && KING_DELTAS@[3]
            == -1,
        KING_DELTAS@[4] == 17 && KING_DELTAS@[5] == 15 && KING_DELTAS@[6] == -15
            && KING_DELTAS@[7] == -17,
        ROOK_DELTAS@.len() == 4,
        ROOK_DELTAS@[0] == 16 && ROOK_DELTAS@[1] == 1 && ROOK_DELTAS@[2] == -16 && ROOK_DELTAS@[3]
            == -1,
        BISHOP_DELTAS@.len() == 4,
        BISHOP_DELTAS@[0] == 17 && BISHOP_DELTAS@[1] == 15 && BISHOP_DELTAS@[2] == -17
            && BISHOP_DELTAS@[3] == -15,
{
}

/// Whether a piece of the given side attacks square `s`: a pawn from one of
/// the two squares diagonally behind, a knight a jump away, a rook, bishop
/// or queen along a clear line, or a king next to it.
pub fn is_square_attacked(board: &Board, s: Sq, by_white: bool) -> (b: bool)
    requires
        s < 128,
    ensures
        b == attacked(board@.cells, s as int, by_white),
{
    proof {
        lemma_deltas();
    }
    if by_white {
        if holds_at(board, s, -17, Piece::WP) || holds_at(board, s, -15, Piece::WP) {
            return true;
        }
    } else {
        if holds_at(board, s, 17, Piece::BP) || holds_at(board, s, 15, Piece::BP) {
            return true;
        }
    }
    let knight = if by_white { Piece::WN } else { Piece::BN };
    let bishop = if by_white { Piece::WB } else { Piece::BB };
    let rook = if by_white { Piece::WR } else { Piece::BR };
    let queen = if by_white { Piece::WQ } else { Piece::BQ };
    let king = if by_white { Piece::WK } else { Piece::BK };
    if steps_see(board, s, &KNIGHT_DELTAS, knight) {
        return true;
    }
    if rays_find(board, s, &ROOK_DELTAS, rook, queen) {
        return true;
    }
    if rays_find(board, s, &BISHOP_DELTAS, bishop, queen) {
        return true;
    }
    steps_see(board, s, &KING_DELTAS, king)
}

/// The first square, rank by rank from white's side, that holds the king of
/// the given side.
pub fn find_king(board: &Board, white: bool) -> (r: Option<Sq>)
    ensures
        match r {
            Some(s) => is_king_square(board@.cells, white, s as int),
            None => no_king(board@.cells, white),
        },
{
    let king = if white { Piece::WK } else { Piece::BK };
    let mut s: usize = 0;
    while s < 128
        invariant
            s <= 128,
            king == king_of(white),
            forall|t: int| 0 <= t < s && valid_square(t) ==> board@.cells[t] != king,
        decreases 128 - s,
    {
        proof {
            lemma_on_board(s);
        }
        if on_board(s) && board.piece_at(s) == king {
            return Some(s);
        }
        s += 1;
    }
    None
}

/// Whether the king of the given side is attacked; a side without a king
/// counts as attacked.
pub fn is_king_attacked(board: &Board, white_king: bool) -> (b: bool)
    ensures
        b == king_attacked(board@.cells, white_king),
{
    match find_king(board, white_king) {
        Some(kpos) => {
            let b = is_square_attacked(board, kpos, !white_king);
            proof {
                let cells = board@.cells;
                if b {
                    assert(is_king_square(cells, white_king, kpos as int));
                } else {
                    assert forall|s: int| #[trigger]
                        is_king_square(cells, white_king, s) implies !attacked(
                        cells,
                        s,
                        !white_king,
                    ) by {
                        if s < kpos {
                        } else if s > kpos {
                        }
                    }
                }
            }
            b
        },
        None => true,
    }
}

/// A ray that is clear for `k - 1` squares and then leaves the board, or
/// meets a piece that is neither `p` nor `q`, sees neither.
pub proof fn lemma_ray_stops(cells: Seq<Piece>, s: int, d: int, k: int, p: Piece, q: Piece)
    requires
        k >= 1,
        ray_clear(cells, s, d, k),
        !valid_square(ray_sq(s, d, k)) || (cells[ray_sq(s, d, k)] != Piece::Empty && cells[ray_sq(
            s,
            d,
            k,
        )] != p && cells[ray_sq(s, d, k)] != q),
        p != Piece::Empty,
        q != Piece::Empty,
    ensures
        !ray_sees(cells, s, d, p, q),
{
    assert forall|j: int| !#[trigger] ray_hit(cells, s, d, j, p, q) by {
        if ray_hit(cells, s, d, j, p, q) {
            if j < k {
                assert(cells[ray_sq(s, d, j)] == Piece::Empty);
            } else if j > k {
                assert(valid_square(ray_sq(s, d, k)) && cells[ray_sq(s, d, k)] == Piece::Empty);
            }
        }
    }
}

} // verus!
