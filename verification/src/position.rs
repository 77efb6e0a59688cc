//! Legal positions: what holds of every position of a game, and that legal
//! moves keep it.

use vstd::prelude::*;
use crate::attack::{
    BISHOP_DELTAS,
    KING_DELTAS,
    KNIGHT_DELTAS,
    ROOK_DELTAS,
    attacked,
    is_king_attacked,
    is_king_square,
    king_attacked,
    king_of,
    lemma_deltas,
    pawn_attacks,
    ray_hit,
    ray_reaches,
    ray_sees,
    ray_sq,
    rays_see,
    step_hit,
    step_sees,
    valid_square,
};
use crate::board::{Board, BoardState, castle_rook, ep_capture_square};
use crate::eval::{count_piece, lemma_count_bounds, lemma_count_update};
use crate::laws::{
    lemma_make_keeps_consistent,
    lemma_pseudo_legal_facts,
    lemma_pseudo_legal_reversible,
    lemma_rights_left,
    make,
};
use crate::movegen::{
    Move,
    leaper_move,
    legal_move,
    pawn_capture,
    pawn_move,
    piece_move_below,
    pseudo_legal,
    ray_move,
    ray_step,
    slider_move,
    step_target,
};
use crate::piece::Piece;
use crate::square::{lemma_on_board, on_board};

verus! {

/// A position of a game: each side has one king, the side that is not to
/// move is not in check, the slots off the board are empty, and the en
/// passant target and the castling rights agree with the cells.
pub open spec fn legal_position(st: BoardState) -> bool {
    &&& st.consistent()
    &&& st.castling < 16
    &&& count_piece(st.cells, Piece::WK, 128) == 1
    &&& count_piece(st.cells, Piece::BK, 128) == 1
    &&& !king_attacked(st.cells, !st.side_white)
    &&& forall|i: int| 0 <= i < 128 && !valid_square(i) ==> #[trigger] st.cells[i] == Piece::Empty
}

/// A square that holds the piece `p` counts.
proof fn lemma_count_has(cells: Seq<Piece>, p: Piece, a: int, n: int)
    requires
        0 <= a < n <= 128,
        valid_square(a),
        cells[a] == p,
    ensures
        count_piece(cells, p, n) >= 1,
    decreases n,
{
    lemma_count_bounds(cells, p, n - 1);
    if a < n - 1 {
        lemma_count_has(cells, p, a, n - 1);
    }
}

/// Two squares that hold the piece `p` count twice.
proof fn lemma_count_has_two(cells: Seq<Piece>, p: Piece, a: int, b: int, n: int)
    requires
        0 <= a < b < n <= 128,
        valid_square(a),
        valid_square(b),
        cells[a] == p,
        cells[b] == p,
    ensures
        count_piece(cells, p, n) >= 2,
    decreases n,
{
    if b < n - 1 {
        lemma_count_has_two(cells, p, a, b, n - 1);
    } else {
        lemma_count_has(cells, p, a, n - 1);
    }
}

/// Where there is one king, a square that holds it is the king's square.
pub proof fn lemma_one_king(cells: Seq<Piece>, white: bool, t: int)
    requires
        count_piece(cells, king_of(white), 128) == 1,
        valid_square(t),
        cells[t] == king_of(white),
    ensures
        is_king_square(cells, white, t),
{
    assert forall|u: int| 0 <= u < t && valid_square(u) implies cells[u] != king_of(white) by {
        if cells[u] == king_of(white) {
            lemma_count_has_two(cells, king_of(white), u, t, 128);
        }
    }
}

/// A slider that can go from `s` to `t` along `d` is seen from `t` along
/// the opposite direction.
proof fn lemma_ray_back(cells: Seq<Piece>, s: int, d: int, k: int, p: Piece, q: Piece)
    requires
        valid_square(s),
        ray_reaches(cells, s, d, k),
        cells[s] == p || cells[s] == q,
    ensures
        ray_sees(cells, ray_sq(s, d, k), -d, p, q),
{
    let t = ray_sq(s, d, k);
    assert forall|j: int| 1 <= j < k implies valid_square(#[trigger] ray_sq(t, -d, j)) && cells[ray_sq(
        t,
        -d,
        j,
    )] == Piece::Empty by {
        assert(ray_sq(t, -d, j) == ray_sq(s, d, k - j)) by (nonlinear_arith)
            requires
                t == s + k * d,
        ;
        assert(valid_square(ray_sq(s, d, k - j)) && cells[ray_sq(s, d, k - j)] == Piece::Empty);
    }
    assert(ray_sq(t, -d, k) == s) by (nonlinear_arith)
        requires
            t == s + k * d,
    ;
    assert(ray_hit(cells, t, -d, k, p, q));
}

/// A slider's move along one of four directions is an attack on the
/// square that it reaches.
proof fn lemma_slider_attacks(
    cells: Seq<Piece>,
    white: bool,
    s: int,
    deltas: Seq<i32>,
    m: Move,
    p: Piece,
    q: Piece,
)
    requires
        valid_square(s),
        slider_move(cells, white, s, deltas, m),
        cells[s] == p || cells[s] == q,
        deltas.len() == 4,
        deltas[2] == -deltas[0],
        deltas[3] == -deltas[1],
    ensures
        rays_see(cells, m.to as int, deltas, p, q),
{
    let i = choose|i: int| 0 <= i < 4 && #[trigger] ray_move(cells, white, s, deltas[i] as int, m);
    let d = deltas[i] as int;
    let k = choose|k: int| #[trigger] ray_step(cells, white, s, d, k, m.to as int);
    lemma_ray_back(cells, s, d, k, p, q);
    let back = if i == 0 { 2int } else if i == 1 { 3int } else if i == 2 { 0int } else { 1int };
    assert(deltas[back] as int == -d);
    assert(ray_sees(cells, m.to as int, deltas[back] as int, p, q));
}

/// A knight's or king's move is an attack on the square that it reaches.
proof fn lemma_leaper_attacks(
    cells: Seq<Piece>,
    white: bool,
    s: int,
    deltas: Seq<i32>,
    back: Seq<int>,
    m: Move,
    p: Piece,
)
    requires
        valid_square(s),
        leaper_move(cells, white, s, deltas, m),
        cells[s] == p,
        deltas.len() == 8,
        back.len() == 8,
        forall|i: int|
            0 <= i < 8 ==> 0 <= #[trigger] back[i] < 8 && deltas[back[i]] == -deltas[i],
    ensures
        step_sees(cells, m.to as int, deltas, p),
{
    let i = choose|i: int|
        0 <= i < 8 && #[trigger] step_target(cells, white, s, deltas, i, m.to as int);
    let j = back[i];
    assert(step_hit(cells, m.to as int, deltas, j, p));
}

/// On a consistent board, a move that the rules of movement allow and
/// that lands on a piece attacks the square of that piece.
pub proof fn lemma_capture_is_attack(st: BoardState, m: Move)
    requires
        st.consistent(),
        pseudo_legal(st, m),
        st.cells[m.to as int] != Piece::Empty,
    ensures
        attacked(st.cells, m.to as int, st.side_white),
{
    lemma_deltas();
    lemma_pseudo_legal_facts(st, m);
    let cells = st.cells;
    let w = st.side_white;
    let s = m.from as int;
    let t = m.to as int;
    if piece_move_below(st, 128, m) {
        let p = cells[s];
        if p == Piece::WP || p == Piece::BP {
            assert(pawn_move(cells, st.ep, w, s, m));
            assert(pawn_capture(cells, w, s, 1, t) || pawn_capture(cells, w, s, -1, t));
            assert(pawn_attacks(cells, t, w));
        } else if p == Piece::WN || p == Piece::BN {
            lemma_leaper_attacks(
                cells,
                w,
                s,
                KNIGHT_DELTAS@,
                seq![4int, 5, 6, 7, 0, 1, 2, 3],
                m,
                p,
            );
        } else if p == Piece::WK || p == Piece::BK {
            lemma_leaper_attacks(
                cells,
                w,
                s,
                KING_DELTAS@,
                seq![2int, 3, 0, 1, 7, 6, 5, 4],
                m,
                p,
            );
        } else {
            let rook = if w { Piece::WR } else { Piece::BR };
            let bishop = if w { Piece::WB } else { Piece::BB };
            let queen = if w { Piece::WQ } else { Piece::BQ };
            if slider_move(cells, w, s, ROOK_DELTAS@, m) && (p == rook || p == queen) {
                lemma_slider_attacks(cells, w, s, ROOK_DELTAS@, m, rook, queen);
            } else {
                assert(slider_move(cells, w, s, BISHOP_DELTAS@, m));
                lemma_slider_attacks(cells, w, s, BISHOP_DELTAS@, m, bishop, queen);
            }
        }
    }
}

/// A legal move from a legal position captures no king.
pub proof fn lemma_no_king_capture(st: BoardState, m: Move)
    requires
        legal_position(st),
        pseudo_legal(st, m),
    ensures
        st.cells[m.to as int] != Piece::WK,
        st.cells[m.to as int] != Piece::BK,
{
    lemma_pseudo_legal_facts(st, m);
    let t = m.to as int;
    let enemy = king_of(!st.side_white);
    if st.cells[t] == enemy {
        lemma_capture_is_attack(st, m);
        lemma_one_king(st.cells, !st.side_white, t);
        assert(is_king_square(st.cells, !st.side_white, t) && attacked(
            st.cells,
            t,
            !(!st.side_white),
        ));
    }
}

/// A legal move leads from a legal position to a legal position.
pub proof fn law_legal_moves_keep_positions_legal(st: BoardState, m: Move)
    requires
        legal_position(st),
        legal_move(st, m),
    ensures
        legal_position(make(st, m)),
{
    lemma_pseudo_legal_facts(st, m);
    lemma_pseudo_legal_reversible(st, m);
    lemma_make_keeps_consistent(st, m);
    lemma_no_king_capture(st, m);
    lemma_rights_left(st.castling, st.cells[m.from as int], m.from, m.to);
    let cells = st.cells;
    let from = m.from;
    let to = m.to;
    let moved = cells[from as int];
    let placed = match m.promotion {
        Some(p) => p,
        None => moved,
    };
    let c1 = match ep_capture_square(moved, st.ep, from, to) {
        Some(c) => cells.update(c as int, Piece::Empty),
        None => cells,
    };
    let c1b = c1.update(from as int, Piece::Empty);
    let c2 = c1b.update(to as int, placed);
    let c3 = match castle_rook(moved, from, to) {
        Some((rf, rt, r)) => c2.update(rf as int, Piece::Empty).update(rt as int, r),
        None => c2,
    };
    assert(make(st, m).cells == c3);
    match ep_capture_square(moved, st.ep, from, to) {
        Some(c) => {
            lemma_count_update(cells, c as int, Piece::Empty, Piece::WK, 128);
            lemma_count_update(cells, c as int, Piece::Empty, Piece::BK, 128);
        },
        None => {},
    }
    lemma_count_update(c1, from as int, Piece::Empty, Piece::WK, 128);
    lemma_count_update(c1, from as int, Piece::Empty, Piece::BK, 128);
    lemma_count_update(c1b, to as int, placed, Piece::WK, 128);
    lemma_count_update(c1b, to as int, placed, Piece::BK, 128);
    match castle_rook(moved, from, to) {
        Some((rf, rt, r)) => {
            let c2b = c2.update(rf as int, Piece::Empty);
            lemma_count_update(c2, rf as int, Piece::Empty, Piece::WK, 128);
            lemma_count_update(c2, rf as int, Piece::Empty, Piece::BK, 128);
            lemma_count_update(c2b, rt as int, r, Piece::WK, 128);
            lemma_count_update(c2b, rt as int, r, Piece::BK, 128);
        },
        None => {},
    }
    assert(count_piece(c3, Piece::WK, 128) == 1);
    assert(count_piece(c3, Piece::BK, 128) == 1);
    assert forall|i: int| 0 <= i < 128 && !valid_square(i) implies #[trigger] c3[i]
        == Piece::Empty by {
        assert(cells[i] == Piece::Empty);
    }
}

/// Whether the position is a position of a game.
pub fn is_legal_position(board: &Board) -> (b: bool)
    ensures
        b == legal_position(board@),
{
    let ghost cells = board@.cells;
    if !board.is_consistent() || board.castling_rights() >= 16 {
        return false;
    }
    let mut white: usize = 0;
    let mut black: usize = 0;
    let mut s: usize = 0;
    while s < 128
        invariant
            s <= 128,
            cells == board@.cells,
            white == count_piece(cells, Piece::WK, s as int),
            black == count_piece(cells, Piece::BK, s as int),
            white <= s,
            black <= s,
            forall|i: int| 0 <= i < s && !valid_square(i) ==> #[trigger] cells[i] == Piece::Empty,
        decreases 128 - s,
    {
        proof {
            lemma_on_board(s);
        }
        let p = board.piece_at(s);
        if on_board(s) {
            if p == Piece::WK {
                white += 1;
            } else if p == Piece::BK {
                black += 1;
            }
        } else if p != Piece::Empty {
            return false;
        }
        s += 1;
    }
    white == 1 && black == 1 && !is_king_attacked(board, !board.white_to_move())
}

} // verus!
