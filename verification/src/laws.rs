//! Laws of making, undoing and redoing moves.

use vstd::prelude::*;
use crate::attack::{
    BISHOP_DELTAS,
    KING_DELTAS,
    KNIGHT_DELTAS,
    ROOK_DELTAS,
    attacked,
    king_attacked,
    lemma_deltas,
    valid_square,
};
use crate::board::{
    BoardState,
    captured_by,
    castle_rook,
    castling_after,
    ep_capture_square,
    lemma_redo_undo_make,
    lemma_undo_make,
    lemma_undo_n_same_game,
    rights_lost,
};
use crate::eval::{count_piece, kings_ok, lemma_count_update, piece_count};
use crate::movegen::{
    Move,
    castles,
    leaper_move,
    legal_move,
    lemma_pseudo_legal_squares,
    piece_move_below,
    pseudo_legal,
    ray_move,
    ray_step,
    slider_move,
    step_target,
};
use crate::piece::Piece;
use crate::square::rank_of;

verus! {

/// The state after a move.
pub open spec fn make(st: BoardState, m: Move) -> BoardState {
    st.make(m.from, m.to, m.promotion)
}

/// The state after the moves of `ms`, one after the other.
pub open spec fn make_all(st: BoardState, ms: Seq<Move>) -> BoardState
    decreases ms.len(),
{
    if ms.len() == 0 {
        st
    } else {
        make(make_all(st, ms.drop_last()), ms.last())
    }
}

/// Each move of `ms` obeys the rules of movement in the state that the
/// moves before it lead to, and no counter reaches its limit.
pub open spec fn playable(st: BoardState, ms: Seq<Move>) -> bool {
    forall|i: int|
        0 <= i < ms.len() ==> {
            let at = #[trigger] make_all(st, ms.take(i));
            pseudo_legal(at, ms[i]) && at.halfmove_clock < u32::MAX && at.fullmove < u32::MAX
        }
}

/// Which rights are left when some are cleared.
proof fn lemma_rights_bits(c: u8, k: u8, a1: u8, h1: u8, a8: u8, h8: u8)
    by (bit_vector)
    requires
        k == 0 || k == 3 || k == 12,
        a1 == 0 || a1 == 2,
        h1 == 0 || h1 == 1,
        a8 == 0 || a8 == 8,
        h8 == 0 || h8 == 4,
    ensures
        (c & !(k | a1 | h1 | a8 | h8)) & 1 != 0 ==> c & 1 != 0 && k != 3 && h1 == 0,
        (c & !(k | a1 | h1 | a8 | h8)) & 2 != 0 ==> c & 2 != 0 && k != 3 && a1 == 0,
        (c & !(k | a1 | h1 | a8 | h8)) & 4 != 0 ==> c & 4 != 0 && k != 12 && h8 == 0,
        (c & !(k | a1 | h1 | a8 | h8)) & 8 != 0 ==> c & 8 != 0 && k != 12 && a8 == 0,
        (c & !(k | a1 | h1 | a8 | h8)) & !c == 0,
        (c & !(k | a1 | h1 | a8 | h8)) <= c,
{
}

/// A right that is left after a move was there before, and the move
/// neither moved that king nor touched that rook's home square.
pub proof fn lemma_rights_left(castling: u8, moved: Piece, from: usize, to: usize)
    ensures
        castling_after(castling, moved, from, to) & 1 != 0 ==> castling & 1 != 0 && moved
            != Piece::WK && from != 0x07 && to != 0x07,
        castling_after(castling, moved, from, to) & 2 != 0 ==> castling & 2 != 0 && moved
            != Piece::WK && from != 0x00 && to != 0x00,
        castling_after(castling, moved, from, to) & 4 != 0 ==> castling & 4 != 0 && moved
            != Piece::BK && from != 0x77 && to != 0x77,
        castling_after(castling, moved, from, to) & 8 != 0 ==> castling & 8 != 0 && moved
            != Piece::BK && from != 0x70 && to != 0x70,
        castling_after(castling, moved, from, to) & !castling == 0,
        castling_after(castling, moved, from, to) <= castling,
{
    let k: u8 = if moved == Piece::WK { 3 } else if moved == Piece::BK { 12 } else { 0 };
    let a1: u8 = if from == 0x00 || to == 0x00 { 2 } else { 0 };
    let h1: u8 = if from == 0x07 || to == 0x07 { 1 } else { 0 };
    let a8: u8 = if from == 0x70 || to == 0x70 { 8 } else { 0 };
    let h8: u8 = if from == 0x77 || to == 0x77 { 4 } else { 0 };
    lemma_rights_bits(castling, k, a1, h1, a8, h8);
    assert(rights_lost(moved, from, to) == k | a1 | h1 | a8 | h8);
}

/// Castling rights never come back: a move leaves no right that was not
/// there before it.
pub proof fn law_rights_only_decay(st: BoardState, m: Move)
    ensures
        make(st, m).castling & !st.castling == 0,
{
    lemma_rights_left(st.castling, st.cells[m.from as int], m.from, m.to);
}

/// The king does not step two files.
proof fn lemma_king_step_is_short(cells: Seq<Piece>, white: bool, s: int, m: Move)
    requires
        leaper_move(cells, white, s, KING_DELTAS@, m),
    ensures
        m.to != s + 2,
        m.to != s - 2,
{
    lemma_deltas();
    let i = choose|i: int| 0 <= i < 8 && #[trigger] step_target(cells, white, s, KING_DELTAS@, i, m.to as int);
}

/// On a consistent board a move that the rules of movement allow can be
/// taken back.
pub proof fn lemma_pseudo_legal_reversible(st: BoardState, m: Move)
    requires
        st.consistent(),
        pseudo_legal(st, m),
    ensures
        st.reversible(m.from, m.to),
{
    lemma_pseudo_legal_squares(st, m);
    let moved = st.cells[m.from as int];
    if piece_move_below(st, 128, m) {
        if moved == Piece::WK || moved == Piece::BK {
            lemma_king_step_is_short(st.cells, st.side_white, m.from as int, m);
        }
    }
}

/// A move that the rules of movement allow leads from a consistent board to
/// a consistent board.
pub proof fn lemma_make_keeps_consistent(st: BoardState, m: Move)
    requires
        st.consistent(),
        pseudo_legal(st, m),
    ensures
        make(st, m).consistent(),
{
    lemma_pseudo_legal_squares(st, m);
    lemma_pseudo_legal_reversible(st, m);
    let moved = st.cells[m.from as int];
    let t = make(st, m);
    lemma_rights_left(st.castling, moved, m.from, m.to);
    if piece_move_below(st, 128, m) {
        if moved == Piece::WK || moved == Piece::BK {
            lemma_king_step_is_short(st.cells, st.side_white, m.from as int, m);
        }
    }
    assert(t.rooks_at_home());
    assert(t.ep_consistent());
}

/// Taking back a move that was just made restores the position, the
/// rights, the en passant target, both counters and the undo stack.
pub proof fn law_undo_restores(st: BoardState, m: Move)
    requires
        st.consistent(),
        pseudo_legal(st, m),
        st.halfmove_clock < u32::MAX,
        st.fullmove < u32::MAX,
    ensures
        make(st, m).undo().same_game(st),
{
    lemma_pseudo_legal_reversible(st, m);
    lemma_undo_make(st, m.from, m.to, m.promotion);
}

/// After a move is taken back and played again the state is the state
/// before it was taken back, stacks included.
pub proof fn law_redo_restores(st: BoardState, m: Move)
    requires
        st.consistent(),
        pseudo_legal(st, m),
        st.halfmove_clock < u32::MAX,
        st.fullmove < u32::MAX,
    ensures
        make(st, m).undo().redo() == make(st, m),
{
    lemma_pseudo_legal_reversible(st, m);
    lemma_redo_undo_make(st, m.from, m.to, m.promotion);
}

/// A playable sequence leads from a consistent board to a consistent board.
pub proof fn lemma_make_all_consistent(st: BoardState, ms: Seq<Move>)
    requires
        st.consistent(),
        playable(st, ms),
    ensures
        make_all(st, ms).consistent(),
    decreases ms.len(),
{
    if ms.len() > 0 {
        let init = ms.drop_last();
        assert forall|i: int| 0 <= i < init.len() implies {
            let at = #[trigger] make_all(st, init.take(i));
            pseudo_legal(at, init[i]) && at.halfmove_clock < u32::MAX && at.fullmove < u32::MAX
        } by {
            assert(init.take(i) =~= ms.take(i));
            let at = make_all(st, ms.take(i));
        }
        lemma_make_all_consistent(st, init);
        assert(ms.take(ms.len() - 1) =~= init);
        let at = make_all(st, ms.take(ms.len() - 1));
        lemma_make_keeps_consistent(make_all(st, init), ms.last());
    }
}

/// After any playable sequence of moves, taking back as many moves as were
/// made restores the position, the rights, the en passant target, both
/// counters and the undo stack.
pub proof fn law_undo_all_restores(st: BoardState, ms: Seq<Move>)
    requires
        st.consistent(),
        playable(st, ms),
    ensures
        make_all(st, ms).undo_n(ms.len()).same_game(st),
    decreases ms.len(),
{
    if ms.len() > 0 {
        let init = ms.drop_last();
        assert forall|i: int| 0 <= i < init.len() implies {
            let at = #[trigger] make_all(st, init.take(i));
            pseudo_legal(at, init[i]) && at.halfmove_clock < u32::MAX && at.fullmove < u32::MAX
        } by {
            assert(init.take(i) =~= ms.take(i));
            let at = make_all(st, ms.take(i));
        }
        lemma_make_all_consistent(st, init);
        assert(ms.take(ms.len() - 1) =~= init);
        let mid = make_all(st, ms.take(ms.len() - 1));
        law_undo_restores(mid, ms.last());
        law_undo_all_restores(st, init);
        lemma_undo_n_same_game(make(mid, ms.last()).undo(), mid, init.len());
    }
}

/// What the rules of movement say of every move they allow on a
/// consistent board: it goes from a piece of the side to move to another
/// square, which holds no piece of that side, and it promotes to nothing
/// or to a queen, rook, bishop or knight of that side.
pub proof fn lemma_pseudo_legal_facts(st: BoardState, m: Move)
    requires
        st.consistent(),
        pseudo_legal(st, m),
    ensures
        valid_square(m.from as int),
        valid_square(m.to as int),
        m.from != m.to,
        st.cells[m.from as int].is_side(st.side_white),
        !st.cells[m.to as int].is_side(st.side_white),
        m.promotion matches Some(p) ==> p.is_side(st.side_white) && p != Piece::WK && p
            != Piece::BK && (st.cells[m.from as int] == Piece::WP || st.cells[m.from as int]
            == Piece::BP),
{
    lemma_deltas();
    lemma_pseudo_legal_squares(st, m);
    if piece_move_below(st, 128, m) {
        let s = m.from as int;
        let t = m.to as int;
        let w = st.side_white;
        if leaper_move(st.cells, w, s, KNIGHT_DELTAS@, m) {
            let i = choose|i: int| 0 <= i < 8 && #[trigger] step_target(st.cells, w, s, KNIGHT_DELTAS@, i, t);
        }
        if leaper_move(st.cells, w, s, KING_DELTAS@, m) {
            let i = choose|i: int| 0 <= i < 8 && #[trigger] step_target(st.cells, w, s, KING_DELTAS@, i, t);
        }
        if slider_move(st.cells, w, s, ROOK_DELTAS@, m) {
            let i = choose|i: int| 0 <= i < 4 && #[trigger] ray_move(st.cells, w, s, ROOK_DELTAS@[i] as int, m);
            let k = choose|k: int| #[trigger] ray_step(st.cells, w, s, ROOK_DELTAS@[i] as int, k, t);
        }
        if slider_move(st.cells, w, s, BISHOP_DELTAS@, m) {
            let i = choose|i: int| 0 <= i < 4 && #[trigger] ray_move(st.cells, w, s, BISHOP_DELTAS@[i] as int, m);
            let k = choose|k: int| #[trigger] ray_step(st.cells, w, s, BISHOP_DELTAS@[i] as int, k, t);
        }
    }
}

/// A move that the rules of movement allow on a consistent board makes no
/// new king, takes at least one piece off the board if it lands on one,
/// and never adds a piece.
pub proof fn lemma_make_counts(st: BoardState, m: Move)
    requires
        st.consistent(),
        pseudo_legal(st, m),
    ensures
        count_piece(make(st, m).cells, Piece::WK, 128) <= count_piece(st.cells, Piece::WK, 128),
        count_piece(make(st, m).cells, Piece::BK, 128) <= count_piece(st.cells, Piece::BK, 128),
        piece_count(make(st, m).cells, 128) <= piece_count(st.cells, 128),
        st.cells[m.to as int] != Piece::Empty ==> piece_count(make(st, m).cells, 128)
            < piece_count(st.cells, 128),
{
    lemma_pseudo_legal_facts(st, m);
    lemma_pseudo_legal_reversible(st, m);
    let cells = st.cells;
    let from = m.from;
    let to = m.to;
    let moved = cells[from as int];
    let placed = match m.promotion {
        Some(p) => p,
        None => moved,
    };
    let c1 = match ep_capture_square(moved, st.ep, from, to) {
        Some(c) => cells.update(c as int, Piece::Empty),
        None => cells,
    };
    let c1b = c1.update(from as int, Piece::Empty);
    let c2 = c1b.update(to as int, placed);
    let c3 = match castle_rook(moved, from, to) {
        Some((rf, rt, r)) => c2.update(rf as int, Piece::Empty).update(rt as int, r),
        None => c2,
    };
    assert(make(st, m).cells == c3);
    match ep_capture_square(moved, st.ep, from, to) {
        Some(c) => {
            lemma_count_update(cells, c as int, Piece::Empty, Piece::WK, 128);
            lemma_count_update(cells, c as int, Piece::Empty, Piece::BK, 128);
        },
        None => {},
    }
    lemma_count_update(c1, from as int, Piece::Empty, Piece::WK, 128);
    lemma_count_update(c1, from as int, Piece::Empty, Piece::BK, 128);
    lemma_count_update(c1b, to as int, placed, Piece::WK, 128);
    lemma_count_update(c1b, to as int, placed, Piece::BK, 128);
    match castle_rook(moved, from, to) {
        Some((rf, rt, r)) => {
            let c2b = c2.update(rf as int, Piece::Empty);
            lemma_count_update(c2, rf as int, Piece::Empty, Piece::WK, 128);
            lemma_count_update(c2, rf as int, Piece::Empty, Piece::BK, 128);
            lemma_count_update(c2b, rt as int, r, Piece::WK, 128);
            lemma_count_update(c2b, rt as int, r, Piece::BK, 128);
        },
        None => {},
    }
}

/// What a search needs to know of the position after a move that the
/// rules of movement allow on a consistent board: it is consistent, it has
/// no right that was not there, taking the move back restores the game,
/// each counter has grown by one at most, and the clock is at zero after a
/// capture.
pub proof fn lemma_search_step(st: BoardState, m: Move)
    requires
        st.consistent(),
        st.castling < 16,
        pseudo_legal(st, m),
        st.halfmove_clock < u32::MAX,
        st.fullmove < u32::MAX,
    ensures
        m.from < 128,
        m.to < 128,
        make(st, m).consistent(),
        make(st, m).castling < 16,
        make(st, m).undo().same_game(st),
        make(st, m).halfmove_clock <= st.halfmove_clock + 1,
        make(st, m).fullmove <= st.fullmove + 1,
        st.cells[m.to as int] != Piece::Empty ==> make(st, m).halfmove_clock == 0,
        kings_ok(st.cells) ==> kings_ok(make(st, m).cells),
{
    lemma_pseudo_legal_facts(st, m);
    lemma_make_keeps_consistent(st, m);
    lemma_rights_left(st.castling, st.cells[m.from as int], m.from, m.to);
    law_undo_restores(st, m);
    lemma_make_counts(st, m);
    lemma_pseudo_legal_reversible(st, m);
}

/// No legal move leaves the mover's king attacked.
pub proof fn law_legal_move_keeps_king_safe(st: BoardState, m: Move)
    requires
        legal_move(st, m),
    ensures
        !king_attacked(make(st, m).cells, st.side_white),
{
}

/// Castling is legal only with the right, with the squares between king
/// and rook empty, with the king at home and not attacked, and with the
/// square that the king crosses and the square that it reaches not
/// attacked: a legal move of a king by two files is the castling move
/// towards that side.
pub proof fn law_castling_conditions(st: BoardState, m: Move)
    requires
        legal_move(st, m),
        st.cells[m.from as int] == (if st.side_white { Piece::WK } else { Piece::BK }),
        m.to == m.from + 2 || m.to + 2 == m.from,
    ensures
        castles(st, m.to > m.from, m),
        !attacked(st.cells, m.from as int, !st.side_white),
        !attacked(st.cells, (m.from + m.to) / 2, !st.side_white),
        !attacked(st.cells, m.to as int, !st.side_white),
        st.cells[(m.from + m.to) / 2] == Piece::Empty,
        st.cells[m.to as int] == Piece::Empty,
        m.to < m.from ==> st.cells[m.to - 1] == Piece::Empty,
        st.castling & (if st.side_white {
            if m.to > m.from { 1u8 } else { 2u8 }
        } else {
            if m.to > m.from { 4u8 } else { 8u8 }
        }) != 0,
{
    if piece_move_below(st, 128, m) {
        lemma_king_step_is_short(st.cells, st.side_white, m.from as int, m);
    }
}

/// What a move does to the side to move, the counters and the stacks: the
/// side changes; the clock is at zero after a pawn move or a capture and
/// one further otherwise; the move number grows by one after a move of
/// black; the undo stack holds one more record and the redo stack none.
pub proof fn law_make_bookkeeping(st: BoardState, m: Move)
    requires
        st.halfmove_clock < u32::MAX,
        st.fullmove < u32::MAX,
    ensures
        make(st, m).side_white == !st.side_white,
        make(st, m).halfmove_clock == (if st.cells[m.from as int] == Piece::WP || st.cells[m.from as int]
            == Piece::BP || captured_by(st.cells, st.ep, m.from, m.to) != Piece::Empty {
            0
        } else {
            st.halfmove_clock + 1
        }),
        make(st, m).fullmove == (if st.side_white {
            st.fullmove as int
        } else {
            st.fullmove + 1
        }),
        make(st, m).history.len() == st.history.len() + 1,
        make(st, m).redo_stack.len() == 0,
{
}

/// After a move there is an en passant target exactly if a pawn went two
/// ranks ahead, and the target is the square that it skipped.
pub proof fn law_ep_target_after_double_push(st: BoardState, m: Move)
    requires
        m.from < 128,
        m.to < 128,
    ensures
        make(st, m).ep is Some <==> (st.cells[m.from as int] == Piece::WP && rank_of(m.to)
            == rank_of(m.from) + 2) || (st.cells[m.from as int] == Piece::BP && rank_of(m.from)
            == rank_of(m.to) + 2),
        make(st, m).ep matches Some(e) ==> 2 * rank_of(e) == rank_of(m.from) + rank_of(m.to) && e
            % 16 == m.from % 16,
{
}

/// Taking a move back changes the side, moves the last record from the
/// undo stack to the redo stack, and playing it again moves it back.
pub proof fn law_undo_redo_bookkeeping(st: BoardState)
    requires
        st.history.len() > 0,
    ensures
        st.undo().side_white == !st.side_white,
        st.undo().history.len() == st.history.len() - 1,
        st.undo().redo_stack.len() == st.redo_stack.len() + 1,
        st.undo().redo().side_white == st.side_white,
        st.undo().redo().history.len() == st.history.len(),
        st.undo().redo().redo_stack.len() == st.redo_stack.len(),
{
}

} // verus!
