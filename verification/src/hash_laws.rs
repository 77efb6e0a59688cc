//! Laws of the incremental key update.

use vstd::prelude::*;
use crate::attack::valid_square;
use crate::board::{BoardState, castle_rook, enemy_pawn, ep_capture_square};
use crate::piece::Piece;
use crate::square::Sq;
use crate::zobrist::{ZobristState, lemma_xor};

verus! {

/// A move that changes two squares only: neither castling nor an en
/// passant capture, between two different squares of the board.
pub open spec fn simple_move(st: BoardState, from: Sq, to: Sq) -> bool {
    &&& st.cells.len() == 128
    &&& valid_square(from as int)
    &&& valid_square(to as int)
    &&& from != to
    &&& st.castling < 16
    &&& ep_capture_square(st.cells[from as int], st.ep, from, to) is None
    &&& castle_rook(st.cells[from as int], from, to) is None
}

/// Replacing the piece on one square changes the key of the pieces by the
/// key of the old piece and the key of the new one.
pub proof fn lemma_pieces_hash_update(keys: ZobristState, cells: Seq<Piece>, i: int, p: Piece, n: int)
    requires
        0 <= i < cells.len(),
        0 <= n <= cells.len(),
    ensures
        keys.pieces_hash(cells.update(i, p), n) == (if i < n && valid_square(i) {
            keys.pieces_hash(cells, n) ^ keys.piece_key(i, cells[i]) ^ keys.piece_key(i, p)
        } else {
            keys.pieces_hash(cells, n)
        }),
    decreases n,
{
    if n > 0 {
        lemma_pieces_hash_update(keys, cells, i, p, n - 1);
        let c2 = cells.update(i, p);
        let before = keys.pieces_hash(cells, n - 1);
        let old_k = keys.piece_key(i, cells[i]);
        let new_k = keys.piece_key(i, p);
        if valid_square(n - 1) {
            if i == n - 1 {
                // before ^ new == (before ^ old) ^ old ^ new
                lemma_xor(before, old_k, new_k);
                lemma_xor(before ^ old_k, old_k, new_k);
                assert(((before ^ old_k) ^ old_k) ^ new_k == before ^ new_k);
            } else if i < n - 1 && valid_square(i) {
                let here = keys.piece_key(n - 1, cells[n - 1]);
                assert(((before ^ old_k) ^ new_k) ^ here == ((before ^ here) ^ old_k) ^ new_k)
                    by (bit_vector);
            }
        }
    }
}

/// The key of the side to move after it changes is the key before it,
/// toggled by the side key.
pub proof fn lemma_side_key_toggles(keys: ZobristState, white: bool)
    ensures
        keys.side_key(!white) == keys.side_key(white) ^ keys.side,
{
    lemma_xor(keys.side, 0, 0);
}

/// After a simple move, the key updated step by step, for the move, then
/// for the castling rights, then for the en passant target, is the key of
/// the new position computed from scratch.
pub proof fn law_incremental_hash(
    keys: ZobristState,
    st: BoardState,
    from: Sq,
    to: Sq,
    promotion: Option<Piece>,
)
    requires
        simple_move(st, from, to),
    ensures
        ({
            let after = st.make(from, to, promotion);
            let h1 = keys.update_move(
                keys.hash_of(st),
                from,
                to,
                st.cells[from as int],
                Some(st.cells[to as int]),
                promotion,
            );
            let h2 = keys.update_castling(h1, st.castling, after.castling);
            keys.update_ep(h2, st.ep, after.ep) == keys.hash_of(after)
        }),
{
    let after = st.make(from, to, promotion);
    let moved = st.cells[from as int];
    let placed = match promotion {
        Some(p) => p,
        None => moved,
    };
    let c1 = st.cells.update(from as int, Piece::Empty);
    let c2 = c1.update(to as int, placed);
    assert(after.cells =~= c2);
    lemma_pieces_hash_update(keys, st.cells, from as int, Piece::Empty, 128);
    lemma_pieces_hash_update(keys, c1, to as int, placed, 128);
    lemma_side_key_toggles(keys, st.side_white);
    let p0 = keys.pieces_hash(st.cells, 128);
    let kf = keys.piece_key(from as int, moved);
    let kc = keys.piece_key(to as int, st.cells[to as int]);
    let kp = keys.piece_key(to as int, placed);
    let zero = keys.piece_key(from as int, Piece::Empty);
    let ca = keys.castling[st.castling as int];
    let cb = keys.castling[after.castling as int];
    let ea = keys.ep_key(st.ep);
    let eb = keys.ep_key(after.ep);
    let sa = keys.side_key(st.side_white);
    let sk = keys.side;
    assert(c1[to as int] == st.cells[to as int]);
    let lhs = ((((((((p0 ^ ca) ^ ea) ^ sa) ^ kf) ^ kc) ^ kp) ^ sk) ^ ca ^ cb) ^ ea ^ eb;
    let rhs = (((((p0 ^ kf) ^ zero) ^ kc) ^ kp) ^ cb ^ eb) ^ (sa ^ sk);
    assert(lhs == rhs) by (bit_vector)
        requires
            zero == 0,
            lhs == ((((((((p0 ^ ca) ^ ea) ^ sa) ^ kf) ^ kc) ^ kp) ^ sk) ^ ca ^ cb) ^ ea ^ eb,
            rhs == (((((p0 ^ kf) ^ zero) ^ kc) ^ kp) ^ cb ^ eb) ^ (sa ^ sk),
    ;
}

/// After a castling move, the key updated step by step, for the king's
/// move, for the rook's move, for the side toggled back once, then for
/// the castling rights and for the en passant target, is the key of the
/// new position computed from scratch.
pub proof fn law_incremental_hash_castling(keys: ZobristState, st: BoardState, from: Sq, to: Sq)
    requires
        st.reversible(from, to),
        st.castling < 16,
        castle_rook(st.cells[from as int], from, to) is Some,
    ensures
        ({
            let after = st.make(from, to, None);
            let king = st.cells[from as int];
            let (rook_from, rook_to, rook) = castle_rook(king, from, to).unwrap();
            let h1 = keys.update_move(keys.hash_of(st), from, to, king, None, None);
            let h2 = keys.update_move(h1, rook_from, rook_to, rook, None, None);
            let h3 = h2 ^ keys.side;
            let h4 = keys.update_castling(h3, st.castling, after.castling);
            keys.update_ep(h4, st.ep, after.ep) == keys.hash_of(after)
        }),
{
    let after = st.make(from, to, None);
    let king = st.cells[from as int];
    let (rf, rt, rook) = castle_rook(king, from, to).unwrap();
    let c1 = st.cells.update(from as int, Piece::Empty);
    let c2 = c1.update(to as int, king);
    let c3 = c2.update(rf as int, Piece::Empty);
    let c4 = c3.update(rt as int, rook);
    assert(after.cells =~= c4);
    lemma_pieces_hash_update(keys, st.cells, from as int, Piece::Empty, 128);
    lemma_pieces_hash_update(keys, c1, to as int, king, 128);
    lemma_pieces_hash_update(keys, c2, rf as int, Piece::Empty, 128);
    lemma_pieces_hash_update(keys, c3, rt as int, rook, 128);
    lemma_side_key_toggles(keys, st.side_white);
    let p0 = keys.pieces_hash(st.cells, 128);
    let kf = keys.piece_key(from as int, king);
    let kt = keys.piece_key(to as int, king);
    let rfk = keys.piece_key(rf as int, rook);
    let rtk = keys.piece_key(rt as int, rook);
    let zero = keys.piece_key(from as int, Piece::Empty);
    let ca = keys.castling[st.castling as int];
    let cb = keys.castling[after.castling as int];
    let ea = keys.ep_key(st.ep);
    let eb = keys.ep_key(after.ep);
    let sa = keys.side_key(st.side_white);
    let sk = keys.side;
    assert(keys.piece_key(to as int, Piece::Empty) == zero);
    assert(keys.piece_key(rf as int, Piece::Empty) == zero);
    assert(keys.piece_key(rt as int, Piece::Empty) == zero);
    let lhs = (((((((((((((p0 ^ ca) ^ ea) ^ sa) ^ kf) ^ zero) ^ kt) ^ sk) ^ rfk) ^ zero) ^ rtk) ^ sk)
        ^ sk) ^ ca ^ cb) ^ ea ^ eb;
    let rhs = (((((((((p0 ^ kf) ^ zero) ^ zero) ^ kt) ^ rfk) ^ zero) ^ zero) ^ rtk) ^ cb ^ eb) ^ (sa
        ^ sk);
    assert(lhs == rhs) by (bit_vector)
        requires
            zero == 0,
            lhs == (((((((((((((p0 ^ ca) ^ ea) ^ sa) ^ kf) ^ zero) ^ kt) ^ sk) ^ rfk) ^ zero) ^ rtk)
                ^ sk) ^ sk) ^ ca ^ cb) ^ ea ^ eb,
            rhs == (((((((((p0 ^ kf) ^ zero) ^ zero) ^ kt) ^ rfk) ^ zero) ^ zero) ^ rtk) ^ cb ^ eb)
                ^ (sa ^ sk),
    ;
}

/// After an en passant capture, the key updated step by step, for the
/// pawn's move, for the captured pawn taken off its square, for the side
/// toggled back once, then for the castling rights and for the en passant
/// target, is the key of the new position computed from scratch.
pub proof fn law_incremental_hash_en_passant(keys: ZobristState, st: BoardState, from: Sq, to: Sq)
    requires
        st.reversible(from, to),
        st.castling < 16,
        valid_square(from as int),
        valid_square(to as int),
        ep_capture_square(st.cells[from as int], st.ep, from, to) is Some,
    ensures
        ({
            let after = st.make(from, to, None);
            let pawn = st.cells[from as int];
            let taken_on = ep_capture_square(pawn, st.ep, from, to).unwrap();
            let h1 = keys.update_move(keys.hash_of(st), from, to, pawn, None, None);
            let h2 = keys.update_move(
                h1,
                taken_on,
                taken_on,
                Piece::Empty,
                Some(enemy_pawn(pawn)),
                None,
            );
            let h3 = h2 ^ keys.side;
            let h4 = keys.update_castling(h3, st.castling, after.castling);
            keys.update_ep(h4, st.ep, after.ep) == keys.hash_of(after)
        }),
{
    let after = st.make(from, to, None);
    let pawn = st.cells[from as int];
    let c = ep_capture_square(pawn, st.ep, from, to).unwrap();
    let c1 = st.cells.update(c as int, Piece::Empty);
    let c2 = c1.update(from as int, Piece::Empty);
    let c3 = c2.update(to as int, pawn);
    assert(after.cells =~= c3);
    lemma_pieces_hash_update(keys, st.cells, c as int, Piece::Empty, 128);
    lemma_pieces_hash_update(keys, c1, from as int, Piece::Empty, 128);
    lemma_pieces_hash_update(keys, c2, to as int, pawn, 128);
    lemma_side_key_toggles(keys, st.side_white);
    let p0 = keys.pieces_hash(st.cells, 128);
    let kf = keys.piece_key(from as int, pawn);
    let kt = keys.piece_key(to as int, pawn);
    let kc = keys.piece_key(c as int, enemy_pawn(pawn));
    let zero = keys.piece_key(from as int, Piece::Empty);
    let ca = keys.castling[st.castling as int];
    let cb = keys.castling[after.castling as int];
    let ea = keys.ep_key(st.ep);
    let eb = keys.ep_key(after.ep);
    let sa = keys.side_key(st.side_white);
    let sk = keys.side;
    assert(keys.piece_key(to as int, Piece::Empty) == zero);
    assert(keys.piece_key(c as int, Piece::Empty) == zero);
    let lhs = (((((((((((((p0 ^ ca) ^ ea) ^ sa) ^ kf) ^ zero) ^ kt) ^ sk) ^ zero) ^ kc) ^ zero) ^ sk)
        ^ sk) ^ ca ^ cb) ^ ea ^ eb;
    let rhs = (((((((p0 ^ kc) ^ zero) ^ kf) ^ zero) ^ zero) ^ kt) ^ cb ^ eb) ^ (sa ^ sk);
    assert(lhs == rhs) by (bit_vector)
        requires
            zero == 0,
            lhs == (((((((((((((p0 ^ ca) ^ ea) ^ sa) ^ kf) ^ zero) ^ kt) ^ sk) ^ zero) ^ kc) ^ zero)
                ^ sk) ^ sk) ^ ca ^ cb) ^ ea ^ eb,
            rhs == (((((((p0 ^ kc) ^ zero) ^ kf) ^ zero) ^ zero) ^ kt) ^ cb ^ eb) ^ (sa ^ sk),
    ;
}

} // verus!
