//! The quiescence value of a position: what the quiescence search computes
//! when nothing cuts it short.

use vstd::prelude::*;
use crate::board::BoardState;
use crate::eval::{eval_of, kings_ok, lemma_count_update, lemma_eval_bound, piece_count};
use crate::laws::{
    lemma_make_counts,
    lemma_make_keeps_consistent,
    lemma_pseudo_legal_facts,
    lemma_pseudo_legal_reversible,
    make,
};
use crate::movegen::{Move, legal_move, lemma_pseudo_legal_squares};
use crate::piece::Piece;

verus! {

/// A legal move that lands on a piece: the moves that the quiescence
/// search tries.
pub open spec fn capture_move(st: BoardState, m: Move) -> bool {
    legal_move(st, m) && st.cells[m.to as int] != Piece::Empty
}

/// The number of moves between slots of the board: 128 times 128 pairs of
/// slots, times 14 promotions.
pub open spec fn move_count() -> int {
    229376
}

/// The `j`-th of the fourteen values of a promotion.
pub open spec fn promotion_of_index(j: int) -> Option<Piece> {
    if j == 0 {
        None
    } else if j == 1 {
        Some(Piece::Empty)
    } else if j == 2 {
        Some(Piece::WP)
    } else if j == 3 {
        Some(Piece::WN)
    } else if j == 4 {
        Some(Piece::WB)
    } else if j == 5 {
        Some(Piece::WR)
    } else if j == 6 {
        Some(Piece::WQ)
    } else if j == 7 {
        Some(Piece::WK)
    } else if j == 8 {
        Some(Piece::BP)
    } else if j == 9 {
        Some(Piece::BN)
    } else if j == 10 {
        Some(Piece::BB)
    } else if j == 11 {
        Some(Piece::BR)
    } else if j == 12 {
        Some(Piece::BQ)
    } else {
        Some(Piece::BK)
    }
}

/// The place of a promotion among the fourteen.
pub open spec fn index_of_promotion(p: Option<Piece>) -> int {
    match p {
        None => 0,
        Some(Piece::Empty) => 1,
        Some(Piece::WP) => 2,
        Some(Piece::WN) => 3,
        Some(Piece::WB) => 4,
        Some(Piece::WR) => 5,
        Some(Piece::WQ) => 6,
        Some(Piece::WK) => 7,
        Some(Piece::BP) => 8,
        Some(Piece::BN) => 9,
        Some(Piece::BB) => 10,
        Some(Piece::BR) => 11,
        Some(Piece::BQ) => 12,
        Some(Piece::BK) => 13,
    }
}

/// The `i`-th move between slots of the board.
pub open spec fn move_of_index(i: int) -> Move {
    Move {
        from: (i / 1792) as usize,
        to: ((i / 14) % 128) as usize,
        promotion: promotion_of_index(i % 14),
    }
}

/// The place of a move among the moves between slots of the board.
pub open spec fn index_of_move(m: Move) -> int {
    m.from * 1792 + m.to * 14 + index_of_promotion(m.promotion)
}

/// Every move between slots of the board has its place.
pub proof fn lemma_move_index(m: Move)
    requires
        m.from < 128,
        m.to < 128,
    ensures
        0 <= index_of_move(m) < move_count(),
        move_of_index(index_of_move(m)) == m,
{
    let i = index_of_move(m);
    let j = index_of_promotion(m.promotion);
    assert(0 <= j < 14);
    assert(promotion_of_index(j) == m.promotion);
    assert(i % 14 == j);
    assert(i / 14 == m.from * 128 + m.to);
    assert((i / 14) % 128 == m.to);
    assert(i / 1792 == m.from);
}

/// The quiescence value of a position in which at most `fuel` pieces can
/// still be captured: the static score, or the negated quiescence value of
/// the position after a legal move that lands on a piece, whichever is
/// greatest.
pub open spec fn quiet_value(st: BoardState, fuel: nat) -> int
    decreases fuel, move_count() + 1,
{
    if fuel == 0 {
        eval_of(st)
    } else {
        best_reply(st, fuel, move_count())
    }
}

/// The greatest of the static score and the negated quiescence values of
/// the positions after the first `k` moves, as far as they are legal and
/// land on a piece.
pub open spec fn best_reply(st: BoardState, fuel: nat, k: int) -> int
    decreases fuel, k,
{
    if fuel == 0 || k <= 0 {
        eval_of(st)
    } else {
        let rest = best_reply(st, fuel, k - 1);
        let m = move_of_index(k - 1);
        if capture_move(st, m) && -quiet_value(make(st, m), (fuel - 1) as nat) > rest {
            -quiet_value(make(st, m), (fuel - 1) as nat)
        } else {
            rest
        }
    }
}

/// The best reply among the first `k` moves is at least the static score,
/// at least the negated value after each of those moves that is legal and
/// lands on a piece, and one of these.
pub proof fn lemma_best_reply(st: BoardState, fuel: nat, k: int)
    requires
        fuel > 0,
        0 <= k,
    ensures
        best_reply(st, fuel, k) >= eval_of(st),
        forall|i: int|
            0 <= i < k && capture_move(st, #[trigger] move_of_index(i)) ==> best_reply(st, fuel, k)
                >= -quiet_value(make(st, move_of_index(i)), (fuel - 1) as nat),
        best_reply(st, fuel, k) == eval_of(st) || exists|i: int|
            0 <= i < k && capture_move(st, #[trigger] move_of_index(i)) && best_reply(st, fuel, k)
                == -quiet_value(make(st, move_of_index(i)), (fuel - 1) as nat),
    decreases k,
{
    if k > 0 {
        lemma_best_reply(st, fuel, k - 1);
        let rest = best_reply(st, fuel, k - 1);
        let m = move_of_index(k - 1);
        let now = best_reply(st, fuel, k);
        if now != eval_of(st) {
            if now == rest {
                let i = choose|i: int|
                    0 <= i < k - 1 && capture_move(st, #[trigger] move_of_index(i)) && rest
                        == -quiet_value(make(st, move_of_index(i)), (fuel - 1) as nat);
                assert(capture_move(st, move_of_index(i)));
            } else {
                assert(capture_move(st, move_of_index(k - 1)));
            }
        }
    }
}

/// The quiescence value is at least the static score, at least the negated
/// value after each legal move that lands on a piece, and one of these.
pub proof fn lemma_quiet_value(st: BoardState, fuel: nat)
    requires
        fuel > 0,
    ensures
        quiet_value(st, fuel) >= eval_of(st),
        forall|m: Move| #[trigger]
            capture_move(st, m) ==> quiet_value(st, fuel) >= -quiet_value(
                make(st, m),
                (fuel - 1) as nat,
            ),
        quiet_value(st, fuel) == eval_of(st) || exists|m: Move| #[trigger]
            capture_move(st, m) && quiet_value(st, fuel) == -quiet_value(
                make(st, m),
                (fuel - 1) as nat,
            ),
{
    lemma_best_reply(st, fuel, move_count());
    assert forall|m: Move| #[trigger] capture_move(st, m) implies quiet_value(st, fuel)
        >= -quiet_value(make(st, m), (fuel - 1) as nat) by {
        lemma_pseudo_legal_squares(st, m);
        lemma_move_index(m);
        assert(capture_move(st, move_of_index(index_of_move(m))));
    }
    if quiet_value(st, fuel) != eval_of(st) {
        let i = choose|i: int|
            0 <= i < move_count() && capture_move(st, #[trigger] move_of_index(i)) && best_reply(
                st,
                fuel,
                move_count(),
            ) == -quiet_value(make(st, move_of_index(i)), (fuel - 1) as nat);
        assert(capture_move(st, move_of_index(i)));
    }
}

/// A legal move that lands on a piece takes exactly one piece off a
/// consistent board.
pub proof fn lemma_capture_takes_one(st: BoardState, m: Move)
    requires
        st.consistent(),
        capture_move(st, m),
    ensures
        piece_count(make(st, m).cells, 128) == piece_count(st.cells, 128) - 1,
{
    lemma_pseudo_legal_facts(st, m);
    lemma_pseudo_legal_reversible(st, m);
    let cells = st.cells;
    let moved = cells[m.from as int];
    let placed = match m.promotion {
        Some(p) => p,
        None => moved,
    };
    let c1 = cells.update(m.from as int, Piece::Empty);
    let c2 = c1.update(m.to as int, placed);
    assert(make(st, m).cells == c2);
    lemma_count_update(cells, m.from as int, Piece::Empty, Piece::Empty, 128);
    lemma_count_update(c1, m.to as int, placed, Piece::Empty, 128);
}

/// A score cut to a window.
pub open spec fn clamp(v: int, low: int, high: int) -> int {
    if v <= low {
        low
    } else if v >= high {
        high
    } else {
        v
    }
}

/// Where neither side has more than one king, the quiescence value is a
/// score by material.
pub proof fn lemma_quiet_value_small(st: BoardState, fuel: nat)
    requires
        st.consistent(),
        kings_ok(st.cells),
    ensures
        -76700 <= quiet_value(st, fuel) <= 76700,
    decreases fuel,
{
    lemma_eval_bound(st);
    if fuel > 0 {
        lemma_quiet_value(st, fuel);
        if quiet_value(st, fuel) != eval_of(st) {
            let m = choose|m: Move| #[trigger]
                capture_move(st, m) && quiet_value(st, fuel) == -quiet_value(
                    make(st, m),
                    (fuel - 1) as nat,
                );
            lemma_make_keeps_consistent(st, m);
            lemma_make_counts(st, m);
            lemma_quiet_value_small(make(st, m), (fuel - 1) as nat);
        }
    }
}

/// The score of a move in a search of depth one: the negated quiescence
/// value of the position after it.
pub open spec fn reply_score(st: BoardState, m: Move) -> int {
    -quiet_value(make(st, m), piece_count(make(st, m).cells, 128) as nat)
}

} // verus!
