//! Move generation: the moves that the rules of movement allow, and among
//! them those that leave the mover's king safe.

use vstd::prelude::*;
use crate::attack::{
    BISHOP_DELTAS,
    KING_DELTAS,
    KNIGHT_DELTAS,
    ROOK_DELTAS,
    attacked,
    is_king_attacked,
    is_square_attacked,
    king_attacked,
    lemma_deltas,
    offset_square,
    ray_clear,
    ray_reaches,
    ray_sq,
    valid_square,
};
use crate::board::{Board, BoardState, cells_after_move};
use crate::piece::Piece;
use crate::square::{Sq, file, lemma_on_board, on_board, rank};

verus! {

/// A move: where a piece leaves, where it lands, and what a pawn becomes
/// on the last rank. Castling and en passant are known by their shape.
#[derive(Clone, Copy, Debug, PartialEq, Eq)]
pub struct Move {
    pub from: Sq,
    pub to: Sq,
    pub promotion: Option<Piece>,
}

/// `new` is `old` with moves appended.
pub open spec fn extends(old: Seq<Move>, new: Seq<Move>) -> bool {
    old.len() <= new.len() && new.take(old.len() as int) == old
}

/// `m` is one of the moves appended to `old` in `new`.
pub open spec fn added(old: Seq<Move>, new: Seq<Move>, m: Move) -> bool {
    exists|i: int| old.len() <= i < new.len() && #[trigger] new[i] == m
}

pub proof fn lemma_added_push(old: Seq<Move>, cur: Seq<Move>, x: Move)
    requires
        extends(old, cur),
    ensures
        extends(old, cur.push(x)),
        forall|m: Move| #[trigger] added(old, cur.push(x), m) <==> (added(old, cur, m) || m == x),
{
    let new = cur.push(x);
    assert(new.take(old.len() as int) =~= cur.take(old.len() as int));
    assert forall|m: Move| #[trigger] added(old, new, m) <==> (added(old, cur, m) || m == x) by {
        if added(old, new, m) {
            let i = choose|i: int| old.len() <= i < new.len() && #[trigger] new[i] == m;
            if i < cur.len() {
                assert(cur[i] == m);
            }
        }
        if added(old, cur, m) {
            let i = choose|i: int| old.len() <= i < cur.len() && #[trigger] cur[i] == m;
            assert(new[i] == m);
        }
        if m == x {
            assert(new[cur.len() as int] == m);
        }
    }
}

pub proof fn lemma_added_chain(a: Seq<Move>, b: Seq<Move>, c: Seq<Move>)
    requires
        extends(a, b),
        extends(b, c),
    ensures
        extends(a, c),
        forall|m: Move| #[trigger] added(a, c, m) <==> (added(a, b, m) || added(b, c, m)),
{
    assert(c.take(a.len() as int) =~= b.take(a.len() as int)) by {
        assert forall|i: int| 0 <= i < a.len() implies c[i] == b[i] by {
            assert(c.take(b.len() as int)[i] == b[i]);
        }
    }
    assert forall|m: Move| #[trigger] added(a, c, m) <==> (added(a, b, m) || added(b, c, m)) by {
        if added(a, c, m) {
            let i = choose|i: int| a.len() <= i < c.len() && #[trigger] c[i] == m;
            if i < b.len() {
                assert(c.take(b.len() as int)[i] == b[i]);
                assert(b[i] == m);
            }
        }
        if added(a, b, m) {
            let i = choose|i: int| a.len() <= i < b.len() && #[trigger] b[i] == m;
            assert(c.take(b.len() as int)[i] == b[i]);
            assert(c[i] == m);
        }
        if added(b, c, m) {
            let i = choose|i: int| b.len() <= i < c.len() && #[trigger] c[i] == m;
            assert(c[i] == m);
        }
    }
}

pub proof fn lemma_added_none(a: Seq<Move>)
    ensures
        extends(a, a),
        forall|m: Move| !#[trigger] added(a, a, m),
{
    assert(a.take(a.len() as int) =~= a);
}

/// The piece on `t` does not belong to the given side.
pub open spec fn free_for(cells: Seq<Piece>, white: bool, t: int) -> bool {
    valid_square(t) && !cells[t].is_side(white)
}

// ---------------------------------------------------------------- leapers

/// `t` is the square at offset `deltas[i]` from `s`, on the board and not
/// held by the mover's own piece.
pub open spec fn step_target(
    cells: Seq<Piece>,
    white: bool,
    s: int,
    deltas: Seq<i32>,
    i: int,
    t: int,
) -> bool {
    t == s + deltas[i] && free_for(cells, white, t)
}

/// A knight's or king's move from `s` by one of the first `n` steps.
pub open spec fn leaper_move_upto(
    cells: Seq<Piece>,
    white: bool,
    s: int,
    deltas: Seq<i32>,
    n: int,
    m: Move,
) -> bool {
    &&& m.from == s
    &&& m.promotion is None
    &&& exists|i: int| 0 <= i < n && #[trigger] step_target(cells, white, s, deltas, i, m.to as int)
}

/// A knight's or king's move from `s`: one step of `deltas` to a square
/// that is empty or holds an enemy.
pub open spec fn leaper_move(cells: Seq<Piece>, white: bool, s: int, deltas: Seq<i32>, m: Move) -> bool {
    leaper_move_upto(cells, white, s, deltas, deltas.len() as int, m)
}

// ----------------------------------------------------------------- sliders

/// `t` is the `k`-th square from `s` along `d`, in sight and not held by
/// the mover's own piece.
pub open spec fn ray_step(cells: Seq<Piece>, white: bool, s: int, d: int, k: int, t: int) -> bool {
    ray_reaches(cells, s, d, k) && t == ray_sq(s, d, k) && !cells[t].is_side(white)
}

/// `t` is one of the first `n - 1` squares along `d` that a slider on `s`
/// can go to.
pub open spec fn ray_target_upto(cells: Seq<Piece>, white: bool, s: int, d: int, n: int, t: int) -> bool {
    exists|k: int| k < n && #[trigger] ray_step(cells, white, s, d, k, t)
}

/// A slider on `s` can go to `t` along `d`: every square between is empty,
/// and `t` is empty or holds an enemy.
pub open spec fn ray_target(cells: Seq<Piece>, white: bool, s: int, d: int, t: int) -> bool {
    exists|k: int| #[trigger] ray_step(cells, white, s, d, k, t)
}

/// A slider's move from `s` along `d`.
pub open spec fn ray_move(cells: Seq<Piece>, white: bool, s: int, d: int, m: Move) -> bool {
    m.from == s && m.promotion is None && ray_target(cells, white, s, d, m.to as int)
}

/// A slider's move from `s` along one of the first `n` directions.
pub open spec fn slider_move_upto(
    cells: Seq<Piece>,
    white: bool,
    s: int,
    deltas: Seq<i32>,
    n: int,
    m: Move,
) -> bool {
    exists|i: int| 0 <= i < n && #[trigger] ray_move(cells, white, s, deltas[i] as int, m)
}

/// A bishop's, rook's or queen's move from `s` along one direction of
/// `deltas`.
pub open spec fn slider_move(cells: Seq<Piece>, white: bool, s: int, deltas: Seq<i32>, m: Move) -> bool {
    slider_move_upto(cells, white, s, deltas, deltas.len() as int, m)
}

// ------------------------------------------------------------------- pawns

pub open spec fn pawn_dir(white: bool) -> int {
    if white {
        16
    } else {
        -16
    }
}

/// `t` is the square ahead of a pawn on `s`, and empty.
pub open spec fn pawn_push(cells: Seq<Piece>, white: bool, s: int, t: int) -> bool {
    t == s + pawn_dir(white) && valid_square(t) && cells[t] == Piece::Empty
}

/// `t` is two squares ahead of a pawn on its starting rank, and both
/// squares ahead are empty.
pub open spec fn pawn_double_push(cells: Seq<Piece>, white: bool, s: int, t: int) -> bool {
    &&& t == s + 2 * pawn_dir(white)
    &&& s / 16 == (if white { 1int } else { 6int })
    &&& valid_square(s + pawn_dir(white))
    &&& cells[s + pawn_dir(white)] == Piece::Empty
    &&& valid_square(t)
    &&& cells[t] == Piece::Empty
}

/// `t` is diagonally ahead of a pawn on `s`, towards the side `side` (1 or
/// -1), and holds an enemy.
pub open spec fn pawn_capture(cells: Seq<Piece>, white: bool, s: int, side: int, t: int) -> bool {
    t == s + pawn_dir(white) + side && valid_square(t) && cells[t].is_side(!white)
}

/// `t` is the en passant target, one rank ahead of a pawn on `s` and one
/// file beside it: rank 5 seen from white's rank 4, rank 2 from black's
/// rank 3.
pub open spec fn pawn_en_passant(ep: Option<Sq>, white: bool, s: int, t: int) -> bool {
    &&& ep == Some(t as usize)
    &&& valid_square(t)
    &&& t / 16 == (if white { 5int } else { 2int })
    &&& s / 16 == (if white { 4int } else { 3int })
    &&& (t % 16 - s % 16 == 1 || s % 16 - t % 16 == 1)
}

/// A pawn of the given side on `s` can go to `t`: one square ahead if it is
/// empty, two from the starting rank if both are, diagonally ahead onto an
/// enemy, or onto the en passant target from the rank beside it.
pub open spec fn pawn_target(cells: Seq<Piece>, ep: Option<Sq>, white: bool, s: int, t: int) -> bool {
    ||| pawn_push(cells, white, s, t)
    ||| pawn_double_push(cells, white, s, t)
    ||| pawn_capture(cells, white, s, 1, t)
    ||| pawn_capture(cells, white, s, -1, t)
    ||| pawn_en_passant(ep, white, s, t)
}

/// The pawn moves from `s` that the first `n` of the five rules give.
pub open spec fn pawn_move_upto(
    cells: Seq<Piece>,
    ep: Option<Sq>,
    white: bool,
    s: int,
    n: int,
    m: Move,
) -> bool {
    let t = m.to as int;
    &&& m.from == s
    &&& promotion_ok(white, t, m.promotion)
    &&& {
        ||| (n >= 1 && pawn_push(cells, white, s, t))
        ||| (n >= 2 && pawn_double_push(cells, white, s, t))
        ||| (n >= 3 && pawn_capture(cells, white, s, 1, t))
        ||| (n >= 4 && pawn_capture(cells, white, s, -1, t))
        ||| (n >= 5 && pawn_en_passant(ep, white, s, t))
    }
}

/// What a pawn that lands on `t` becomes: queen, rook, bishop or knight of
/// its colour on the last rank, nothing elsewhere.
pub open spec fn promotion_ok(white: bool, t: int, p: Option<Piece>) -> bool {
    if t / 16 == (if white { 7int } else { 0int }) {
        if white {
            p == Some(Piece::WQ) || p == Some(Piece::WR) || p == Some(Piece::WB) || p == Some(
                Piece::WN,
            )
        } else {
            p == Some(Piece::BQ) || p == Some(Piece::BR) || p == Some(Piece::BB) || p == Some(
                Piece::BN,
            )
        }
    } else {
        p is None
    }
}

/// A pawn's move from `s`.
pub open spec fn pawn_move(cells: Seq<Piece>, ep: Option<Sq>, white: bool, s: int, m: Move) -> bool {
    m.from == s && pawn_target(cells, ep, white, s, m.to as int) && promotion_ok(
        white,
        m.to as int,
        m.promotion,
    )
}

/// A move of the piece on `s` by the rules of movement alone.
pub open spec fn piece_move(cells: Seq<Piece>, ep: Option<Sq>, white: bool, s: int, m: Move) -> bool {
    match cells[s] {
        Piece::WP => pawn_move(cells, ep, true, s, m),
        Piece::BP => pawn_move(cells, ep, false, s, m),
        Piece::WN | Piece::BN => leaper_move(cells, white, s, KNIGHT_DELTAS@, m),
        Piece::WB | Piece::BB => slider_move(cells, white, s, BISHOP_DELTAS@, m),
        Piece::WR | Piece::BR => slider_move(cells, white, s, ROOK_DELTAS@, m),
        Piece::WQ | Piece::BQ => slider_move(cells, white, s, ROOK_DELTAS@, m) || slider_move(
            cells,
            white,
            s,
            BISHOP_DELTAS@,
            m,
        ),
        Piece::WK | Piece::BK => leaper_move(cells, white, s, KING_DELTAS@, m),
        Piece::Empty => false,
    }
}

/// A move of a piece of the side to move that stands on a square below
/// `bound`.
pub open spec fn piece_move_below(st: BoardState, bound: int, m: Move) -> bool {
    &&& m.from < bound
    &&& valid_square(m.from as int)
    &&& st.cells[m.from as int].is_side(st.side_white)
    &&& piece_move(st.cells, st.ep, st.side_white, m.from as int, m)
}

// ---------------------------------------------------------------- castling

/// The castling move of the side to move towards the king's or the queen's
/// side: the right is there, the king is at home and not attacked, the
/// squares between king and rook are empty, and the two squares that the
/// king crosses and reaches are not attacked.
pub open spec fn castles(st: BoardState, king_side: bool, m: Move) -> bool {
    let white = st.side_white;
    let base: int = if white { 0 } else { 0x70 };
    let bit: u8 = if white {
        if king_side { 1u8 } else { 2u8 }
    } else {
        if king_side { 4u8 } else { 8u8 }
    };
    let step: int = if king_side { 1 } else { -1 };
    &&& st.castling & bit != 0
    &&& st.cells[base + 4] == (if white { Piece::WK } else { Piece::BK })
    &&& st.cells[base + 4 + step] == Piece::Empty
    &&& st.cells[base + 4 + 2 * step] == Piece::Empty
    &&& (king_side || st.cells[base + 1] == Piece::Empty)
    &&& !attacked(st.cells, base + 4, !white)
    &&& !attacked(st.cells, base + 4 + step, !white)
    &&& !attacked(st.cells, base + 4 + 2 * step, !white)
    &&& m.from == base + 4
    &&& m.to == base + 4 + 2 * step
    &&& m.promotion is None
}

/// A move that the rules of movement allow to the side to move, whether or
/// not it leaves that side's king attacked.
pub open spec fn pseudo_legal(st: BoardState, m: Move) -> bool {
    piece_move_below(st, 128, m) || castles(st, true, m) || castles(st, false, m)
}

/// After the move the mover's king is not attacked.
pub open spec fn king_safe_after(st: BoardState, m: Move) -> bool {
    !king_attacked(
        cells_after_move(
            st.cells,
            st.cells[m.from as int],
            st.ep,
            m.from,
            m.to,
            m.promotion,
        ),
        st.side_white,
    )
}

/// A legal move: the rules of movement allow it and it leaves the mover's
/// king safe.
pub open spec fn legal_move(st: BoardState, m: Move) -> bool {
    pseudo_legal(st, m) && king_safe_after(st, m)
}

// ------------------------------------------------------------ generators

/// Appends the move of a pawn from `s` to `to`: once for each piece it may
/// become on the last rank, once elsewhere.
fn push_pawn_moves(moves: &mut Vec<Move>, s: Sq, to: Sq, white: bool)
    requires
        to < 128,
    ensures
        extends(old(moves)@, final(moves)@),
        forall|m: Move| #[trigger]
            added(old(moves)@, final(moves)@, m) <==> (m.from == s && m.to == to && promotion_ok(
                white,
                to as int,
                m.promotion,
            )),
{
    let ghost start = moves@;
    let last: usize = if white { 7 } else { 0 };
    if rank(to) == last {
        let q = if white { Piece::WQ } else { Piece::BQ };
        let r = if white { Piece::WR } else { Piece::BR };
        let b = if white { Piece::WB } else { Piece::BB };
        let n = if white { Piece::WN } else { Piece::BN };
        push_move(moves, s, to, Some(q));
        let ghost m1 = moves@;
        push_move(moves, s, to, Some(r));
        let ghost m2 = moves@;
        push_move(moves, s, to, Some(b));
        let ghost m3 = moves@;
        push_move(moves, s, to, Some(n));
        proof {
            lemma_added_chain(start, m1, m2);
            lemma_added_chain(start, m2, m3);
            lemma_added_chain(start, m3, moves@);
            assert forall|m: Move| #[trigger]
                added(start, moves@, m) <==> (m.from == s && m.to == to && promotion_ok(
                    white,
                    to as int,
                    m.promotion,
                )) by {
                if m.from == s && m.to == to && promotion_ok(white, to as int, m.promotion) {
                    assert(m == Move { from: s, to, promotion: m.promotion });
                }
            }
        }
    } else {
        push_move(moves, s, to, None);
        proof {
            assert forall|m: Move| #[trigger]
                added(start, moves@, m) <==> (m.from == s && m.to == to && promotion_ok(
                    white,
                    to as int,
                    m.promotion,
                )) by {
                if m.from == s && m.to == to && promotion_ok(white, to as int, m.promotion) {
                    assert(m == Move { from: s, to, promotion: m.promotion });
                }
            }
        }
    }
}

/// Appends the captures of a pawn on `s` towards one side.
fn gen_pawn_capture(board: &Board, s: Sq, white: bool, side: i32, moves: &mut Vec<Move>)
    requires
        s < 128,
        side == 1 || side == -1,
    ensures
        extends(old(moves)@, final(moves)@),
        forall|m: Move| #[trigger]
            added(old(moves)@, final(moves)@, m) <==> (m.from == s && pawn_capture(
                board@.cells,
                white,
                s as int,
                side as int,
                m.to as int,
            ) && promotion_ok(white, m.to as int, m.promotion)),
{
    let dir: i32 = if white { 16 } else { -16 };
    proof {
        lemma_added_none(moves@);
    }
    match offset_square(s, dir + side) {
        Some(t) => {
            let p = board.piece_at(t);
            if (white && p.is_black()) || (!white && p.is_white()) {
                push_pawn_moves(moves, s, t, white);
            }
        },
        None => {},
    }
}

/// Appends the moves of a pawn of the given side on `s`.
fn gen_pawn_moves(board: &Board, s: Sq, white: bool, moves: &mut Vec<Move>)
    requires
        s < 128,
    ensures
        extends(old(moves)@, final(moves)@),
        forall|m: Move| #[trigger]
            added(old(moves)@, final(moves)@, m) <==> pawn_move(
                board@.cells,
                board@.ep,
                white,
                s as int,
                m,
            ),
{
    let ghost cells = board@.cells;
    let ghost ep = board@.ep;
    let ghost start = moves@;
    let ghost si = s as int;
    let dir: i32 = if white { 16 } else { -16 };
    let start_rank: usize = if white { 1 } else { 6 };
    proof {
        lemma_added_none(start);
    }
    // one square ahead
    let one = offset_square(s, dir);
    let mut one_free = false;
    match one {
        Some(t) => {
            if board.piece_at(t).is_empty() {
                one_free = true;
                push_pawn_moves(moves, s, t, white);
            }
        },
        None => {},
    }
    assert forall|m: Move| #[trigger]
        added(start, moves@, m) <==> pawn_move_upto(cells, ep, white, si, 1, m) by {}
    // two squares ahead
    let ghost m1 = moves@;
    proof {
        lemma_added_none(m1);
    }
    if one_free && rank(s) == start_rank {
        match offset_square(s, 2 * dir) {
            Some(t) => {
                if board.piece_at(t).is_empty() {
                    push_move(moves, s, t, None);
                }
            },
            None => {},
        }
    }
    proof {
        lemma_added_chain(start, m1, moves@);
        assert forall|m: Move| #[trigger]
            added(start, moves@, m) <==> pawn_move_upto(cells, ep, white, si, 2, m) by {
            if m.from == s && pawn_double_push(cells, white, si, m.to as int) && m.promotion is None {
                assert(m == Move { from: s, to: m.to, promotion: None });
            }
        }
    }
    // captures
    let ghost m2 = moves@;
    gen_pawn_capture(board, s, white, 1, moves);
    proof {
        lemma_added_chain(start, m2, moves@);
        assert forall|m: Move| #[trigger]
            added(start, moves@, m) <==> pawn_move_upto(cells, ep, white, si, 3, m) by {}
    }
    let ghost m3 = moves@;
    gen_pawn_capture(board, s, white, -1, moves);
    proof {
        lemma_added_chain(start, m3, moves@);
        assert forall|m: Move| #[trigger]
            added(start, moves@, m) <==> pawn_move_upto(cells, ep, white, si, 4, m) by {}
    }
    // en passant
    let ghost m4 = moves@;
    proof {
        lemma_added_none(m4);
    }
    if let Some(e) = board.ep_target() {
        if e < 128 {
            proof {
                lemma_on_board(e);
            }
            let ep_rank: usize = if white { 5 } else { 2 };
            let from_rank: usize = if white { 4 } else { 3 };
            if on_board(e) && rank(e) == ep_rank && rank(s) == from_rank && (file(e) == file(s) + 1
                || file(s) == file(e) + 1) {
                push_move(moves, s, e, None);
            }
        }
    }
    proof {
        lemma_added_chain(start, m4, moves@);
        assert forall|m: Move| #[trigger]
            added(start, moves@, m) <==> pawn_move_upto(cells, ep, white, si, 5, m) by {
            if m.from == s && pawn_en_passant(ep, white, si, m.to as int) && m.promotion is None {
                assert(m == Move { from: s, to: m.to, promotion: None });
            }
        }
        assert forall|m: Move|
            pawn_move_upto(cells, ep, white, si, 5, m) <==> pawn_move(cells, ep, white, si, m) by {}
    }
}

/// Appends one move.
fn push_move(moves: &mut Vec<Move>, from: Sq, to: Sq, promotion: Option<Piece>)
    ensures
        extends(old(moves)@, final(moves)@),
        forall|m: Move| #[trigger]
            added(old(moves)@, final(moves)@, m) <==> m == (Move { from, to, promotion }),
{
    proof {
        lemma_added_none(moves@);
        lemma_added_push(moves@, moves@, Move { from, to, promotion });
    }
    moves.push(Move { from, to, promotion });
}

/// Appends the moves of a knight or a king on `s`.
fn gen_leaper_moves(board: &Board, s: Sq, deltas: &[i32; 8], moves: &mut Vec<Move>)
    requires
        s < 128,
        forall|i: int| 0 <= i < 8 ==> -40 <= #[trigger] deltas@[i] <= 40,
    ensures
        extends(old(moves)@, final(moves)@),
        forall|m: Move| #[trigger]
            added(old(moves)@, final(moves)@, m) <==> leaper_move(
                board@.cells,
                board@.side_white,
                s as int,
                deltas@,
                m,
            ),
{
    let white = board.white_to_move();
    let ghost cells = board@.cells;
    let ghost start = moves@;
    proof {
        lemma_added_none(start);
    }
    let mut i: usize = 0;
    while i < 8
        invariant
            i <= 8,
            s < 128,
            cells == board@.cells,
            white == board@.side_white,
            forall|i: int| 0 <= i < 8 ==> -40 <= #[trigger] deltas@[i] <= 40,
            extends(start, moves@),
            forall|m: Move| #[trigger]
                added(start, moves@, m) <==> leaper_move_upto(
                    cells,
                    white,
                    s as int,
                    deltas@,
                    i as int,
                    m,
                ),
        decreases 8 - i,
    {
        let t = offset_square(s, deltas[i]);
        let mut pushed = false;
        match t {
            Some(ns) => {
                let p = board.piece_at(ns);
                if p.is_empty() || (white && p.is_black()) || (!white && p.is_white()) {
                    let ghost mid = moves@;
                    push_move(moves, s, ns, None);
                    pushed = true;
                    proof {
                        lemma_added_chain(start, mid, moves@);
                    }
                }
            },
            None => {},
        }
        proof {
            let ii = i as int;
            assert forall|m: Move| #[trigger]
                added(start, moves@, m) <==> leaper_move_upto(
                    cells,
                    white,
                    s as int,
                    deltas@,
                    ii + 1,
                    m,
                ) by {
                if leaper_move_upto(cells, white, s as int, deltas@, ii + 1, m) {
                    let j = choose|j: int|
                        0 <= j < ii + 1 && #[trigger] step_target(
                            cells,
                            white,
                            s as int,
                            deltas@,
                            j,
                            m.to as int,
                        );
                    if j < ii {
                        assert(leaper_move_upto(cells, white, s as int, deltas@, ii, m));
                    } else {
                        assert(pushed);
                        assert(m == Move { from: s, to: m.to, promotion: None });
                    }
                }
                if leaper_move_upto(cells, white, s as int, deltas@, ii, m) {
                    let j = choose|j: int|
                        0 <= j < ii && #[trigger] step_target(
                            cells,
                            white,
                            s as int,
                            deltas@,
                            j,
                            m.to as int,
                        );
                    assert(step_target(cells, white, s as int, deltas@, j, m.to as int));
                }
                if pushed && m == (Move { from: s, to: t->0, promotion: None }) {
                    assert(step_target(cells, white, s as int, deltas@, ii, m.to as int));
                }
            }
        }
        i += 1;
    }
}

/// Beyond a square that is off the board or occupied, a ray reaches
/// nothing.
proof fn lemma_ray_blocked(cells: Seq<Piece>, s: int, d: int, k: int, j: int)
    requires
        k >= 1,
        j > k,
        !valid_square(ray_sq(s, d, k)) || cells[ray_sq(s, d, k)] != Piece::Empty,
    ensures
        !ray_reaches(cells, s, d, j),
{
    if ray_reaches(cells, s, d, j) {
        assert(valid_square(ray_sq(s, d, k)) && cells[ray_sq(s, d, k)] == Piece::Empty);
    }
}

/// Appends the moves of a slider on `s` along the direction `d`.
fn gen_ray_moves(board: &Board, s: Sq, d: i32, moves: &mut Vec<Move>)
    requires
        s < 128,
        1 <= d <= 17 || -17 <= d <= -1,
    ensures
        extends(old(moves)@, final(moves)@),
        forall|m: Move| #[trigger]
            added(old(moves)@, final(moves)@, m) <==> ray_move(
                board@.cells,
                board@.side_white,
                s as int,
                d as int,
                m,
            ),
{
    let white = board.white_to_move();
    let ghost cells = board@.cells;
    let ghost start = moves@;
    let ghost mut k: int = 1;
    let mut cur: Sq = s;
    proof {
        board.lemma_cells_len();
        lemma_added_none(start);
        assert(ray_sq(s as int, d as int, 0) == s);
    }
    loop
        invariant_except_break
            forall|m: Move| #[trigger]
                added(start, moves@, m) <==> (m.from == s && m.promotion is None
                    && ray_target_upto(cells, white, s as int, d as int, k, m.to as int)),
        invariant
            s < 128,
            cur < 128,
            1 <= d <= 17 || -17 <= d <= -1,
            1 <= k,
            cells == board@.cells,
            cells.len() == 128,
            white == board@.side_white,
            cur == ray_sq(s as int, d as int, k - 1),
            ray_clear(cells, s as int, d as int, k),
            extends(start, moves@),
        ensures
            extends(start, moves@),
            forall|m: Move| #[trigger]
                added(start, moves@, m) <==> ray_move(cells, white, s as int, d as int, m),
        decreases
            (if d > 0 {
                128 - cur
            } else {
                cur as int
            }),
    {
        assert(ray_sq(s as int, d as int, k) == cur + d) by (nonlinear_arith)
            requires
                cur == ray_sq(s as int, d as int, k - 1),
        ;
        let ghost sq_k = ray_sq(s as int, d as int, k);
        let next = offset_square(cur, d);
        let mut stop = true;
        let ghost before = moves@;
        match next {
            None => {},
            Some(a) => {
                let p = board.piece_at(a);
                if p.is_empty() {
                    push_move(moves, s, a, None);
                    stop = false;
                } else if (white && p.is_black()) || (!white && p.is_white()) {
                    push_move(moves, s, a, None);
                }
            },
        }
        proof {
            if moves@ == before {
                lemma_added_none(before);
            }
            lemma_added_chain(start, before, moves@);
            let can = valid_square(sq_k) && !cells[sq_k].is_side(white);
            assert(ray_reaches(cells, s as int, d as int, k) <==> valid_square(sq_k));
            assert forall|m: Move| #[trigger]
                added(start, moves@, m) <==> (m.from == s && m.promotion is None
                    && ray_target_upto(cells, white, s as int, d as int, k + 1, m.to as int)) by {
                let t = m.to as int;
                if ray_target_upto(cells, white, s as int, d as int, k + 1, t) {
                    let j = choose|j: int|
                        j < k + 1 && #[trigger] ray_step(cells, white, s as int, d as int, j, t);
                    if j < k {
                        assert(ray_target_upto(cells, white, s as int, d as int, k, t));
                    } else {
                        assert(can && t == sq_k);
                        if m.from == s && m.promotion is None {
                            assert(m == Move { from: s, to: m.to, promotion: None });
                        }
                    }
                }
                if ray_target_upto(cells, white, s as int, d as int, k, t) {
                    let j = choose|j: int|
                        j < k && #[trigger] ray_step(cells, white, s as int, d as int, j, t);
                    assert(ray_step(cells, white, s as int, d as int, j, t));
                }
                if can && m == (Move { from: s, to: sq_k as usize, promotion: None }) {
                    assert(ray_step(cells, white, s as int, d as int, k, t));
                }
            }
        }
        if stop {
            proof {
                assert forall|m: Move| #[trigger]
                    added(start, moves@, m) <==> ray_move(cells, white, s as int, d as int, m) by {
                    let t = m.to as int;
                    if ray_target(cells, white, s as int, d as int, t) {
                        let j = choose|j: int| #[trigger]
                            ray_step(cells, white, s as int, d as int, j, t);
                        if j > k {
                            lemma_ray_blocked(cells, s as int, d as int, k, j);
                        }
                        assert(ray_target_upto(cells, white, s as int, d as int, k + 1, t));
                    }
                    if ray_target_upto(cells, white, s as int, d as int, k + 1, t) {
                        let j = choose|j: int|
                            j < k + 1 && #[trigger] ray_step(cells, white, s as int, d as int, j, t);
                        assert(ray_step(cells, white, s as int, d as int, j, t));
                    }
                }
            }
            break;
        }
        proof {
            assert forall|j: int| 1 <= j < k + 1 implies valid_square(
                #[trigger] ray_sq(s as int, d as int, j),
            ) && cells[ray_sq(s as int, d as int, j)] == Piece::Empty by {
                if j == k {
                }
            }
            k = k + 1;
        }
        cur = next.unwrap();
    }
}

/// Appends the moves of a bishop, rook or queen on `s` along the four
/// directions of `deltas`.
fn gen_slider_moves(board: &Board, s: Sq, deltas: &[i32; 4], moves: &mut Vec<Move>)
    requires
        s < 128,
        forall|i: int|
            0 <= i < 4 ==> 1 <= #[trigger] deltas@[i] <= 17 || -17 <= deltas@[i] <= -1,
    ensures
        extends(old(moves)@, final(moves)@),
        forall|m: Move| #[trigger]
            added(old(moves)@, final(moves)@, m) <==> slider_move(
                board@.cells,
                board@.side_white,
                s as int,
                deltas@,
                m,
            ),
{
    let ghost cells = board@.cells;
    let ghost white = board@.side_white;
    let ghost start = moves@;
    proof {
        lemma_added_none(start);
    }
    let mut i: usize = 0;
    while i < 4
        invariant
            i <= 4,
            s < 128,
            cells == board@.cells,
            white == board@.side_white,
            forall|i: int|
                0 <= i < 4 ==> 1 <= #[trigger] deltas@[i] <= 17 || -17 <= deltas@[i] <= -1,
            extends(start, moves@),
            forall|m: Move| #[trigger]
                added(start, moves@, m) <==> slider_move_upto(
                    cells,
                    white,
                    s as int,
                    deltas@,
                    i as int,
                    m,
                ),
        decreases 4 - i,
    {
        let ghost before = moves@;
        gen_ray_moves(board, s, deltas[i], moves);
        proof {
            lemma_added_chain(start, before, moves@);
            let ii = i as int;
            assert forall|m: Move| #[trigger]
                added(start, moves@, m) <==> slider_move_upto(
                    cells,
                    white,
                    s as int,
                    deltas@,
                    ii + 1,
                    m,
                ) by {
                if slider_move_upto(cells, white, s as int, deltas@, ii + 1, m) {
                    let j = choose|j: int|
                        0 <= j < ii + 1 && #[trigger] ray_move(
                            cells,
                            white,
                            s as int,
                            deltas@[j] as int,
                            m,
                        );
                    if j < ii {
                        assert(slider_move_upto(cells, white, s as int, deltas@, ii, m));
                    }
                }
                if slider_move_upto(cells, white, s as int, deltas@, ii, m) {
                    let j = choose|j: int|
                        0 <= j < ii && #[trigger] ray_move(
                            cells,
                            white,
                            s as int,
                            deltas@[j] as int,
                            m,
                        );
                    assert(ray_move(cells, white, s as int, deltas@[j] as int, m));
                }
                if ray_move(cells, white, s as int, deltas@[ii] as int, m) {
                }
            }
        }
        i += 1;
    }
}

/// Appends the castling move of the side to move towards one side, if the
/// rules allow it.
fn gen_castle(board: &Board, king_side: bool, moves: &mut Vec<Move>)
    ensures
        extends(old(moves)@, final(moves)@),
        forall|m: Move| #[trigger]
            added(old(moves)@, final(moves)@, m) <==> castles(board@, king_side, m),
{
    let white = board.white_to_move();
    let base: usize = if white { 0 } else { 0x70 };
    let bit: u8 = if white {
        if king_side { 1 } else { 2 }
    } else {
        if king_side { 4 } else { 8 }
    };
    let king = if white { Piece::WK } else { Piece::BK };
    let home: usize = base + 4;
    let cross: usize = if king_side { base + 5 } else { base + 3 };
    let land: usize = if king_side { base + 6 } else { base + 2 };
    proof {
        lemma_added_none(moves@);
    }
    if board.castling_rights() & bit != 0 && board.piece_at(home) == king && board.piece_at(
        cross,
    ).is_empty() && board.piece_at(land).is_empty() && (king_side || board.piece_at(
        base + 1,
    ).is_empty()) && !is_square_attacked(board, home, !white) && !is_square_attacked(
        board,
        cross,
        !white,
    ) && !is_square_attacked(board, land, !white) {
        push_move(moves, home, land, None);
        proof {
            assert forall|m: Move| castles(board@, king_side, m) implies m == (Move {
                from: home,
                to: land,
                promotion: None,
            }) by {}
        }
    }
}

/// Appends the castling moves of the side to move.
fn gen_castling(board: &Board, moves: &mut Vec<Move>)
    ensures
        extends(old(moves)@, final(moves)@),
        forall|m: Move| #[trigger]
            added(old(moves)@, final(moves)@, m) <==> (castles(board@, true, m) || castles(
                board@,
                false,
                m,
            )),
{
    let ghost start = moves@;
    gen_castle(board, true, moves);
    let ghost mid = moves@;
    gen_castle(board, false, moves);
    proof {
        lemma_added_chain(start, mid, moves@);
    }
}

/// Appends the moves of the piece on `s`, if it belongs to the side to
/// move.
fn gen_piece_moves(board: &Board, s: Sq, moves: &mut Vec<Move>)
    requires
        s < 128,
    ensures
        extends(old(moves)@, final(moves)@),
        forall|m: Move| #[trigger]
            added(old(moves)@, final(moves)@, m) <==> (m.from == s && piece_move_below(
                board@,
                s + 1,
                m,
            )),
{
    let white = board.white_to_move();
    let p = board.piece_at(s);
    let ghost start = moves@;
    let ghost st = board@;
    proof {
        lemma_deltas();
        lemma_added_none(start);
        lemma_on_board(s);
    }
    if !on_board(s) || p.is_empty() || (white && !p.is_white()) || (!white && !p.is_black()) {
        return ;
    }
    match p {
        Piece::WP => gen_pawn_moves(board, s, true, moves),
        Piece::BP => gen_pawn_moves(board, s, false, moves),
        Piece::WN | Piece::BN => gen_leaper_moves(board, s, &KNIGHT_DELTAS, moves),
        Piece::WB | Piece::BB => gen_slider_moves(board, s, &BISHOP_DELTAS, moves),
        Piece::WR | Piece::BR => gen_slider_moves(board, s, &ROOK_DELTAS, moves),
        Piece::WQ | Piece::BQ => {
            gen_slider_moves(board, s, &ROOK_DELTAS, moves);
            let ghost mid = moves@;
            gen_slider_moves(board, s, &BISHOP_DELTAS, moves);
            proof {
                lemma_added_chain(start, mid, moves@);
            }
        },
        Piece::WK | Piece::BK => gen_leaper_moves(board, s, &KING_DELTAS, moves),
        Piece::Empty => {},
    }
    proof {
        assert forall|m: Move| #[trigger]
            added(start, moves@, m) <==> (m.from == s && piece_move_below(st, s + 1, m)) by {
            if piece_move(st.cells, st.ep, st.side_white, s as int, m) {
                lemma_piece_move_from(st.cells, st.ep, st.side_white, s as int, m);
            }
            if added(start, moves@, m) {
                lemma_piece_move_from(st.cells, st.ep, st.side_white, s as int, m);
            }
        }
    }
}

/// A piece's move starts on the piece's square.
pub proof fn lemma_piece_move_from(cells: Seq<Piece>, ep: Option<Sq>, white: bool, s: int, m: Move)
    ensures
        piece_move(cells, ep, white, s, m) ==> m.from == s,
        leaper_move(cells, white, s, KNIGHT_DELTAS@, m) ==> m.from == s,
        leaper_move(cells, white, s, KING_DELTAS@, m) ==> m.from == s,
        slider_move(cells, white, s, ROOK_DELTAS@, m) ==> m.from == s,
        slider_move(cells, white, s, BISHOP_DELTAS@, m) ==> m.from == s,
{
}

/// No move occurs twice.
pub open spec fn distinct(moves: Seq<Move>) -> bool {
    forall|i: int, j: int| 0 <= i < j < moves.len() ==> moves[i] != moves[j]
}

/// Whether two moves are the same move.
fn same_move(a: Move, b: Move) -> (r: bool)
    ensures
        r == (a == b),
{
    a.from == b.from && a.to == b.to && match (a.promotion, b.promotion) {
        (None, None) => true,
        (Some(x), Some(y)) => x == y,
        _ => false,
    }
}

/// Whether a move is in a list.
fn holds_move(v: &Vec<Move>, m: Move) -> (r: bool)
    ensures
        r == v@.contains(m),
{
    let mut i: usize = 0;
    while i < v.len()
        invariant
            i <= v@.len(),
            forall|j: int| 0 <= j < i ==> v@[j] != m,
        decreases v@.len() - i,
    {
        if same_move(v[i], m) {
            return true;
        }
        i += 1;
    }
    false
}

/// The moves of a list, each once.
pub fn without_repeats(v: &Vec<Move>) -> (out: Vec<Move>)
    ensures
        distinct(out@),
        forall|m: Move| #[trigger] out@.contains(m) <==> v@.contains(m),
{
    let mut out: Vec<Move> = Vec::new();
    let mut i: usize = 0;
    while i < v.len()
        invariant
            i <= v@.len(),
            distinct(out@),
            forall|k: int| 0 <= k < out@.len() ==> v@.contains(#[trigger] out@[k]),
            forall|j: int| 0 <= j < i ==> out@.contains(#[trigger] v@[j]),
        decreases v@.len() - i,
    {
        let m = v[i];
        let ghost before = out@;
        if !holds_move(&out, m) {
            out.push(m);
            proof {
                assert(out@[before.len() as int] == m);
                assert(v@.contains(m));
            }
        }
        proof {
            assert forall|j: int| 0 <= j < i + 1 implies out@.contains(#[trigger] v@[j]) by {
                let x = choose|x: int| 0 <= x < before.len() && before[x] == v@[j];
                if before.contains(v@[j]) {
                    assert(out@[x] == v@[j]);
                }
            }
        }
        i += 1;
    }
    proof {
        assert forall|m: Move| #[trigger] out@.contains(m) <==> v@.contains(m) by {
            if v@.contains(m) {
                let j = choose|j: int| 0 <= j < v@.len() && v@[j] == m;
                assert(out@.contains(v@[j]));
            }
            if out@.contains(m) {
                let k = choose|k: int| 0 <= k < out@.len() && out@[k] == m;
                assert(v@.contains(out@[k]));
            }
        }
    }
    out
}

/// The moves that the rules of movement allow to the side to move, castling
/// included, whether or not they leave the king safe, each once.
pub fn gen_pseudo_legal(board: &Board) -> (moves: Vec<Move>)
    ensures
        forall|m: Move| #[trigger] moves@.contains(m) <==> pseudo_legal(board@, m),
        distinct(moves@),
{
    let mut moves: Vec<Move> = Vec::new();
    let ghost st = board@;
    let ghost none = Seq::<Move>::empty();
    proof {
        lemma_added_none(none);
    }
    let mut s: usize = 0;
    while s < 128
        invariant
            s <= 128,
            st == board@,
            none.len() == 0,
            extends(none, moves@),
            forall|m: Move| #[trigger] added(none, moves@, m) <==> piece_move_below(st, s as int, m),
        decreases 128 - s,
    {
        let ghost before = moves@;
        gen_piece_moves(board, s, &mut moves);
        proof {
            lemma_added_chain(none, before, moves@);
        }
        s += 1;
    }
    let ghost before = moves@;
    gen_castling(board, &mut moves);
    proof {
        lemma_added_chain(none, before, moves@);
        assert forall|m: Move| #[trigger] moves@.contains(m) <==> pseudo_legal(st, m) by {
            if moves@.contains(m) {
                let i = choose|i: int| 0 <= i < moves@.len() && moves@[i] == m;
                assert(added(none, moves@, m));
            }
            if added(none, moves@, m) {
                let i = choose|i: int| 0 <= i < moves@.len() && #[trigger] moves@[i] == m;
                assert(moves@.contains(m));
            }
        }
    }
    without_repeats(&moves)
}

/// Whether the move leaves the mover's king safe. It is tried on a copy of
/// the board.
pub fn leaves_king_safe(board: &Board, m: Move) -> (b: bool)
    requires
        m.from < 128,
        m.to < 128,
    ensures
        b == king_safe_after(board@, m),
{
    let b2 = board.position_after(m.from, m.to, m.promotion);
    !is_king_attacked(&b2, board.white_to_move())
}

/// A legal move goes from a square of the board to a square of the board.
pub proof fn lemma_pseudo_legal_squares(st: BoardState, m: Move)
    requires
        pseudo_legal(st, m),
    ensures
        valid_square(m.from as int),
        valid_square(m.to as int),
{
    lemma_deltas();
    if piece_move_below(st, 128, m) {
        let s = m.from as int;
        let t = m.to as int;
        let w = st.side_white;
        if leaper_move(st.cells, w, s, KNIGHT_DELTAS@, m) {
            let i = choose|i: int| 0 <= i < 8 && #[trigger] step_target(st.cells, w, s, KNIGHT_DELTAS@, i, t);
        }
        if leaper_move(st.cells, w, s, KING_DELTAS@, m) {
            let i = choose|i: int| 0 <= i < 8 && #[trigger] step_target(st.cells, w, s, KING_DELTAS@, i, t);
        }
        if slider_move(st.cells, w, s, ROOK_DELTAS@, m) {
            let i = choose|i: int| 0 <= i < 4 && #[trigger] ray_move(st.cells, w, s, ROOK_DELTAS@[i] as int, m);
            let k = choose|k: int| #[trigger] ray_step(st.cells, w, s, ROOK_DELTAS@[i] as int, k, t);
        }
        if slider_move(st.cells, w, s, BISHOP_DELTAS@, m) {
            let i = choose|i: int| 0 <= i < 4 && #[trigger] ray_move(st.cells, w, s, BISHOP_DELTAS@[i] as int, m);
            let k = choose|k: int| #[trigger] ray_step(st.cells, w, s, BISHOP_DELTAS@[i] as int, k, t);
        }
    }
}

/// Replaces the contents of `moves` by the legal moves of the side to move:
/// every move that the rules of movement allow and that leaves the mover's
/// king safe, each once, and no other.
pub fn gen_moves(board: &Board, moves: &mut Vec<Move>)
    ensures
        forall|m: Move| #[trigger] final(moves)@.contains(m) <==> legal_move(board@, m),
        forall|i: int|
            0 <= i < final(moves)@.len() ==> king_safe_after(board@, #[trigger] final(moves)@[i]),
        forall|i: int, j: int|
            0 <= i < j < final(moves)@.len() ==> final(moves)@[i] != final(moves)@[j],
{
    let pseudo = gen_pseudo_legal(board);
    let ghost st = board@;
    let mut legal: Vec<Move> = Vec::new();
    let mut i: usize = 0;
    while i < pseudo.len()
        invariant
            i <= pseudo.len(),
            st == board@,
            forall|m: Move| #[trigger] pseudo@.contains(m) <==> pseudo_legal(st, m),
            forall|j: int| 0 <= j < legal@.len() ==> legal_move(st, #[trigger] legal@[j]),
            forall|j: int|
                0 <= j < i && king_safe_after(st, #[trigger] pseudo@[j]) ==> legal@.contains(
                    pseudo@[j],
                ),
            distinct(pseudo@),
            distinct(legal@),
            forall|k: int|
                0 <= k < legal@.len() ==> exists|j: int|
                    0 <= j < i && pseudo@[j] == #[trigger] legal@[k],
        decreases pseudo.len() - i,
    {
        let m = pseudo[i];
        proof {
            assert(pseudo@.contains(m));
            lemma_pseudo_legal_squares(st, m);
        }
        let ghost before = legal@;
        if leaves_king_safe(board, m) {
            legal.push(m);
            proof {
                assert(legal@[before.len() as int] == m);
                assert forall|a: int, b: int| 0 <= a < b < legal@.len() implies legal@[a]
                    != legal@[b] by {
                    if b == before.len() {
                        let j = choose|j: int| 0 <= j < i && pseudo@[j] == before[a];
                        assert(pseudo@[j] != pseudo@[i as int]);
                    } else {
                        assert(before[a] != before[b]);
                    }
                }
            }
        }
        proof {
            assert forall|k: int| 0 <= k < legal@.len() implies exists|j: int|
                0 <= j < i + 1 && pseudo@[j] == #[trigger] legal@[k] by {
                if k < before.len() {
                    let j = choose|j: int| 0 <= j < i && pseudo@[j] == before[k];
                    assert(pseudo@[j] == legal@[k]);
                } else {
                    assert(pseudo@[i as int] == legal@[k]);
                }
            }
        }
        proof {
            assert forall|j: int|
                0 <= j < i + 1 && king_safe_after(st, #[trigger] pseudo@[j]) implies legal@.contains(
                pseudo@[j],
            ) by {
                if j < i {
                    let x = choose|x: int| 0 <= x < before.len() && before[x] == pseudo@[j];
                    assert(legal@[x] == pseudo@[j]);
                }
            }
        }
        i += 1;
    }
    proof {
        assert forall|m: Move| #[trigger] legal@.contains(m) <==> legal_move(st, m) by {
            if legal_move(st, m) {
                assert(pseudo@.contains(m));
                let j = choose|j: int| 0 <= j < pseudo@.len() && pseudo@[j] == m;
                assert(king_safe_after(st, pseudo@[j]));
            }
        }
        assert forall|i: int| 0 <= i < legal@.len() implies king_safe_after(
            st,
            #[trigger] legal@[i],
        ) by {
            assert(legal_move(st, legal@[i]));
        }
    }
    *moves = legal;
}

} // verus!
