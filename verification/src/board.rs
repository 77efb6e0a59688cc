//! The board: position, move counters, and the undo and redo stacks.
//!
//! The position is modelled by [`BoardState`]. Making, undoing and redoing a
//! move are spec functions on that model; the methods of [`Board`] are proved
//! to compute them.

use vstd::prelude::*;
use crate::piece::Piece;
use crate::square::{Sq, rank, rank_of};

verus! {

/// What is needed to take one move back, or to play it again.
///
/// On the undo stack the three `prev_` fields hold the values before the
/// move; on the redo stack they hold the values after it.
#[derive(Clone, Copy, Debug)]
pub struct Undo {
    pub mv_from: Sq,
    pub mv_to: Sq,
    /// The piece that moved, as it was before a promotion.
    pub moved_piece: Piece,
    /// The piece that left the board, wherever it stood.
    pub captured: Piece,
    pub prev_castling: u8,
    pub prev_ep: Option<Sq>,
    pub prev_halfmove: u32,
    pub promotion: Option<Piece>,
}

/// The mathematical model of a [`Board`].
pub struct BoardState {
    /// 128 slots; slot `16 * rank + file`.
    pub cells: Seq<Piece>,
    pub side_white: bool,
    /// Bit 0: white king side, bit 1: white queen side, bit 2: black king
    /// side, bit 3: black queen side.
    pub castling: u8,
    pub ep: Option<Sq>,
    pub halfmove_clock: u32,
    pub fullmove: u32,
    pub history: Seq<Undo>,
    pub redo_stack: Seq<Undo>,
}

#[derive(Clone)]
pub struct Board {
    pub cells: [Piece; 128],
    /// True if white is to move.
    pub side_white: bool,
    pub castling: u8,
    pub ep: Option<Sq>,
    pub halfmove_clock: u32,
    pub fullmove: u32,
    /// The moves that can be taken back, the last one at the end.
    pub history: Vec<Undo>,
    /// The moves that were taken back, the last one at the end.
    pub redo_stack: Vec<Undo>,
}

impl View for Board {
    type V = BoardState;

    open spec fn view(&self) -> BoardState {
        BoardState {
            cells: self.cells@,
            side_white: self.side_white,
            castling: self.castling,
            ep: self.ep,
            halfmove_clock: self.halfmove_clock,
            fullmove: self.fullmove,
            history: self.history@,
            redo_stack: self.redo_stack@,
        }
    }
}

/// The square on which an en passant capture removes a pawn, if the move is
/// one: a pawn that reaches the en passant target from its fifth rank.
pub open spec fn ep_capture_square(moved: Piece, ep: Option<Sq>, from: Sq, to: Sq) -> Option<Sq> {
    if moved == Piece::WP && ep == Some(to) && rank_of(from) == 4 && to >= 16 {
        Some((to - 16) as usize)
    } else if moved == Piece::BP && ep == Some(to) && rank_of(from) == 3 && to < 112 {
        Some((to + 16) as usize)
    } else {
        None
    }
}

/// The rook's journey in a castling move: where it leaves, where it lands,
/// and the rook itself. A king that goes two files from its home square
/// castles.
pub open spec fn castle_rook(moved: Piece, from: Sq, to: Sq) -> Option<(Sq, Sq, Piece)> {
    if moved == Piece::WK && from == 0x04 && to == 0x06 {
        Some((0x07usize, 0x05usize, Piece::WR))
    } else if moved == Piece::WK && from == 0x04 && to == 0x02 {
        Some((0x00usize, 0x03usize, Piece::WR))
    } else if moved == Piece::BK && from == 0x74 && to == 0x76 {
        Some((0x77usize, 0x75usize, Piece::BR))
    } else if moved == Piece::BK && from == 0x74 && to == 0x72 {
        Some((0x70usize, 0x73usize, Piece::BR))
    } else {
        None
    }
}

/// The piece that a move takes off the board (`Empty` if none).
pub open spec fn captured_by(cells: Seq<Piece>, ep: Option<Sq>, from: Sq, to: Sq) -> Piece {
    match ep_capture_square(cells[from as int], ep, from, to) {
        Some(c) => cells[c as int],
        None => cells[to as int],
    }
}

/// The pawn of the other colour.
pub open spec fn enemy_pawn(moved: Piece) -> Piece {
    if moved == Piece::WP {
        Piece::BP
    } else {
        Piece::WP
    }
}

/// The cells after a piece `moved` goes from `from` to `to`.
pub open spec fn cells_after_move(
    cells: Seq<Piece>,
    moved: Piece,
    ep: Option<Sq>,
    from: Sq,
    to: Sq,
    promotion: Option<Piece>,
) -> Seq<Piece> {
    let c1 = match ep_capture_square(moved, ep, from, to) {
        Some(c) => cells.update(c as int, Piece::Empty),
        None => cells,
    };
    let placed = match promotion {
        Some(p) => p,
        None => moved,
    };
    let c2 = c1.update(from as int, Piece::Empty).update(to as int, placed);
    match castle_rook(moved, from, to) {
        Some((rf, rt, r)) => c2.update(rf as int, Piece::Empty).update(rt as int, r),
        None => c2,
    }
}

/// The cells after the move of record `u` is taken back. A record that
/// names no slot of the board changes nothing.
pub open spec fn cells_after_undo(cells: Seq<Piece>, u: Undo) -> Seq<Piece> {
    if u.mv_from < 128 && u.mv_to < 128 {
        cells_restored(cells, u)
    } else {
        cells
    }
}

/// The cells after the move of a record between two slots of the board is
/// taken back: the piece that moved is back where it came from, what it
/// captured is back where it stood, and a castling rook is back in its
/// corner.
pub open spec fn cells_restored(cells: Seq<Piece>, u: Undo) -> Seq<Piece> {
    let c1 = cells.update(u.mv_from as int, u.moved_piece).update(u.mv_to as int, u.captured);
    let c2 = match ep_capture_square(u.moved_piece, u.prev_ep, u.mv_from, u.mv_to) {
        Some(c) => c1.update(c as int, enemy_pawn(u.moved_piece)).update(
            u.mv_to as int,
            Piece::Empty,
        ),
        None => c1,
    };
    match castle_rook(u.moved_piece, u.mv_from, u.mv_to) {
        Some((rf, rt, r)) => c2.update(rt as int, Piece::Empty).update(rf as int, r),
        None => c2,
    }
}

/// Castling rights with the bits of `mask` cleared.
pub open spec fn clear_rights(castling: u8, mask: u8) -> u8 {
    castling & !mask
}

/// The rights that a move takes away: both of a side when its king moves,
/// one when the move starts or ends on that rook's home square.
pub open spec fn rights_lost(moved: Piece, from: Sq, to: Sq) -> u8 {
    let k: u8 = if moved == Piece::WK {
        3
    } else if moved == Piece::BK {
        12
    } else {
        0
    };
    let a1: u8 = if from == 0x00 || to == 0x00 {
        2
    } else {
        0
    };
    let h1: u8 = if from == 0x07 || to == 0x07 {
        1
    } else {
        0
    };
    let a8: u8 = if from == 0x70 || to == 0x70 {
        8
    } else {
        0
    };
    let h8: u8 = if from == 0x77 || to == 0x77 {
        4
    } else {
        0
    };
    k | a1 | h1 | a8 | h8
}

pub open spec fn castling_after(castling: u8, moved: Piece, from: Sq, to: Sq) -> u8 {
    clear_rights(castling, rights_lost(moved, from, to))
}

/// The en passant target after a move: the skipped square of a pawn's
/// two-rank push, nothing otherwise.
pub open spec fn ep_after(moved: Piece, from: Sq, to: Sq) -> Option<Sq> {
    if moved == Piece::WP && rank_of(to) == rank_of(from) + 2 {
        Some((from + 16) as usize)
    } else if moved == Piece::BP && rank_of(from) == rank_of(to) + 2 {
        Some((from - 16) as usize)
    } else {
        None
    }
}

/// The halfmove clock after a move: zero after a pawn move or a capture.
pub open spec fn halfmove_after(clock: u32, moved: Piece, captured: Piece) -> int {
    if moved == Piece::WP || moved == Piece::BP || captured != Piece::Empty {
        0
    } else {
        clock + 1
    }
}

impl BoardState {
    /// The record that `make` pushes for a move.
    pub open spec fn record_of(self, from: Sq, to: Sq, promotion: Option<Piece>) -> Undo {
        Undo {
            mv_from: from,
            mv_to: to,
            moved_piece: self.cells[from as int],
            captured: captured_by(self.cells, self.ep, from, to),
            prev_castling: self.castling,
            prev_ep: self.ep,
            prev_halfmove: self.halfmove_clock,
            promotion,
        }
    }

    /// The state after a move from `from` to `to`.
    pub open spec fn make(self, from: Sq, to: Sq, promotion: Option<Piece>) -> BoardState {
        let moved = self.cells[from as int];
        BoardState {
            cells: cells_after_move(self.cells, moved, self.ep, from, to, promotion),
            side_white: !self.side_white,
            castling: castling_after(self.castling, moved, from, to),
            ep: ep_after(moved, from, to),
            halfmove_clock: halfmove_after(
                self.halfmove_clock,
                moved,
                captured_by(self.cells, self.ep, from, to),
            ) as u32,
            fullmove: if self.side_white {
                self.fullmove
            } else {
                (self.fullmove + 1) as u32
            },
            history: self.history.push(self.record_of(from, to, promotion)),
            redo_stack: Seq::empty(),
        }
    }

    /// The state after the last move is taken back; the state itself where
    /// there is none.
    pub open spec fn undo(self) -> BoardState {
        if self.history.len() == 0 {
            self
        } else {
            let u = self.history.last();
            BoardState {
                cells: cells_after_undo(self.cells, u),
                side_white: !self.side_white,
                castling: u.prev_castling,
                ep: u.prev_ep,
                halfmove_clock: u.prev_halfmove,
                fullmove: if self.side_white && self.fullmove > 0 {
                    (self.fullmove - 1) as u32
                } else {
                    self.fullmove
                },
                history: self.history.drop_last(),
                redo_stack: self.redo_stack.push(
                    Undo {
                        prev_castling: self.castling,
                        prev_ep: self.ep,
                        prev_halfmove: self.halfmove_clock,
                        ..u
                    },
                ),
            }
        }
    }

    /// The state after the move taken back last is played again; the state
    /// itself where there is none.
    pub open spec fn redo(self) -> BoardState {
        if self.redo_stack.len() == 0 {
            self
        } else {
            let u = self.redo_stack.last();
            BoardState {
                cells: if u.mv_from < 128 && u.mv_to < 128 {
                    cells_after_move(
                        self.cells,
                        u.moved_piece,
                        self.ep,
                        u.mv_from,
                        u.mv_to,
                        u.promotion,
                    )
                } else {
                    self.cells
                },
                side_white: !self.side_white,
                castling: u.prev_castling,
                ep: u.prev_ep,
                halfmove_clock: u.prev_halfmove,
                fullmove: if self.side_white {
                    self.fullmove
                } else {
                    (self.fullmove + 1) as u32
                },
                history: self.history.push(
                    Undo {
                        prev_castling: self.castling,
                        prev_ep: self.ep,
                        prev_halfmove: self.halfmove_clock,
                        ..u
                    },
                ),
                redo_stack: self.redo_stack.drop_last(),
            }
        }
    }

    /// The conditions on which taking the move back restores every cell: an
    /// en passant capture lands on an empty square and removes an enemy
    /// pawn; a castling king finds its rook at home and the squares it and
    /// the rook land on empty.
    pub open spec fn reversible(self, from: Sq, to: Sq) -> bool {
        let moved = self.cells[from as int];
        &&& self.cells.len() == 128
        &&& from < 128
        &&& to < 128
        &&& match ep_capture_square(moved, self.ep, from, to) {
            Some(c) => self.cells[to as int] == Piece::Empty && self.cells[c as int] == enemy_pawn(
                moved,
            ),
            None => true,
        }
        &&& match castle_rook(moved, from, to) {
            Some((rf, rt, r)) => self.cells[rf as int] == r && self.cells[rt as int]
                == Piece::Empty && self.cells[to as int] == Piece::Empty,
            None => true,
        }
    }

    /// The en passant target, where there is one, is the empty square that
    /// an enemy pawn has just skipped, and that pawn stands beyond it.
    pub open spec fn ep_consistent(self) -> bool {
        match self.ep {
            None => true,
            Some(e) => if self.side_white {
                e / 16 == 5 && e % 16 < 8 && self.cells[e as int] == Piece::Empty && self.cells[e
                    - 16] == Piece::BP
            } else {
                e / 16 == 2 && e % 16 < 8 && self.cells[e as int] == Piece::Empty && self.cells[e
                    + 16] == Piece::WP
            },
        }
    }

    /// Where a castling right is left, the rook stands on its home square.
    pub open spec fn rooks_at_home(self) -> bool {
        &&& self.castling & 1 != 0 ==> self.cells[0x07] == Piece::WR
        &&& self.castling & 2 != 0 ==> self.cells[0x00] == Piece::WR
        &&& self.castling & 4 != 0 ==> self.cells[0x77] == Piece::BR
        &&& self.castling & 8 != 0 ==> self.cells[0x70] == Piece::BR
    }

    /// The en passant target and the castling rights agree with the cells.
    pub open spec fn consistent(self) -> bool {
        self.cells.len() == 128 && self.ep_consistent() && self.rooks_at_home()
    }

    /// The state after `n` moves are taken back.
    pub open spec fn undo_n(self, n: nat) -> BoardState
        decreases n,
    {
        if n == 0 {
            self
        } else {
            self.undo().undo_n((n - 1) as nat)
        }
    }

    /// The same position and undo stack, whatever the redo stack holds.
    pub open spec fn same_game(self, other: BoardState) -> bool {
        &&& self.cells == other.cells
        &&& self.side_white == other.side_white
        &&& self.castling == other.castling
        &&& self.ep == other.ep
        &&& self.halfmove_clock == other.halfmove_clock
        &&& self.fullmove == other.fullmove
        &&& self.history == other.history
    }
}

/// Taking back a move that was just made restores the position, the
/// counters and the undo stack; the redo stack holds that one move.
pub proof fn lemma_undo_make(s: BoardState, from: Sq, to: Sq, promotion: Option<Piece>)
    requires
        s.reversible(from, to),
        s.halfmove_clock < u32::MAX,
        s.fullmove < u32::MAX,
    ensures
        s.make(from, to, promotion).undo().same_game(s),
        s.make(from, to, promotion).undo().redo_stack.len() == 1,
{
    let t = s.make(from, to, promotion);
    let u = s.record_of(from, to, promotion);
    assert(t.history.last() == u);
    assert(t.history.drop_last() =~= s.history);
    assert(cells_restored(t.cells, u) =~= s.cells);
}

/// Playing again a move that was made and taken back gives the state that
/// making it gave, stacks included.
pub proof fn lemma_redo_undo_make(s: BoardState, from: Sq, to: Sq, promotion: Option<Piece>)
    requires
        s.reversible(from, to),
        s.halfmove_clock < u32::MAX,
        s.fullmove < u32::MAX,
    ensures
        s.make(from, to, promotion).undo().redo() == s.make(from, to, promotion),
{
    let t = s.make(from, to, promotion);
    let u = s.record_of(from, to, promotion);
    lemma_undo_make(s, from, to, promotion);
    let b = t.undo();
    assert(t.history.last() == u);
    assert(b.redo_stack.last() == (Undo {
        prev_castling: t.castling,
        prev_ep: t.ep,
        prev_halfmove: t.halfmove_clock,
        ..u
    }));
    assert(b.redo().history =~= t.history);
    assert(b.redo().redo_stack =~= t.redo_stack);
    assert(b.redo().cells =~= t.cells);
}

/// What taking a move back leaves of the game does not depend on the redo
/// stack.
pub proof fn lemma_undo_n_same_game(a: BoardState, b: BoardState, n: nat)
    requires
        a.same_game(b),
    ensures
        a.undo_n(n).same_game(b.undo_n(n)),
    decreases n,
{
    if n > 0 {
        lemma_undo_n_same_game(a.undo(), b.undo(), (n - 1) as nat);
    }
}

/// The rights left after a move, computed with masks.
fn rights_after(castling: u8, moved: Piece, from: Sq, to: Sq) -> (r: u8)
    ensures
        r == castling_after(castling, moved, from, to),
{
    let mut lost: u8 = 0;
    if moved == Piece::WK {
        lost = 3;
    } else if moved == Piece::BK {
        lost = 12;
    }
    let a1: u8 = if from == 0x00 || to == 0x00 {
        2
    } else {
        0
    };
    let h1: u8 = if from == 0x07 || to == 0x07 {
        1
    } else {
        0
    };
    let a8: u8 = if from == 0x70 || to == 0x70 {
        8
    } else {
        0
    };
    let h8: u8 = if from == 0x77 || to == 0x77 {
        4
    } else {
        0
    };
    castling & !(lost | a1 | h1 | a8 | h8)
}

/// A copy of a stack of records.
fn copy_records(v: &Vec<Undo>) -> (r: Vec<Undo>)
    ensures
        r@ == v@,
{
    let mut r: Vec<Undo> = Vec::new();
    let mut i: usize = 0;
    while i < v.len()
        invariant
            i <= v.len(),
            r@ == v@.take(i as int),
        decreases v.len() - i,
    {
        r.push(v[i]);
        i += 1;
        assert(v@.take(i as int) == v@.take(i - 1).push(v@[i - 1]));
    }
    assert(v@.take(v.len() as int) == v@);
    r
}

impl Board {
    /// A board without pieces: white to move, no rights, move number one.
    pub fn empty() -> (b: Board)
        ensures
            b@.cells == Seq::new(128, |i: int| Piece::Empty),
            b@.side_white,
            b@.castling == 0,
            b@.ep == None::<Sq>,
            b@.halfmove_clock == 0,
            b@.fullmove == 1,
            b@.history == Seq::<Undo>::empty(),
            b@.redo_stack == Seq::<Undo>::empty(),
    {
        let b = Board {
            cells: [Piece::Empty;128],
            side_white: true,
            castling: 0,
            ep: None,
            halfmove_clock: 0,
            fullmove: 1,
            history: Vec::new(),
            redo_stack: Vec::new(),
        };
        assert(b@.cells =~= Seq::new(128, |i: int| Piece::Empty));
        b
    }

    /// A board has 128 slots.
    pub proof fn lemma_cells_len(&self)
        ensures
            self@.cells.len() == 128,
    {
    }

    pub fn white_to_move(&self) -> (b: bool)
        ensures
            b == self@.side_white,
    {
        self.side_white
    }

    pub fn castling_rights(&self) -> (c: u8)
        ensures
            c == self@.castling,
    {
        self.castling
    }

    pub fn ep_target(&self) -> (e: Option<Sq>)
        ensures
            e == self@.ep,
    {
        self.ep
    }

    pub fn halfmove(&self) -> (n: u32)
        ensures
            n == self@.halfmove_clock,
    {
        self.halfmove_clock
    }

    pub fn fullmove_number(&self) -> (n: u32)
        ensures
            n == self@.fullmove,
    {
        self.fullmove
    }

    /// The number of moves that can be taken back.
    pub fn history_len(&self) -> (n: usize)
        ensures
            n == self@.history.len(),
    {
        self.history.len()
    }

    /// The number of moves that can be played again.
    pub fn redo_len(&self) -> (n: usize)
        ensures
            n == self@.redo_stack.len(),
    {
        self.redo_stack.len()
    }

    pub fn piece_at(&self, s: Sq) -> (p: Piece)
        requires
            s < 128,
        ensures
            p == self@.cells[s as int],
    {
        self.cells[s]
    }

    pub fn set_side_to_move(&mut self, white: bool)
        ensures
            final(self)@ == (BoardState { side_white: white, ..old(self)@ }),
    {
        self.side_white = white
    }

    pub fn set_castling_rights(&mut self, castling: u8)
        ensures
            final(self)@ == (BoardState { castling, ..old(self)@ }),
    {
        self.castling = castling
    }

    pub fn set_ep_target(&mut self, ep: Option<Sq>)
        ensures
            final(self)@ == (BoardState { ep, ..old(self)@ }),
    {
        self.ep = ep
    }

    pub fn set_counters(&mut self, halfmove_clock: u32, fullmove: u32)
        ensures
            final(self)@ == (BoardState { halfmove_clock, fullmove, ..old(self)@ }),
    {
        self.halfmove_clock = halfmove_clock;
        self.fullmove = fullmove;
    }

    pub fn set_piece(&mut self, s: Sq, p: Piece)
        requires
            s < 128,
        ensures
            final(self)@ == (BoardState { cells: old(self)@.cells.update(s as int, p), ..old(self)@ }),
    {
        self.cells[s] = p
    }

    /// Plays a move without asking whether it is legal, and records it.
    pub fn make_move(&mut self, from: Sq, to: Sq, promotion: Option<Piece>)
        requires
            from < 128,
            to < 128,
            old(self)@.halfmove_clock < u32::MAX,
            old(self)@.fullmove < u32::MAX,
        ensures
            final(self)@ == old(self)@.make(from, to, promotion),
    {
        let prev_cast = self.castling;
        let prev_ep = self.ep;
        let prev_half = self.halfmove_clock;
        let moved_piece = self.cells[from];
        let mut actual_captured = self.cells[to];
        let ghost cells0 = self.cells@;

        if let Some(ep_sq) = self.ep {
            if moved_piece == Piece::WP && to == ep_sq && rank(from) == 4 && to >= 16 {
                let cap_sq = to - 16;
                actual_captured = self.cells[cap_sq];
                self.cells[cap_sq] = Piece::Empty;
            } else if moved_piece == Piece::BP && to == ep_sq && rank(from) == 3 && to < 112 {
                let cap_sq = to + 16;
                actual_captured = self.cells[cap_sq];
                self.cells[cap_sq] = Piece::Empty;
            }
        }
        self.cells[from] = Piece::Empty;
        let placed = match promotion {
            Some(p) => p,
            None => moved_piece,
        };
        self.cells[to] = placed;

        self.castling = rights_after(prev_cast, moved_piece, from, to);

        if moved_piece == Piece::WK && from == 0x04 && to == 0x06 {
            self.cells[0x07] = Piece::Empty;
            self.cells[0x05] = Piece::WR;
        } else if moved_piece == Piece::WK && from == 0x04 && to == 0x02 {
            self.cells[0x00] = Piece::Empty;
            self.cells[0x03] = Piece::WR;
        } else if moved_piece == Piece::BK && from == 0x74 && to == 0x76 {
            self.cells[0x77] = Piece::Empty;
            self.cells[0x75] = Piece::BR;
        } else if moved_piece == Piece::BK && from == 0x74 && to == 0x72 {
            self.cells[0x70] = Piece::Empty;
            self.cells[0x73] = Piece::BR;
        }
        assert(self.cells@ == cells_after_move(cells0, moved_piece, prev_ep, from, to, promotion));

        self.ep = None;
        if moved_piece == Piece::WP && rank(to) == rank(from) + 2 {
            self.ep = Some(from + 16);
        }
        if moved_piece == Piece::BP && rank(from) == rank(to) + 2 {
            self.ep = Some(from - 16);
        }
        if moved_piece == Piece::WP || moved_piece == Piece::BP || !actual_captured.is_empty() {
            self.halfmove_clock = 0
        } else {
            self.halfmove_clock += 1
        }
        if !self.side_white {
            self.fullmove += 1
        }
        self.side_white = !self.side_white;
        self.history.push(
            Undo {
                mv_from: from,
                mv_to: to,
                moved_piece,
                captured: actual_captured,
                prev_castling: prev_cast,
                prev_ep,
                prev_halfmove: prev_half,
                promotion,
            },
        );
        self.redo_stack.clear();
    }

    /// Puts the cells back as they were before the move of record `u`.
    fn restore_cells(&mut self, u: Undo)
        requires
            u.mv_from < 128,
            u.mv_to < 128,
        ensures
            final(self)@ == (BoardState { cells: cells_restored(old(self)@.cells, u), ..old(self)@ }),
    {
        self.cells[u.mv_from] = u.moved_piece;
        self.cells[u.mv_to] = u.captured;
        if let Some(ep_sq) = u.prev_ep {
            if u.moved_piece == Piece::WP && u.mv_to == ep_sq && rank(u.mv_from) == 4 && u.mv_to
                >= 16 {
                self.cells[u.mv_to - 16] = Piece::BP;
                self.cells[u.mv_to] = Piece::Empty;
            } else if u.moved_piece == Piece::BP && u.mv_to == ep_sq && rank(u.mv_from) == 3
                && u.mv_to < 112 {
                self.cells[u.mv_to + 16] = Piece::WP;
                self.cells[u.mv_to] = Piece::Empty;
            }
        }
        if u.moved_piece == Piece::WK && u.mv_from == 0x04 {
            if u.mv_to == 0x06 {
                self.cells[0x05] = Piece::Empty;
                self.cells[0x07] = Piece::WR;
            } else if u.mv_to == 0x02 {
                self.cells[0x03] = Piece::Empty;
                self.cells[0x00] = Piece::WR;
            }
        } else if u.moved_piece == Piece::BK && u.mv_from == 0x74 {
            if u.mv_to == 0x76 {
                self.cells[0x75] = Piece::Empty;
                self.cells[0x77] = Piece::BR;
            } else if u.mv_to == 0x72 {
                self.cells[0x73] = Piece::Empty;
                self.cells[0x70] = Piece::BR;
            }
        }
    }

    /// Moves the pieces as the move of record `u` does.
    fn replay_cells(&mut self, u: Undo)
        requires
            u.mv_from < 128,
            u.mv_to < 128,
        ensures
            final(self)@ == (BoardState {
                cells: cells_after_move(
                    old(self)@.cells,
                    u.moved_piece,
                    old(self)@.ep,
                    u.mv_from,
                    u.mv_to,
                    u.promotion,
                ),
                ..old(self)@
            }),
    {
        if let Some(ep_sq) = self.ep {
            if u.moved_piece == Piece::WP && u.mv_to == ep_sq && rank(u.mv_from) == 4 && u.mv_to
                >= 16 {
                self.cells[u.mv_to - 16] = Piece::Empty;
            } else if u.moved_piece == Piece::BP && u.mv_to == ep_sq && rank(u.mv_from) == 3
                && u.mv_to < 112 {
                self.cells[u.mv_to + 16] = Piece::Empty;
            }
        }
        self.cells[u.mv_from] = Piece::Empty;
        let placed = match u.promotion {
            Some(p) => p,
            None => u.moved_piece,
        };
        self.cells[u.mv_to] = placed;
        if u.moved_piece == Piece::WK && u.mv_from == 0x04 {
            if u.mv_to == 0x06 {
                self.cells[0x07] = Piece::Empty;
                self.cells[0x05] = Piece::WR;
            } else if u.mv_to == 0x02 {
                self.cells[0x00] = Piece::Empty;
                self.cells[0x03] = Piece::WR;
            }
        } else if u.moved_piece == Piece::BK && u.mv_from == 0x74 {
            if u.mv_to == 0x76 {
                self.cells[0x77] = Piece::Empty;
                self.cells[0x75] = Piece::BR;
            } else if u.mv_to == 0x72 {
                self.cells[0x70] = Piece::Empty;
                self.cells[0x73] = Piece::BR;
            }
        }
    }

    /// Takes the last move back and keeps it for `redo_move`; does nothing
    /// where no move was made.
    pub fn undo_move(&mut self)
        ensures
            final(self)@ == old(self)@.undo(),
    {
        if let Some(u) = self.history.pop() {
            self.redo_stack.push(
                Undo {
                    mv_from: u.mv_from,
                    mv_to: u.mv_to,
                    moved_piece: u.moved_piece,
                    captured: u.captured,
                    prev_castling: self.castling,
                    prev_ep: self.ep,
                    prev_halfmove: self.halfmove_clock,
                    promotion: u.promotion,
                },
            );
            if self.side_white {
                self.fullmove = self.fullmove.saturating_sub(1);
            }
            self.side_white = !self.side_white;
            let ghost cells0 = self.cells@;
            if u.mv_from < 128 && u.mv_to < 128 {
                self.restore_cells(u);
            }
            assert(self.cells@ == cells_after_undo(cells0, u));
            self.castling = u.prev_castling;
            self.ep = u.prev_ep;
            self.halfmove_clock = u.prev_halfmove;
        }
    }

    /// Plays again the move that `undo_move` took back last; does nothing
    /// where there is none.
    pub fn redo_move(&mut self)
        requires
            old(self)@.fullmove < u32::MAX,
        ensures
            final(self)@ == old(self)@.redo(),
    {
        if let Some(u) = self.redo_stack.pop() {
            self.history.push(
                Undo {
                    mv_from: u.mv_from,
                    mv_to: u.mv_to,
                    moved_piece: u.moved_piece,
                    captured: u.captured,
                    prev_castling: self.castling,
                    prev_ep: self.ep,
                    prev_halfmove: self.halfmove_clock,
                    promotion: u.promotion,
                },
            );
            if u.mv_from < 128 && u.mv_to < 128 {
                self.replay_cells(u);
            }
            self.castling = u.prev_castling;
            self.ep = u.prev_ep;
            self.halfmove_clock = u.prev_halfmove;
            if !self.side_white {
                self.fullmove += 1;
            }
            self.side_white = !self.side_white;
        }
    }

    /// Whether the en passant target and the castling rights agree with
    /// the cells.
    pub fn is_consistent(&self) -> (b: bool)
        ensures
            b == self@.consistent(),
    {
        let ep_ok = match self.ep {
            None => true,
            Some(e) => {
                if e / 16 == (if self.side_white { 5 } else { 2 }) && e % 16 < 8 {
                    if self.side_white {
                        self.cells[e] == Piece::Empty && self.cells[e - 16] == Piece::BP
                    } else {
                        self.cells[e] == Piece::Empty && self.cells[e + 16] == Piece::WP
                    }
                } else {
                    false
                }
            },
        };
        ep_ok && (self.castling & 1 == 0 || self.cells[0x07] == Piece::WR) && (self.castling & 2
            == 0 || self.cells[0x00] == Piece::WR) && (self.castling & 4 == 0 || self.cells[0x77]
            == Piece::BR) && (self.castling & 8 == 0 || self.cells[0x70] == Piece::BR)
    }

    /// A fresh board that holds the position after the move: the cells,
    /// the side to move, the rights and the en passant target that the move
    /// leads to, with new counters and empty stacks.
    pub fn position_after(&self, from: Sq, to: Sq, promotion: Option<Piece>) -> (b: Board)
        requires
            from < 128,
            to < 128,
        ensures
            b@.cells == self@.make(from, to, promotion).cells,
            b@.side_white == !self@.side_white,
            b@.castling == self@.make(from, to, promotion).castling,
            b@.ep == self@.make(from, to, promotion).ep,
            b@.history.len() == 1,
            b@.redo_stack.len() == 0,
    {
        let mut b = Board {
            cells: self.cells,
            side_white: self.side_white,
            castling: self.castling,
            ep: self.ep,
            halfmove_clock: 0,
            fullmove: 1,
            history: Vec::new(),
            redo_stack: Vec::new(),
        };
        b.make_move(from, to, promotion);
        b
    }

    /// A copy of the board on which the move has been played.
    pub fn make_move_clone(&self, from: Sq, to: Sq, promotion: Option<Piece>) -> (b: Board)
        requires
            from < 128,
            to < 128,
            self@.halfmove_clock < u32::MAX,
            self@.fullmove < u32::MAX,
        ensures
            b@ == self@.make(from, to, promotion),
    {
        let mut b = Board {
            cells: self.cells,
            side_white: self.side_white,
            castling: self.castling,
            ep: self.ep,
            halfmove_clock: self.halfmove_clock,
            fullmove: self.fullmove,
            history: copy_records(&self.history),
            redo_stack: copy_records(&self.redo_stack),
        };
        b.make_move(from, to, promotion);
        b
    }
}

} // verus!
