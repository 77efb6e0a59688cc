//! Squares of the 0x88 board and their algebraic names.

use vstd::prelude::*;

verus! {

/// A slot index of the 128-slot board; real squares have no bit of 0x88 set.
pub type Sq = usize;

/// The number of slots of the board array.
pub const BOARD_SIZE: usize = 128;

pub open spec fn spec_on_board(s: Sq) -> bool {
    s & 0x88 == 0
}

/// The rank (0 to 7 on the board) of a slot below 128.
pub open spec fn rank_of(s: Sq) -> int {
    s as int / 16
}

/// The file (0 to 7 on the board) of a slot.
pub open spec fn file_of(s: Sq) -> int {
    s as int % 16
}

/// The slot of a rank and a file.
pub open spec fn square_at(rank: int, file: int) -> int {
    rank * 16 + file
}

/// Below 256, a slot is a real square exactly when it is below 128 and its
/// file is below 8; shifting and masking give rank and file.
pub proof fn lemma_on_board(s: Sq)
    ensures
        s < 256 ==> (spec_on_board(s) <==> (s < 128 && file_of(s) < 8)),
        s >> 4 == s / 16,
        s & 15 == s % 16,
{
    assert(s < 256 ==> ((s & 0x88 == 0) <==> (s < 128 && s % 16 < 8))) by (bit_vector);
    assert(s >> 4 == s / 16) by (bit_vector);
    assert(s & 15 == s % 16) by (bit_vector);
}

#[verifier::when_used_as_spec(spec_on_board)]
pub fn on_board(s: Sq) -> (b: bool)
    ensures
        b == spec_on_board(s),
{
    (s & 0x88) == 0
}

pub fn sq(rank: i32, file: i32) -> (s: Sq)
    requires
        0 <= rank < 8,
        0 <= file < 8,
    ensures
        s == square_at(rank as int, file as int),
        spec_on_board(s),
        rank_of(s) == rank,
        file_of(s) == file,
{
    let r: usize = rank as usize;
    let f: usize = file as usize;
    assert(r < 8 && f < 8 ==> ((r << 4) | f) == r * 16 + f) by (bit_vector);
    let s: usize = (r << 4) | f;
    proof {
        lemma_on_board(s);
    }
    s
}

/// The rank of a slot: its index shifted right by four bits.
pub fn rank(s: Sq) -> (r: usize)
    ensures
        r == rank_of(s),
{
    proof {
        lemma_on_board(s);
    }
    s >> 4
}

/// The file of a slot: the low four bits of its index.
pub fn file(s: Sq) -> (f: usize)
    ensures
        f == file_of(s),
{
    proof {
        lemma_on_board(s);
    }
    s & 15
}

} // verus!
