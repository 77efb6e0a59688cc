//! Zobrist keys: pseudo-random 64-bit numbers, drawn from a seeded
//! generator, whose XOR over what a position holds is the position's key.

use rand::rngs::StdRng;
use rand::{Rng, SeedableRng};
use vstd::bytes::{lemma_auto_spec_u64_to_from_le_bytes, spec_u64_to_le_bytes};
use vstd::prelude::*;
use crate::attack::valid_square;
use crate::bytes::{push_u64, read_u64, u64_at};
use crate::board::{Board, BoardState};
use crate::piece::Piece;
use crate::square::{Sq, lemma_on_board, on_board};

verus! {

/// The seeded generator of the `rand` crate, opaque to the proofs.
#[verifier::external_type_specification]
#[verifier::external_body]
pub struct ExStdRng(StdRng);

/// The `n`-th 64-bit number that a `StdRng` seeded with `seed` hands out.
pub uninterp spec fn seeded_u64(seed: u64, n: nat) -> u64;

/// The seed that a generator was made with.
pub uninterp spec fn rng_seed(rng: StdRng) -> u64;

/// How many 64-bit numbers a generator has handed out.
pub uninterp spec fn rng_drawn(rng: StdRng) -> nat;

/// `StdRng::seed_from_u64`: a generator that is a function of the seed
/// alone and has handed out nothing yet.
#[verifier::external_body]
fn rng_from_seed(seed: u64) -> (rng: StdRng)
    ensures
        rng_seed(rng) == seed,
        rng_drawn(rng) == 0,
{
    StdRng::seed_from_u64(seed)
}

/// `Rng::gen` at `u64`: the next number of the generator's stream, which
/// depends on the seed and on how many were drawn before, and on nothing
/// else.
#[verifier::external_body]
fn next_key(rng: &mut StdRng) -> (k: u64)
    ensures
        k == seeded_u64(rng_seed(*old(rng)), rng_drawn(*old(rng))),
        rng_seed(*final(rng)) == rng_seed(*old(rng)),
        rng_drawn(*final(rng)) == rng_drawn(*old(rng)) + 1,
{
    rng.gen()
}

/// Counters of how the keys were used.
#[derive(Clone, Copy, Debug)]
pub struct ZobristStats {
    pub hash_calls: u64,
    pub incremental_updates: u64,
    pub full_rehashes: u64,
    pub collisions_detected: u64,
    pub verifications: u64,
}

impl Default for ZobristStats {
    fn default() -> (s: ZobristStats)
        ensures
            s == ZobristStats::zero(),
    {
        ZobristStats {
            hash_calls: 0,
            incremental_updates: 0,
            full_rehashes: 0,
            collisions_detected: 0,
            verifications: 0,
        }
    }
}

impl ZobristStats {
    /// All counters at zero.
    pub open spec fn zero() -> ZobristStats {
        ZobristStats {
            hash_calls: 0,
            incremental_updates: 0,
            full_rehashes: 0,
            collisions_detected: 0,
            verifications: 0,
        }
    }
}

/// The mathematical model of a [`Zobrist`]: the key tables, the seed and
/// the counters.
pub struct ZobristState {
    /// One key for each slot and each of the twelve pieces.
    pub pieces: [[u64; 12]; 128],
    /// In the key of a position where white is to move.
    pub side: u64,
    /// One key for each combination of castling rights.
    pub castling: [u64; 16],
    /// One key for each file of an en passant target.
    pub ep_file: [u64; 8],
    /// One key for each square, for uses that tell en passant targets
    /// apart by square.
    pub ep_square: [u64; 128],
    pub seed: u64,
    pub stats: ZobristStats,
}

#[derive(Clone)]
pub struct Zobrist {
    pub pieces: [[u64; 12]; 128],
    pub side: u64,
    pub castling: [u64; 16],
    pub ep_file: [u64; 8],
    pub ep_square: [u64; 128],
    /// The seed that the keys were drawn from.
    pub seed: u64,
    /// Counters of how the keys were used.
    pub stats: ZobristStats,
}

impl View for Zobrist {
    type V = ZobristState;

    open spec fn view(&self) -> ZobristState {
        ZobristState {
            pieces: self.pieces,
            side: self.side,
            castling: self.castling,
            ep_file: self.ep_file,
            ep_square: self.ep_square,
            seed: self.seed,
            stats: self.stats,
        }
    }
}

/// The number of real squares among the slots below `sq`.
pub open spec fn squares_before(sq: int) -> int {
    8 * (sq / 16) + if sq % 16 < 8 {
        sq % 16
    } else {
        8
    }
}

/// The index of a piece in the key tables: white pawn, knight, bishop,
/// rook, queen, king, then black in the same order.
pub open spec fn spec_piece_index(piece: Piece) -> Option<usize> {
    match piece {
        Piece::WP => Some(0usize),
        Piece::WN => Some(1usize),
        Piece::WB => Some(2usize),
        Piece::WR => Some(3usize),
        Piece::WQ => Some(4usize),
        Piece::WK => Some(5usize),
        Piece::BP => Some(6usize),
        Piece::BN => Some(7usize),
        Piece::BB => Some(8usize),
        Piece::BR => Some(9usize),
        Piece::BQ => Some(10usize),
        Piece::BK => Some(11usize),
        Piece::Empty => None,
    }
}

impl ZobristState {
    /// The keys are the stream of the generator seeded with `seed`, in
    /// this order: twelve keys for each real square from a1 on, rank by
    /// rank; sixteen for the castling rights; eight for the en passant
    /// files; one for each real square again; one for the side. Slots off
    /// the board have the key zero.
    pub open spec fn drawn_from(self, seed: u64) -> bool {
        &&& self.seed == seed
        &&& forall|s: int, pc: int|
            0 <= s < 128 && 0 <= pc < 12 ==> #[trigger] self.pieces[s][pc] == (if valid_square(s) {
                seeded_u64(seed, (12 * squares_before(s) + pc) as nat)
            } else {
                0
            })
        &&& forall|i: int| 0 <= i < 16 ==> #[trigger] self.castling[i] == seeded_u64(seed, (768 + i) as nat)
        &&& forall|f: int| 0 <= f < 8 ==> #[trigger] self.ep_file[f] == seeded_u64(seed, (784 + f) as nat)
        &&& forall|s: int|
            0 <= s < 128 ==> #[trigger] self.ep_square[s] == (if valid_square(s) {
                seeded_u64(seed, (792 + squares_before(s)) as nat)
            } else {
                0
            })
        &&& self.side == seeded_u64(seed, 856)
    }

    /// The key of a piece on a slot; zero for the empty slot.
    pub open spec fn piece_key(self, sq: int, p: Piece) -> u64 {
        match spec_piece_index(p) {
            Some(i) => self.pieces[sq][i as int],
            None => 0,
        }
    }

    /// The XOR of the keys of the pieces on the real squares below `n`.
    pub open spec fn pieces_hash(self, cells: Seq<Piece>, n: int) -> u64
        decreases n,
    {
        if n <= 0 {
            0
        } else if valid_square(n - 1) {
            self.pieces_hash(cells, n - 1) ^ self.piece_key(n - 1, cells[n - 1])
        } else {
            self.pieces_hash(cells, n - 1)
        }
    }

    /// The key of an en passant target: that of its file, if the file is
    /// one of the board; zero where there is no target.
    pub open spec fn ep_key(self, ep: Option<Sq>) -> u64 {
        match ep {
            Some(e) => if e % 16 < 8 {
                self.ep_file[(e % 16) as int]
            } else {
                0
            },
            None => 0,
        }
    }

    /// The key of the side to move: the side key for white, zero for
    /// black.
    pub open spec fn side_key(self, white: bool) -> u64 {
        if white {
            self.side
        } else {
            0
        }
    }

    /// The key of a position: the XOR of the keys of its pieces, of its
    /// castling rights, of its en passant file and of the side to move.
    pub open spec fn hash(self, cells: Seq<Piece>, side_white: bool, castling: u8, ep: Option<Sq>) -> u64 {
        self.pieces_hash(cells, 128) ^ self.castling[castling as int] ^ self.ep_key(ep)
            ^ self.side_key(side_white)
    }

    /// The key of the position of a board.
    pub open spec fn hash_of(self, st: BoardState) -> u64 {
        self.hash(st.cells, st.side_white, st.castling, st.ep)
    }

    /// The XOR of the keys of the pieces `p` on the real squares below `n`.
    pub open spec fn piece_type_hash(self, cells: Seq<Piece>, p: Piece, n: int) -> u64
        decreases n,
    {
        if n <= 0 {
            0
        } else if valid_square(n - 1) && cells[n - 1] == p {
            self.piece_type_hash(cells, p, n - 1) ^ self.piece_key(n - 1, p)
        } else {
            self.piece_type_hash(cells, p, n - 1)
        }
    }

    /// The XOR of the keys of the pawns of both sides on the real squares
    /// below `n`.
    pub open spec fn pawn_hash(self, cells: Seq<Piece>, n: int) -> u64
        decreases n,
    {
        if n <= 0 {
            0
        } else if valid_square(n - 1) && (cells[n - 1] == Piece::WP || cells[n - 1] == Piece::BP) {
            self.pawn_hash(cells, n - 1) ^ self.piece_key(n - 1, cells[n - 1])
        } else {
            self.pawn_hash(cells, n - 1)
        }
    }

    pub open spec fn with_stats(self, stats: ZobristStats) -> ZobristState {
        ZobristState { stats, ..self }
    }

    /// The same keys, whatever the seed and the counters are.
    pub open spec fn same_tables(self, other: ZobristState) -> bool {
        &&& self.pieces == other.pieces
        &&& self.side == other.side
        &&& self.castling == other.castling
        &&& self.ep_file == other.ep_file
        &&& self.ep_square == other.ep_square
    }
}

/// The key of a position depends on the key tables alone.
pub proof fn lemma_hash_same_tables(a: ZobristState, b: ZobristState, st: BoardState)
    requires
        a.same_tables(b),
    ensures
        a.hash_of(st) == b.hash_of(st),
{
    lemma_pieces_hash_same_tables(a, b, st.cells, 128);
}

proof fn lemma_pieces_hash_same_tables(a: ZobristState, b: ZobristState, cells: Seq<Piece>, n: int)
    requires
        a.same_tables(b),
    ensures
        a.pieces_hash(cells, n) == b.pieces_hash(cells, n),
    decreases n,
{
    if n > 0 {
        lemma_pieces_hash_same_tables(a, b, cells, n - 1);
    }
}

impl Zobrist {
    /// The index of a piece in the key tables.
    pub fn piece_index(piece: Piece) -> (r: Option<usize>)
        ensures
            r == spec_piece_index(piece),
            r matches Some(i) ==> i < 12,
    {
        match piece {
            Piece::WP => Some(0),
            Piece::WN => Some(1),
            Piece::WB => Some(2),
            Piece::WR => Some(3),
            Piece::WQ => Some(4),
            Piece::WK => Some(5),
            Piece::BP => Some(6),
            Piece::BN => Some(7),
            Piece::BB => Some(8),
            Piece::BR => Some(9),
            Piece::BQ => Some(10),
            Piece::BK => Some(11),
            Piece::Empty => None,
        }
    }

    /// The two-letter name of the piece with the given index.
    pub fn piece_name(index: usize) -> (name: &'static str)
        ensures
            name@ == (if index == 0 {
                "WP"@
            } else if index == 1 {
                "WN"@
            } else if index == 2 {
                "WB"@
            } else if index == 3 {
                "WR"@
            } else if index == 4 {
                "WQ"@
            } else if index == 5 {
                "WK"@
            } else if index == 6 {
                "BP"@
            } else if index == 7 {
                "BN"@
            } else if index == 8 {
                "BB"@
            } else if index == 9 {
                "BR"@
            } else if index == 10 {
                "BQ"@
            } else if index == 11 {
                "BK"@
            } else {
                "??"@
            }),
    {
        match index {
            0 => "WP",
            1 => "WN",
            2 => "WB",
            3 => "WR",
            4 => "WQ",
            5 => "WK",
            6 => "BP",
            7 => "BN",
            8 => "BB",
            9 => "BR",
            10 => "BQ",
            11 => "BK",
            _ => "??",
        }
    }

    /// The keys of the default seed, 2024.
    pub fn new() -> (z: Zobrist)
        ensures
            z@.drawn_from(2024),
            z@.stats == ZobristStats::zero(),
    {
        Zobrist::with_seed(2024)
    }

    /// The keys of the seed that stands in for the Polyglot book keys.
    pub fn polyglot() -> (z: Zobrist)
        ensures
            z@.drawn_from(0x0123456789ABCDEF),
            z@.stats == ZobristStats::zero(),
    {
        Zobrist::with_seed(0x0123456789ABCDEF)
    }

    /// The keys drawn from the generator seeded with `seed`.
    pub fn with_seed(seed: u64) -> (z: Zobrist)
        ensures
            z@.drawn_from(seed),
            z@.stats == ZobristStats::zero(),
    {
        let mut rng = rng_from_seed(seed);
        let mut pieces = [[0u64;12];128];
        let mut s: usize = 0;
        while s < 128
            invariant
                s <= 128,
                rng_seed(rng) == seed,
                rng_drawn(rng) == 12 * squares_before(s as int),
                forall|t: int, pc: int|
                    0 <= t < 128 && 0 <= pc < 12 ==> #[trigger] pieces[t][pc] == (if t < s
                        && valid_square(t) {
                        seeded_u64(seed, (12 * squares_before(t) + pc) as nat)
                    } else {
                        0
                    }),
            decreases 128 - s,
        {
            proof {
                lemma_on_board(s);
            }
            if on_board(s) {
                let mut row = [0u64;12];
                let mut pc: usize = 0;
                while pc < 12
                    invariant
                        pc <= 12,
                        s < 128,
                        rng_seed(rng) == seed,
                        rng_drawn(rng) == 12 * squares_before(s as int) + pc,
                        forall|j: int|
                            0 <= j < 12 ==> #[trigger] row[j] == (if j < pc {
                                seeded_u64(seed, (12 * squares_before(s as int) + j) as nat)
                            } else {
                                0
                            }),
                    decreases 12 - pc,
                {
                    row[pc] = next_key(&mut rng);
                    pc += 1;
                }
                pieces[s] = row;
            }
            s += 1;
        }
        let mut castling = [0u64;16];
        let mut i: usize = 0;
        while i < 16
            invariant
                i <= 16,
                rng_seed(rng) == seed,
                rng_drawn(rng) == 768 + i,
                forall|j: int| 0 <= j < i ==> #[trigger] castling[j] == seeded_u64(seed, (768 + j) as nat),
            decreases 16 - i,
        {
            castling[i] = next_key(&mut rng);
            i += 1;
        }
        let mut ep_file = [0u64;8];
        let mut f: usize = 0;
        while f < 8
            invariant
                f <= 8,
                rng_seed(rng) == seed,
                rng_drawn(rng) == 784 + f,
                forall|j: int| 0 <= j < f ==> #[trigger] ep_file[j] == seeded_u64(seed, (784 + j) as nat),
            decreases 8 - f,
        {
            ep_file[f] = next_key(&mut rng);
            f += 1;
        }
        let mut ep_square = [0u64;128];
        let mut s: usize = 0;
        while s < 128
            invariant
                s <= 128,
                rng_seed(rng) == seed,
                rng_drawn(rng) == 792 + squares_before(s as int),
                forall|t: int|
                    0 <= t < 128 ==> #[trigger] ep_square[t] == (if t < s && valid_square(t) {
                        seeded_u64(seed, (792 + squares_before(t)) as nat)
                    } else {
                        0
                    }),
            decreases 128 - s,
        {
            proof {
                lemma_on_board(s);
            }
            if on_board(s) {
                ep_square[s] = next_key(&mut rng);
            }
            s += 1;
        }
        let side = next_key(&mut rng);
        Zobrist {
            pieces,
            side,
            castling,
            ep_file,
            ep_square,
            seed,
            stats: ZobristStats {
                hash_calls: 0,
                incremental_updates: 0,
                full_rehashes: 0,
                collisions_detected: 0,
                verifications: 0,
            },
        }
    }
}

/// XOR with zero changes nothing; XOR twice with the same number changes
/// nothing; XOR can be read in any order.
pub proof fn lemma_xor(a: u64, b: u64, c: u64)
    by (bit_vector)
    ensures
        a ^ 0 == a,
        0 ^ a == a,
        a ^ a == 0,
        (a ^ b) ^ b == a,
        a ^ b == b ^ a,
        (a ^ b) ^ c == a ^ (b ^ c),
{
}

/// The number of ones among the lowest `n` bits of `x`.
pub open spec fn ones_below(x: u64, n: int) -> int
    decreases n,
{
    if n <= 0 {
        0
    } else {
        ones_below(x, n - 1) + ((x >> ((n - 1) as u64)) & 1) as int
    }
}

/// The number of pieces with table index `idx` on the real squares below
/// `n`.
pub open spec fn count_of(cells: Seq<Piece>, idx: int, n: int) -> int
    decreases n,
{
    if n <= 0 {
        0
    } else if valid_square(n - 1) && spec_piece_index(cells[n - 1]) == Some(idx as usize) {
        count_of(cells, idx, n - 1) + 1
    } else {
        count_of(cells, idx, n - 1)
    }
}

proof fn lemma_count_bound(cells: Seq<Piece>, idx: int, n: int)
    requires
        0 <= n <= 128,
    ensures
        0 <= count_of(cells, idx, n) <= squares_before(n),
    decreases n,
{
    if n > 0 {
        lemma_count_bound(cells, idx, n - 1);
    }
}

impl ZobristState {
    /// What the pieces with table index `idx` add to the material key:
    /// nothing if their number is even, else the key in row `idx`, column
    /// `idx` of the piece table times their number, cut to 64 bits.
    pub open spec fn material_term(self, cells: Seq<Piece>, idx: int) -> u64 {
        let c = count_of(cells, idx, 128);
        if c % 2 == 1 {
            self.pieces[idx][idx].wrapping_mul(c as u64)
        } else {
            0
        }
    }

    /// The XOR of the material terms of the pieces with index below `k`.
    pub open spec fn material_upto(self, cells: Seq<Piece>, k: int) -> u64
        decreases k,
    {
        if k <= 0 {
            0
        } else {
            self.material_upto(cells, k - 1) ^ self.material_term(cells, k - 1)
        }
    }

    /// The key after a move of `piece` from `from` to `to`: the key of the
    /// piece on `from` out, the key of what stood on `to` out, the key of
    /// the piece, or of what it became, on `to` in, and the side key
    /// toggled.
    pub open spec fn update_move(
        self,
        hash: u64,
        from: Sq,
        to: Sq,
        piece: Piece,
        captured: Option<Piece>,
        promotion: Option<Piece>,
    ) -> u64 {
        let cap = match captured {
            Some(c) => c,
            None => Piece::Empty,
        };
        let placed = match promotion {
            Some(p) => p,
            None => piece,
        };
        hash ^ self.piece_key(from as int, piece) ^ self.piece_key(to as int, cap) ^ self.piece_key(
            to as int,
            placed,
        ) ^ self.side
    }

    /// The key after the castling rights change.
    pub open spec fn update_castling(self, hash: u64, old_rights: u8, new_rights: u8) -> u64 {
        hash ^ self.castling[old_rights as int] ^ self.castling[new_rights as int]
    }

    /// The key after the en passant target changes.
    pub open spec fn update_ep(self, hash: u64, old_ep: Option<Sq>, new_ep: Option<Sq>) -> u64 {
        hash ^ self.ep_key(old_ep) ^ self.ep_key(new_ep)
    }
}

/// The number of ones in the binary form of `x`.
pub fn count_ones(x: u64) -> (n: u32)
    ensures
        n == ones_below(x, 64),
        n <= 64,
{
    let mut n: u32 = 0;
    let mut i: u32 = 0;
    while i < 64
        invariant
            i <= 64,
            n == ones_below(x, i as int),
            n <= i,
        decreases 64 - i,
    {
        let bit = (x >> (i as u64)) & 1;
        assert(bit <= 1) by (bit_vector)
            requires
                bit == (x >> (i as u64)) & 1,
        ;
        n = n + bit as u32;
        i += 1;
    }
    n
}

impl Zobrist {
    /// The key of `p` on slot `sq`; zero for the empty slot.
    fn key_of(&self, sq: Sq, p: Piece) -> (k: u64)
        requires
            sq < 128,
        ensures
            k == self@.piece_key(sq as int, p),
    {
        match Zobrist::piece_index(p) {
            Some(idx) => self.pieces[sq][idx],
            None => 0,
        }
    }

    /// The key of an en passant target.
    fn key_of_ep(&self, ep: Option<Sq>) -> (k: u64)
        ensures
            k == self@.ep_key(ep),
    {
        match ep {
            Some(e) => {
                proof {
                    lemma_on_board(e);
                }
                let file = e & 15;
                if file < 8 {
                    self.ep_file[file]
                } else {
                    0
                }
            },
            None => 0,
        }
    }

    /// The XOR of the keys of all pieces on the board.
    pub fn pieces_hash(&self, board: &Board) -> (h: u64)
        ensures
            h == self@.pieces_hash(board@.cells, 128),
    {
        let mut h: u64 = 0;
        let mut sq: usize = 0;
        while sq < 128
            invariant
                sq <= 128,
                h == self@.pieces_hash(board@.cells, sq as int),
            decreases 128 - sq,
        {
            proof {
                lemma_on_board(sq);
            }
            if on_board(sq) {
                let k = self.key_of(sq, board.piece_at(sq));
                h = h ^ k;
            }
            sq += 1;
        }
        h
    }

    /// The key of the position, computed from scratch without counting
    /// the call.
    pub fn hash_board_quiet(&self, board: &Board) -> (h: u64)
        requires
            board@.castling < 16,
        ensures
            h == self@.hash_of(board@),
    {
        let mut h: u64 = self.pieces_hash(board);
        h = h ^ self.castling[board.castling_rights() as usize];
        h = h ^ self.key_of_ep(board.ep_target());
        let side_key = if board.white_to_move() { self.side } else { 0 };
        h ^ side_key
    }

    /// The key of the position, computed from scratch. The call is counted
    /// as a hash call and as a full rehash; the counters wrap around.
    pub fn hash_board(&mut self, board: &Board) -> (h: u64)
        requires
            board@.castling < 16,
        ensures
            h == old(self)@.hash_of(board@),
            final(self)@ == old(self)@.with_stats(
                ZobristStats {
                    hash_calls: old(self)@.stats.hash_calls.wrapping_add(1),
                    full_rehashes: old(self)@.stats.full_rehashes.wrapping_add(1),
                    ..old(self)@.stats
                },
            ),
    {
        let h = self.hash_board_quiet(board);
        self.stats.hash_calls = self.stats.hash_calls.wrapping_add(1);
        self.stats.full_rehashes = self.stats.full_rehashes.wrapping_add(1);
        h
    }

    /// The key after a move, from the key before it: see
    /// [`ZobristState::update_move`]. The call is counted as an incremental
    /// update; the counter wraps around.
    pub fn update_move(
        &mut self,
        current_hash: u64,
        from: Sq,
        to: Sq,
        piece: Piece,
        captured: Option<Piece>,
        promotion: Option<Piece>,
    ) -> (h: u64)
        requires
            from < 128,
            to < 128,
        ensures
            h == old(self)@.update_move(current_hash, from, to, piece, captured, promotion),
            final(self)@ == old(self)@.with_stats(
                ZobristStats {
                    incremental_updates: old(self)@.stats.incremental_updates.wrapping_add(1),
                    ..old(self)@.stats
                },
            ),
    {
        self.stats.incremental_updates = self.stats.incremental_updates.wrapping_add(1);
        let mut h = current_hash;
        h = h ^ self.key_of(from, piece);
        let cap = match captured {
            Some(c) => c,
            None => Piece::Empty,
        };
        h = h ^ self.key_of(to, cap);
        let placed = match promotion {
            Some(p) => p,
            None => piece,
        };
        h = h ^ self.key_of(to, placed);
        h ^ self.side
    }

    /// The key after the castling rights change from `old_rights` to
    /// `new_rights`.
    pub fn update_castling(&self, current_hash: u64, old_rights: u8, new_rights: u8) -> (h: u64)
        requires
            old_rights < 16,
            new_rights < 16,
        ensures
            h == self@.update_castling(current_hash, old_rights, new_rights),
    {
        let mut h = current_hash;
        h = h ^ self.castling[old_rights as usize];
        h = h ^ self.castling[new_rights as usize];
        h
    }

    /// The key after the en passant target changes from `old_ep` to
    /// `new_ep`.
    pub fn update_ep(&self, current_hash: u64, old_ep: Option<Sq>, new_ep: Option<Sq>) -> (h: u64)
        ensures
            h == self@.update_ep(current_hash, old_ep, new_ep),
    {
        let mut h = current_hash;
        h = h ^ self.key_of_ep(old_ep);
        h = h ^ self.key_of_ep(new_ep);
        h
    }

    /// The key with the side to move toggled.
    pub fn toggle_side(&self, current_hash: u64) -> (h: u64)
        ensures
            h == current_hash ^ self@.side,
    {
        current_hash ^ self.side
    }

    /// The XOR of the keys of all pawns.
    pub fn pawn_hash(&self, board: &Board) -> (h: u64)
        ensures
            h == self@.pawn_hash(board@.cells, 128),
    {
        let mut h: u64 = 0;
        let mut sq: usize = 0;
        while sq < 128
            invariant
                sq <= 128,
                h == self@.pawn_hash(board@.cells, sq as int),
            decreases 128 - sq,
        {
            proof {
                lemma_on_board(sq);
            }
            if on_board(sq) {
                let piece = board.piece_at(sq);
                match piece {
                    Piece::WP => {
                        h = h ^ self.pieces[sq][0];
                    },
                    Piece::BP => {
                        h = h ^ self.pieces[sq][6];
                    },
                    _ => {},
                }
            }
            sq += 1;
        }
        h
    }

    /// A key of the material on the board: it depends on how many pieces
    /// of each kind there are, and not on where they stand.
    pub fn material_hash(&self, board: &Board) -> (h: u64)
        ensures
            h == self@.material_upto(board@.cells, 12),
    {
        let ghost cells = board@.cells;
        let mut h: u64 = 0;
        let mut idx: usize = 0;
        while idx < 12
            invariant
                idx <= 12,
                cells == board@.cells,
                h == self@.material_upto(cells, idx as int),
            decreases 12 - idx,
        {
            let mut count: u8 = 0;
            let mut sq: usize = 0;
            while sq < 128
                invariant
                    sq <= 128,
                    idx < 12,
                    cells == board@.cells,
                    count == count_of(cells, idx as int, sq as int),
                    count <= squares_before(sq as int),
                decreases 128 - sq,
            {
                proof {
                    lemma_on_board(sq);
                }
                if on_board(sq) {
                    if let Some(i) = Zobrist::piece_index(board.piece_at(sq)) {
                        if i == idx {
                            count = count + 1;
                        }
                    }
                }
                sq += 1;
            }
            let v = self.pieces[idx][idx].wrapping_mul(count as u64);
            let ghost base = h;
            let mut j: u8 = 0;
            while j < count
                invariant
                    j <= count,
                    h == (if j % 2 == 1 {
                        base ^ v
                    } else {
                        base
                    }),
                decreases count - j,
            {
                proof {
                    lemma_xor(base, v, 0);
                }
                h = h ^ v;
                j = j + 1;
            }
            proof {
                lemma_xor(base, v, 0);
            }
            idx += 1;
        }
        h
    }

    /// The XOR of the keys of the pieces `piece` on the board; zero for
    /// `Empty`.
    pub fn piece_type_hash(&self, board: &Board, piece: Piece) -> (h: u64)
        ensures
            h == (if piece == Piece::Empty {
                0
            } else {
                self@.piece_type_hash(board@.cells, piece, 128)
            }),
    {
        let mut h: u64 = 0;
        if let Some(idx) = Zobrist::piece_index(piece) {
            let mut sq: usize = 0;
            while sq < 128
                invariant
                    sq <= 128,
                    idx < 12,
                    spec_piece_index(piece) == Some(idx),
                    h == self@.piece_type_hash(board@.cells, piece, sq as int),
                decreases 128 - sq,
            {
                proof {
                    lemma_on_board(sq);
                }
                if on_board(sq) {
                    if board.piece_at(sq) == piece {
                        h = h ^ self.pieces[sq][idx];
                    }
                }
                sq += 1;
            }
        }
        h
    }

    /// Whether a key computed step by step equals the key computed from
    /// scratch. The call is counted as a verification, and as a collision
    /// if the keys differ; the counters wrap around.
    pub fn verify_hash(&mut self, board: &Board, incremental_hash: u64) -> (matches: bool)
        requires
            board@.castling < 16,
        ensures
            matches == (incremental_hash == old(self)@.hash_of(board@)),
            final(self)@ == old(self)@.with_stats(
                ZobristStats {
                    verifications: old(self)@.stats.verifications.wrapping_add(1),
                    collisions_detected: if matches {
                        old(self)@.stats.collisions_detected
                    } else {
                        old(self)@.stats.collisions_detected.wrapping_add(1)
                    },
                    ..old(self)@.stats
                },
            ),
    {
        let full_hash = self.hash_board_quiet(board);
        self.stats.verifications = self.stats.verifications.wrapping_add(1);
        let matches = full_hash == incremental_hash;
        if !matches {
            self.stats.collisions_detected = self.stats.collisions_detected.wrapping_add(1);
        }
        matches
    }

    /// Whether a key looks degenerate: zero, all ones, or with fewer than
    /// 16 or more than 48 bits set.
    pub fn is_suspicious_hash(&self, hash: u64) -> (b: bool)
        ensures
            b == (hash == 0 || hash == u64::MAX || ones_below(hash, 64) < 16 || ones_below(hash, 64)
                > 48),
    {
        if hash == 0 || hash == u64::MAX {
            return true;
        }
        let bits_set = count_ones(hash);
        if bits_set < 16 || bits_set > 48 {
            return true;
        }
        false
    }

    /// The seed that the keys were drawn from.
    pub fn seed(&self) -> (s: u64)
        ensures
            s == self@.seed,
    {
        self.seed
    }

    /// The counters.
    pub fn stats(&self) -> (s: &ZobristStats)
        ensures
            *s == self@.stats,
    {
        &self.stats
    }

    /// Sets every counter to zero.
    pub fn reset_stats(&mut self)
        ensures
            final(self)@ == old(self)@.with_stats(ZobristStats::zero()),
    {
        self.stats = ZobristStats {
            hash_calls: 0,
            incremental_updates: 0,
            full_rehashes: 0,
            collisions_detected: 0,
            verifications: 0,
        };
    }
}

/// The key of a position depends on its cells, the side to move, the
/// castling rights and the en passant target, and on nothing else: two
/// states that agree on these have the same key, whatever their counters
/// and stacks hold.
pub proof fn law_hash_of_position(keys: ZobristState, a: BoardState, b: BoardState)
    requires
        a.cells == b.cells,
        a.side_white == b.side_white,
        a.castling == b.castling,
        a.ep == b.ep,
    ensures
        keys.hash_of(a) == keys.hash_of(b),
{
}

/// Keys drawn from the same seed are the same keys.
pub proof fn law_same_seed_same_keys(a: ZobristState, b: ZobristState, seed: u64)
    requires
        a.drawn_from(seed),
        b.drawn_from(seed),
    ensures
        a.pieces == b.pieces,
        a.side == b.side,
        a.castling == b.castling,
        a.ep_file == b.ep_file,
        a.ep_square == b.ep_square,
        a.seed == b.seed,
{
    assert(a.castling =~= b.castling);
    assert(a.ep_file =~= b.ep_file);
    assert(a.ep_square =~= b.ep_square);
    assert forall|s: int| 0 <= s < 128 implies a.pieces[s] == b.pieces[s] by {
        assert forall|pc: int| 0 <= pc < 12 implies a.pieces[s][pc] == b.pieces[s][pc] by {}
        assert(a.pieces[s] =~= b.pieces[s]);
    }
    assert(a.pieces =~= b.pieces);
}

// -------------------------------------------------------------- persistence

/// The number of 64-bit words of stored keys: the seed, 128 times 12 piece
/// keys, the side key, 16 castling keys, 8 file keys and 128 square keys.
pub const KEY_WORDS: usize = 1690;

/// The number of bytes of stored keys.
pub const KEY_BYTES: usize = 13520;

/// Why stored keys were not loaded.
#[derive(Clone, Copy, Debug, PartialEq, Eq, Structural)]
pub enum KeysLoadError {
    /// The bytes end before the keys do.
    Truncated,
}

impl ZobristState {
    /// The `k`-th word of the stored keys: the seed; the piece keys, slot
    /// by slot; the side key; the castling keys; the file keys; the square
    /// keys.
    pub open spec fn word(self, k: int) -> u64 {
        if k == 0 {
            self.seed
        } else if k < 1537 {
            self.pieces[(k - 1) / 12][(k - 1) % 12]
        } else if k == 1537 {
            self.side
        } else if k < 1554 {
            self.castling[k - 1538]
        } else if k < 1562 {
            self.ep_file[k - 1554]
        } else {
            self.ep_square[k - 1562]
        }
    }

    /// The bytes of the first `n` words, each in little-endian order.
    pub open spec fn words_bytes(self, n: int) -> Seq<u8>
        decreases n,
    {
        if n <= 0 {
            Seq::empty()
        } else {
            self.words_bytes(n - 1) + spec_u64_to_le_bytes(self.word(n - 1))
        }
    }

    /// The bytes of the stored keys.
    pub open spec fn to_bytes(self) -> Seq<u8> {
        self.words_bytes(1690)
    }

    /// The keys are those that the bytes hold, word by word, and the
    /// counters are at zero.
    pub open spec fn read_from(self, bytes: Seq<u8>) -> bool {
        &&& forall|k: int| 0 <= k < 1690 ==> #[trigger] self.word(k) == u64_at(bytes, 8 * k)
        &&& self.stats == ZobristStats::zero()
    }
}

/// The bytes of `n` words are 8 times `n` long, and word `k` is read back
/// at 8 times `k`.
pub proof fn lemma_words_layout(z: ZobristState, n: int, k: int, tail: Seq<u8>)
    requires
        0 <= k < n,
    ensures
        z.words_bytes(n).len() == 8 * n,
        u64_at(z.words_bytes(n) + tail, 8 * k) == z.word(k),
    decreases n,
{
    lemma_auto_spec_u64_to_from_le_bytes();
    lemma_words_len(z, n - 1);
    let init = z.words_bytes(n - 1);
    let last = spec_u64_to_le_bytes(z.word(n - 1));
    if k == n - 1 {
        assert((init + last + tail).subrange(8 * k, 8 * k + 8) =~= last);
    } else {
        lemma_words_layout(z, n - 1, k, last + tail);
        assert(init + (last + tail) =~= init + last + tail);
    }
}

proof fn lemma_words_len(z: ZobristState, n: int)
    requires
        0 <= n,
    ensures
        z.words_bytes(n).len() == 8 * n,
    decreases n,
{
    lemma_auto_spec_u64_to_from_le_bytes();
    if n > 0 {
        lemma_words_len(z, n - 1);
    }
}

/// Keys are loaded back from their bytes.
pub proof fn law_keys_bytes_round_trip(z: ZobristState, back: ZobristState)
    requires
        back.read_from(z.to_bytes()),
    ensures
        z.to_bytes().len() == 13520,
        back.seed == z.seed,
        back.pieces == z.pieces,
        back.side == z.side,
        back.castling == z.castling,
        back.ep_file == z.ep_file,
        back.ep_square == z.ep_square,
{
    let bytes = z.to_bytes();
    lemma_words_len(z, 1690);
    assert forall|k: int| 0 <= k < 1690 implies back.word(k) == z.word(k) by {
        lemma_words_layout(z, 1690, k, Seq::empty());
        assert(z.words_bytes(1690) + Seq::<u8>::empty() =~= bytes);
    }
    assert(back.word(0) == z.word(0));
    assert(back.word(1537) == z.word(1537));
    assert forall|i: int| 0 <= i < 16 implies back.castling[i] == z.castling[i] by {
        assert(back.word(1538 + i) == z.word(1538 + i));
    }
    assert(back.castling =~= z.castling);
    assert forall|i: int| 0 <= i < 8 implies back.ep_file[i] == z.ep_file[i] by {
        assert(back.word(1554 + i) == z.word(1554 + i));
    }
    assert(back.ep_file =~= z.ep_file);
    assert forall|i: int| 0 <= i < 128 implies back.ep_square[i] == z.ep_square[i] by {
        assert(back.word(1562 + i) == z.word(1562 + i));
    }
    assert(back.ep_square =~= z.ep_square);
    assert forall|s: int| 0 <= s < 128 implies back.pieces[s] == z.pieces[s] by {
        assert forall|pc: int| 0 <= pc < 12 implies back.pieces[s][pc] == z.pieces[s][pc] by {
            assert(back.word(1 + 12 * s + pc) == z.word(1 + 12 * s + pc));
        }
        assert(back.pieces[s] =~= z.pieces[s]);
    }
    assert(back.pieces =~= z.pieces);
}

impl Zobrist {
    /// The bytes of the keys in their stored form.
    pub fn to_bytes(&self) -> (out: Vec<u8>)
        ensures
            out@ == self@.to_bytes(),
    {
        let ghost z = self@;
        let mut out: Vec<u8> = Vec::new();
        assert(out@ =~= z.words_bytes(0));
        push_u64(&mut out, self.seed);
        assert(out@ =~= z.words_bytes(1));
        let mut sq: usize = 0;
        while sq < 128
            invariant
                sq <= 128,
                z == self@,
                out@ == z.words_bytes(1 + 12 * sq),
            decreases 128 - sq,
        {
            let mut pc: usize = 0;
            while pc < 12
                invariant
                    pc <= 12,
                    sq < 128,
                    z == self@,
                    out@ == z.words_bytes(1 + 12 * sq + pc),
                decreases 12 - pc,
            {
                push_u64(&mut out, self.pieces[sq][pc]);
                pc += 1;
            }
            sq += 1;
        }
        push_u64(&mut out, self.side);
        assert(out@ =~= z.words_bytes(1538));
        let mut i: usize = 0;
        while i < 16
            invariant
                i <= 16,
                z == self@,
                out@ == z.words_bytes(1538 + i),
            decreases 16 - i,
        {
            push_u64(&mut out, self.castling[i]);
            i += 1;
        }
        let mut i: usize = 0;
        while i < 8
            invariant
                i <= 8,
                z == self@,
                out@ == z.words_bytes(1554 + i),
            decreases 8 - i,
        {
            push_u64(&mut out, self.ep_file[i]);
            i += 1;
        }
        let mut i: usize = 0;
        while i < 128
            invariant
                i <= 128,
                z == self@,
                out@ == z.words_bytes(1562 + i),
            decreases 128 - i,
        {
            push_u64(&mut out, self.ep_square[i]);
            i += 1;
        }
        out
    }

    /// The keys that stored bytes hold, with counters at zero; an error if
    /// there are fewer than 13520 bytes. Bytes beyond are not read.
    pub fn from_bytes(bytes: &[u8]) -> (r: Result<Zobrist, KeysLoadError>)
        ensures
            match r {
                Ok(z) => bytes@.len() >= 13520 && z@.read_from(bytes@),
                Err(e) => bytes@.len() < 13520 && e == KeysLoadError::Truncated,
            },
    {
        if bytes.len() < KEY_BYTES {
            return Err(KeysLoadError::Truncated);
        }
        let seed = read_u64(bytes, 0);
        let mut pieces = [[0u64;12];128];
        let mut sq: usize = 0;
        while sq < 128
            invariant
                sq <= 128,
                bytes@.len() >= 13520,
                forall|s: int, pc: int|
                    0 <= s < sq && 0 <= pc < 12 ==> #[trigger] pieces[s][pc] == u64_at(
                        bytes@,
                        8 * (1 + 12 * s + pc),
                    ),
            decreases 128 - sq,
        {
            let mut row = [0u64;12];
            let mut pc: usize = 0;
            while pc < 12
                invariant
                    pc <= 12,
                    sq < 128,
                    bytes@.len() >= 13520,
                    forall|j: int|
                        0 <= j < pc ==> #[trigger] row[j] == u64_at(bytes@, 8 * (1 + 12 * sq + j)),
                decreases 12 - pc,
            {
                row[pc] = read_u64(bytes, 8 * (1 + 12 * sq + pc));
                pc += 1;
            }
            pieces[sq] = row;
            sq += 1;
        }
        let side = read_u64(bytes, 8 * 1537);
        let mut castling = [0u64;16];
        let mut i: usize = 0;
        while i < 16
            invariant
                i <= 16,
                bytes@.len() >= 13520,
                forall|j: int| 0 <= j < i ==> #[trigger] castling[j] == u64_at(bytes@, 8 * (1538 + j)),
            decreases 16 - i,
        {
            castling[i] = read_u64(bytes, 8 * (1538 + i));
            i += 1;
        }
        let mut ep_file = [0u64;8];
        let mut i: usize = 0;
        while i < 8
            invariant
                i <= 8,
                bytes@.len() >= 13520,
                forall|j: int| 0 <= j < i ==> #[trigger] ep_file[j] == u64_at(bytes@, 8 * (1554 + j)),
            decreases 8 - i,
        {
            ep_file[i] = read_u64(bytes, 8 * (1554 + i));
            i += 1;
        }
        let mut ep_square = [0u64;128];
        let mut i: usize = 0;
        while i < 128
            invariant
                i <= 128,
                bytes@.len() >= 13520,
                forall|j: int|
                    0 <= j < i ==> #[trigger] ep_square[j] == u64_at(bytes@, 8 * (1562 + j)),
            decreases 128 - i,
        {
            ep_square[i] = read_u64(bytes, 8 * (1562 + i));
            i += 1;
        }
        let z = Zobrist {
            pieces,
            side,
            castling,
            ep_file,
            ep_square,
            seed,
            stats: ZobristStats {
                hash_calls: 0,
                incremental_updates: 0,
                full_rehashes: 0,
                collisions_detected: 0,
                verifications: 0,
            },
        };
        proof {
            assert forall|k: int| 0 <= k < 1690 implies #[trigger] z@.word(k) == u64_at(
                bytes@,
                8 * k,
            ) by {
                if 1 <= k < 1537 {
                    let s = (k - 1) / 12;
                    let pc = (k - 1) % 12;
                    assert(pieces[s][pc] == u64_at(bytes@, 8 * (1 + 12 * s + pc)));
                } else if 1538 <= k < 1554 {
                    assert(castling[k - 1538] == u64_at(bytes@, 8 * (1538 + (k - 1538))));
                } else if 1554 <= k < 1562 {
                    assert(ep_file[k - 1554] == u64_at(bytes@, 8 * (1554 + (k - 1554))));
                } else if 1562 <= k {
                    assert(ep_square[k - 1562] == u64_at(bytes@, 8 * (1562 + (k - 1562))));
                }
            }
        }
        Ok(z)
    }
}

} // verus!
