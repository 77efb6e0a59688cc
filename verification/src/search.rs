//! The search: iterative deepening over a negamax search with alpha-beta
//! pruning, a quiescence search at the leaves, and a transposition table.

use std::time::{Duration, Instant};
use vstd::prelude::*;
use crate::attack::{is_king_attacked, king_attacked};
use crate::board::{Board, BoardState};
use crate::eval::{eval, eval_of, kings_ok, lemma_count_bounds, lemma_eval_bound, piece_count};
use crate::laws::{lemma_make_counts, lemma_search_step, make};
use crate::movegen::{Move, gen_moves, legal_move};
use crate::piece::Piece;
use crate::quiet::{
    capture_move,
    clamp,
    lemma_capture_takes_one,
    lemma_quiet_value,
    lemma_quiet_value_small,
    quiet_value,
    reply_score,
};
use crate::transposition::{
    NodeType,
    ProbeResult,
    TableState,
    TranspositionTable,
    lemma_slot_in_range,
    unpack_bits,
};
use crate::zobrist::{
    Zobrist,
    ZobristState,
    law_same_seed_same_keys,
    lemma_hash_same_tables,
};

verus! {

/// A point in time of the machine's monotonic clock, opaque to the proofs.
#[verifier::external_type_specification]
#[verifier::external_body]
pub struct ExInstant(Instant);

/// `Instant::now`: the present moment. Nothing is known of it.
#[verifier::external_body]
fn clock_now() -> (now: Instant) {
    Instant::now()
}

/// `Instant::elapsed`: the time that has passed since `start`. Nothing is
/// known of it.
#[verifier::external_body]
fn elapsed_since(start: &Instant) -> (passed: Duration) {
    start.elapsed()
}

/// `Duration::as_millis`: the whole milliseconds of a duration. Nothing is
/// stated of them.
#[verifier::external_body]
fn whole_millis(passed: &Duration) -> (ms: u128) {
    passed.as_millis()
}

/// The score of a mate at the root; a mate found `ply` half-moves into the
/// search scores `ply` less for the winner.
pub const MATE: i32 = 100000;

/// The bounds of the window at the root.
pub const WINDOW: i32 = 1000000;

/// The score below every score of a move.
pub const NO_SCORE: i32 = -999999;

/// The greatest depth of a search: beyond it a mate score would change
/// sign.
pub const MAX_DEPTH: i32 = 100000;

/// A score that a position with at most one king a side can have below
/// the root: no more than a mate in one either way.
pub open spec fn real_score(x: int) -> bool {
    -99999 <= x <= 99999
}

/// A score that a position with at most one king a side can have by its
/// material.
pub open spec fn small_score(x: int) -> bool {
    -76700 <= x <= 76700
}

/// A window whose bounds are scores by material, or the root's.
pub open spec fn small_window(alpha: int, beta: int) -> bool {
    (small_score(alpha) || alpha == -1000000) && (small_score(beta) || beta == 1000000)
}

/// Every value in the table is a score by material.
pub open spec fn table_small(t: TableState) -> bool {
    forall|i: int|
        0 <= i < t.buckets.len() ==> (#[trigger] t.buckets[i]).depth < 0 || small_score(
            t.buckets[i].value as int,
        )
}

/// The table `b` holds what `a` holds, but for entries with the key
/// `key`.
pub open spec fn stored_only(a: TableState, b: TableState, key: u64) -> bool {
    &&& a.buckets.len() == b.buckets.len()
    &&& forall|i: int|
        0 <= i < a.buckets.len() ==> #[trigger] b.buckets[i] == a.buckets[i] || b.buckets[i].key
            == key
}

/// A score that any position can have, or a bound of a window.
pub open spec fn bounded_score(x: int) -> bool {
    -1280000 <= x <= 1280000
}

/// A window whose lower bound is a real score or the root's, and whose
/// upper bound is a real score or the root's.
pub open spec fn proper_window(alpha: int, beta: int) -> bool {
    (real_score(alpha) || alpha == -1000000) && (real_score(beta) || beta == 1000000)
}

/// Every value in the table is bounded.
pub open spec fn table_bounded(t: TableState) -> bool {
    forall|i: int|
        0 <= i < t.buckets.len() ==> (#[trigger] t.buckets[i]).depth < 0 || bounded_score(
            t.buckets[i].value as int,
        )
}

/// Every value in the table is a real score.
pub open spec fn table_real(t: TableState) -> bool {
    forall|i: int|
        0 <= i < t.buckets.len() ==> (#[trigger] t.buckets[i]).depth < 0 || real_score(
            t.buckets[i].value as int,
        )
}

/// The promotion id of a packed move: 0 for none, 1 queen, 2 rook,
/// 3 bishop, 4 knight; 0 for any other piece.
pub open spec fn promo_id_of(p: Option<Piece>) -> u8 {
    match p {
        Some(Piece::WQ) | Some(Piece::BQ) => 1,
        Some(Piece::WR) | Some(Piece::BR) => 2,
        Some(Piece::WB) | Some(Piece::BB) => 3,
        Some(Piece::WN) | Some(Piece::BN) => 4,
        _ => 0,
    }
}

/// The white piece of a promotion id; none for 0 and for unknown ids.
pub open spec fn promo_piece_of(id: u8) -> Option<Piece> {
    if id == 1 {
        Some(Piece::WQ)
    } else if id == 2 {
        Some(Piece::WR)
    } else if id == 3 {
        Some(Piece::WB)
    } else if id == 4 {
        Some(Piece::WN)
    } else {
        None
    }
}

pub fn piece_to_promo_id(p: Option<Piece>) -> (id: u8)
    ensures
        id == promo_id_of(p),
        id <= 4,
{
    match p {
        None => 0,
        Some(Piece::WQ) | Some(Piece::BQ) => 1,
        Some(Piece::WR) | Some(Piece::BR) => 2,
        Some(Piece::WB) | Some(Piece::BB) => 3,
        Some(Piece::WN) | Some(Piece::BN) => 4,
        _ => 0,
    }
}

pub fn piece_from_promo_id(id: u8) -> (p: Option<Piece>)
    ensures
        p == promo_piece_of(id),
{
    match id {
        1 => Some(Piece::WQ),
        2 => Some(Piece::WR),
        3 => Some(Piece::WB),
        4 => Some(Piece::WN),
        _ => None,
    }
}

/// The id of a promotion piece leads back to the piece's kind.
pub proof fn law_promo_id_round_trip(id: u8)
    ensures
        promo_id_of(promo_piece_of(id)) == (if 1 <= id <= 4 {
            id
        } else {
            0
        }),
{
}

/// What the result of a node says of its score: an upper bound if no move
/// raised alpha, a lower bound if the search was cut off at beta, exact
/// otherwise.
pub open spec fn node_type_of(best: i32, alpha: i32, beta: i32) -> NodeType {
    if best <= alpha {
        NodeType::UpperBound
    } else if best >= beta {
        NodeType::LowerBound
    } else {
        NodeType::Exact
    }
}

pub fn classify_node(best: i32, alpha: i32, beta: i32) -> (n: NodeType)
    ensures
        n == node_type_of(best, alpha, beta),
{
    if best <= alpha {
        NodeType::UpperBound
    } else if best >= beta {
        NodeType::LowerBound
    } else {
        NodeType::Exact
    }
}

/// The score of a side that is mated `ply` half-moves into the search.
pub open spec fn mated_score(ply: int) -> int {
    -100000 + ply
}

/// The score of a position without legal moves: mated if the side to move
/// is in check, a draw otherwise.
pub fn no_move_score(in_check: bool, ply: i32) -> (score: i32)
    requires
        0 <= ply <= 100000,
    ensures
        score == (if in_check {
            mated_score(ply as int)
        } else {
            0
        }),
{
    if in_check {
        -MATE + ply
    } else {
        0
    }
}

// ----------------------------------------------------------- move ordering

/// Whether a move lands on a piece.
pub open spec fn lands_on_piece(cells: Seq<Piece>, m: Move) -> bool {
    cells[m.to as int] != Piece::Empty
}

/// Whether a move is the one a table entry hints at: same squares.
pub open spec fn hint_matches(m: Move, hint: Move) -> bool {
    m.from == hint.from && m.to == hint.to
}

/// The index of the first move from `i` on that matches the hint; the
/// length of `moves` if none does.
pub open spec fn first_match_from(moves: Seq<Move>, hint: Move, i: int) -> int
    decreases moves.len() - i,
{
    if i >= moves.len() || i < 0 {
        moves.len() as int
    } else if hint_matches(moves[i], hint) {
        i
    } else {
        first_match_from(moves, hint, i + 1)
    }
}

/// The index of the move that goes first by the hint; the length of
/// `moves` if there is none.
pub open spec fn hint_position(moves: Seq<Move>, hint: Option<Move>) -> int {
    match hint {
        Some(h) => first_match_from(moves, h, 0),
        None => moves.len() as int,
    }
}

/// The moves among the first `n`, but for the one at `skip`, that land on
/// a piece (or, with `captures` false, that do not), in their order.
pub open spec fn select(cells: Seq<Piece>, moves: Seq<Move>, skip: int, captures: bool, n: int) -> Seq<Move>
    decreases n,
{
    if n <= 0 {
        Seq::empty()
    } else {
        let rest = select(cells, moves, skip, captures, n - 1);
        if n - 1 != skip && lands_on_piece(cells, moves[n - 1]) == captures {
            rest.push(moves[n - 1])
        } else {
            rest
        }
    }
}

/// The order in which a node tries its moves: the hinted move first, if it
/// is among them; then the moves that land on a piece; then the others;
/// each group in the order of `moves`.
pub open spec fn ordered(cells: Seq<Piece>, moves: Seq<Move>, hint: Option<Move>) -> Seq<Move> {
    let k = hint_position(moves, hint);
    let first = if k < moves.len() {
        seq![moves[k]]
    } else {
        Seq::empty()
    };
    first + select(cells, moves, k, true, moves.len() as int) + select(
        cells,
        moves,
        k,
        false,
        moves.len() as int,
    )
}

/// Every selected move is one of the moves.
pub proof fn lemma_select_subset(cells: Seq<Piece>, moves: Seq<Move>, skip: int, captures: bool, n: int)
    requires
        0 <= n <= moves.len(),
    ensures
        forall|j: int|
            0 <= j < select(cells, moves, skip, captures, n).len() ==> moves.contains(
                #[trigger] select(cells, moves, skip, captures, n)[j],
            ),
        select(cells, moves, skip, captures, n).len() <= n,
    decreases n,
{
    if n > 0 {
        lemma_select_subset(cells, moves, skip, captures, n - 1);
        assert(moves.contains(moves[n - 1]));
    }
}

/// The two selections share out the moves, but for the skipped one.
pub proof fn lemma_select_counts(cells: Seq<Piece>, moves: Seq<Move>, skip: int, n: int)
    requires
        0 <= n <= moves.len(),
    ensures
        select(cells, moves, skip, true, n).len() + select(cells, moves, skip, false, n).len() == (
        if 0 <= skip < n {
            n - 1
        } else {
            n
        }),
    decreases n,
{
    if n > 0 {
        lemma_select_counts(cells, moves, skip, n - 1);
    }
}

/// The hinted position is an index of a move that matches, or the length.
pub proof fn lemma_first_match(moves: Seq<Move>, hint: Move, i: int)
    requires
        0 <= i <= moves.len(),
    ensures
        i <= first_match_from(moves, hint, i) <= moves.len(),
        first_match_from(moves, hint, i) < moves.len() ==> hint_matches(
            moves[first_match_from(moves, hint, i)],
            hint,
        ),
    decreases moves.len() - i,
{
    if i < moves.len() && !hint_matches(moves[i], hint) {
        lemma_first_match(moves, hint, i + 1);
    }
}

/// The ordered moves are the moves, each once: as many, and each of them
/// one of the moves.
pub proof fn lemma_ordered(cells: Seq<Piece>, moves: Seq<Move>, hint: Option<Move>)
    ensures
        ordered(cells, moves, hint).len() == moves.len(),
        forall|j: int|
            0 <= j < ordered(cells, moves, hint).len() ==> moves.contains(
                #[trigger] ordered(cells, moves, hint)[j],
            ),
{
    let k = hint_position(moves, hint);
    let n = moves.len() as int;
    match hint {
        Some(h) => {
            lemma_first_match(moves, h, 0);
        },
        None => {},
    }
    lemma_select_counts(cells, moves, k, n);
    lemma_select_subset(cells, moves, k, true, n);
    lemma_select_subset(cells, moves, k, false, n);
    let first = if k < moves.len() {
        seq![moves[k]]
    } else {
        Seq::empty()
    };
    let a = select(cells, moves, k, true, n);
    let b = select(cells, moves, k, false, n);
    let o = ordered(cells, moves, hint);
    assert forall|j: int| 0 <= j < o.len() implies moves.contains(#[trigger] o[j]) by {
        if j < first.len() {
            assert(o[j] == moves[k]);
            assert(moves.contains(moves[k]));
        } else if j < first.len() + a.len() {
            assert(o[j] == a[j - first.len()]);
        } else {
            assert(o[j] == b[j - first.len() - a.len()]);
        }
    }
}

/// Appends the selected moves.
fn push_selected(board: &Board, moves: &Vec<Move>, skip: usize, captures: bool, out: &mut Vec<Move>)
    requires
        forall|i: int| 0 <= i < moves@.len() ==> (#[trigger] moves@[i]).to < 128,
    ensures
        final(out)@ == old(out)@ + select(
            board@.cells,
            moves@,
            skip as int,
            captures,
            moves@.len() as int,
        ),
{
    let ghost cells = board@.cells;
    let ghost start = out@;
    let mut i: usize = 0;
    assert(start + select(cells, moves@, skip as int, captures, 0) =~= start);
    while i < moves.len()
        invariant
            i <= moves@.len(),
            cells == board@.cells,
            forall|i: int| 0 <= i < moves@.len() ==> (#[trigger] moves@[i]).to < 128,
            out@ == start + select(cells, moves@, skip as int, captures, i as int),
        decreases moves.len() - i,
    {
        let m = moves[i];
        let lands = !board.piece_at(m.to).is_empty();
        if i != skip && lands == captures {
            out.push(m);
        }
        i += 1;
        assert(out@ =~= start + select(cells, moves@, skip as int, captures, i as int));
    }
}

/// The moves in the order in which a node tries them.
pub fn order_moves(board: &Board, moves: &Vec<Move>, hint: Option<Move>) -> (out: Vec<Move>)
    requires
        forall|i: int| 0 <= i < moves@.len() ==> (#[trigger] moves@[i]).to < 128,
    ensures
        out@ == ordered(board@.cells, moves@, hint),
        out@.len() == moves@.len(),
        forall|j: int| 0 <= j < out@.len() ==> moves@.contains(#[trigger] out@[j]),
{
    let n = moves.len();
    let mut k: usize = n;
    if let Some(h) = hint {
        let mut i: usize = 0;
        while i < n
            invariant_except_break
                k == n,
                first_match_from(moves@, h, 0) == first_match_from(moves@, h, i as int),
            invariant
                i <= n,
                n == moves@.len(),
            ensures
                k == first_match_from(moves@, h, 0),
                k <= n,
            decreases n - i,
        {
            let m = moves[i];
            if m.from == h.from && m.to == h.to {
                k = i;
                break ;
            }
            i += 1;
        }
    }
    let mut out: Vec<Move> = Vec::new();
    if k < n {
        out.push(moves[k]);
    }
    let ghost first = out@;
    push_selected(board, moves, k, true, &mut out);
    push_selected(board, moves, k, false, &mut out);
    proof {
        lemma_ordered(board@.cells, moves@, hint);
        assert(first =~= (if k < moves@.len() {
            seq![moves@[k as int]]
        } else {
            Seq::empty()
        }));
    }
    out
}

// ------------------------------------------------------------- the search

/// Whether a time limit has passed when `passed_ms` milliseconds have gone
/// by: there is a limit, and the time gone by is not below it.
pub open spec fn time_limit_reached(passed_ms: u128, limit_ms: Option<u64>) -> bool {
    limit_ms matches Some(ms) && passed_ms >= ms
}

/// Whether a time limit has passed when `passed_ms` milliseconds have gone
/// by.
pub fn limit_reached(passed_ms: u128, limit_ms: Option<u64>) -> (b: bool)
    ensures
        b == time_limit_reached(passed_ms, limit_ms),
{
    match limit_ms {
        Some(ms) => passed_ms >= ms as u128,
        None => false,
    }
}

/// The record of a search: its clock, its node counter, its table and its
/// keys.
pub struct SearchInfo {
    nodes: u64,
    start: Instant,
    time_limit: Option<u64>,
    pub tt: TranspositionTable,
    pub zob: Zobrist,
}

impl SearchInfo {
    /// A record for a search that starts now, with an empty table of
    /// `buckets` slots (rounded up to a power of two) and the default keys.
    fn new(time_limit_ms: Option<u64>, buckets: usize) -> (info: SearchInfo)
        requires
            1 <= buckets <= usize::MAX / 2 + 1,
        ensures
            info.node_count() == 0,
            info.time_limit_ms() == time_limit_ms,
            table_real(info.tt@),
            table_bounded(info.tt@),
            table_empty(info.tt@),
            info.zob@.drawn_from(2024),
    {
        SearchInfo {
            nodes: 0,
            start: clock_now(),
            time_limit: time_limit_ms,
            tt: TranspositionTable::new_buckets(buckets),
            zob: Zobrist::new(),
        }
    }

    pub closed spec fn node_count(&self) -> u64 {
        self.nodes
    }

    pub closed spec fn time_limit_ms(&self) -> Option<u64> {
        self.time_limit
    }

    /// The number of nodes visited so far; the counter wraps around.
    #[verifier::when_used_as_spec(node_count)]
    pub fn nodes(&self) -> (n: u64)
        ensures
            n == self.node_count(),
    {
        self.nodes
    }

    /// Whether the time limit, if there is one, has passed. Without a limit
    /// the clock is not read; with one, the answer is that of
    /// [`limit_reached`] for the time that the clock gives.
    pub fn time_is_up(&self) -> (b: bool)
        ensures
            self.time_limit_ms() is None ==> !b,
    {
        match self.time_limit {
            Some(ms) => limit_reached(whole_millis(&elapsed_since(&self.start)), Some(ms)),
            None => false,
        }
    }

    /// The result of the search with the counters as they stand.
    fn result(&self, best_move: Option<Move>, score: i32) -> (r: SearchResult)
        ensures
            r.best_move == best_move,
            r.score == score,
            r.nodes == self.node_count(),
            r.tt_probes == self.tt@.probes,
            r.tt_hits == self.tt@.hits,
            r.tt_stores == self.tt@.stores,
    {
        SearchResult {
            best_move,
            score,
            nodes: self.nodes,
            tt_probes: self.tt.probe_count(),
            tt_hits: self.tt.hit_count(),
            tt_stores: self.tt.store_count(),
        }
    }

    /// Counts one node.
    fn count_node(&mut self)
        ensures
            final(self).tt == old(self).tt,
            final(self).zob == old(self).zob,
            final(self).time_limit_ms() == old(self).time_limit_ms(),
            final(self).node_count() == old(self).node_count().wrapping_add(1),
    {
        self.nodes = self.nodes.wrapping_add(1);
    }
}

/// The move that the result of a probe hints at: the packed move of an
/// entry that was found and holds one, with the white piece of its
/// promotion id; none for a miss, for a usable value and for an entry
/// without a move.
pub open spec fn hint_move(r: ProbeResult) -> Option<Move> {
    match r {
        ProbeResult::Found(entry) => if entry.best@ != 0 {
            Some(
                Move {
                    from: unpack_bits(entry.best@).0,
                    to: unpack_bits(entry.best@).1,
                    promotion: promo_piece_of(unpack_bits(entry.best@).2),
                },
            )
        } else {
            None
        },
        _ => None,
    }
}

/// The move that a table entry hints at, if it holds one.
fn hint_of(r: ProbeResult) -> (hint: Option<Move>)
    ensures
        hint == hint_move(r),
        hint matches Some(m) ==> m.from < 128 && m.to < 128,
{
    match r {
        ProbeResult::Found(entry) => {
            if !entry.best.is_none() {
                let (from, to, promo) = entry.best.unpack();
                Some(Move { from, to, promotion: piece_from_promo_id(promo) })
            } else {
                None
            }
        },
        _ => None,
    }
}

/// Taking back the last move of a position that differs from `child` in
/// its redo stack only leads where taking it back from `child` leads.
proof fn lemma_undo_same_game(x: BoardState, child: BoardState, st: BoardState)
    requires
        x.same_game(child),
        child.undo().same_game(st),
    ensures
        x.undo().same_game(st),
{
}

/// The quiescence search: the static score of the position, improved by
/// the best sequence of moves that land on a piece, within the window. It
/// returns 0 when the time limit has passed. Without a time limit it
/// returns the quiescence value of the position, cut to the window.
fn quiescence(board: &mut Board, alpha: i32, beta: i32, info: &mut SearchInfo) -> (r: i32)
    requires
        old(board)@.consistent(),
        old(board)@.castling < 16,
        old(board)@.halfmove_clock < u32::MAX,
        old(board)@.fullmove + piece_count(old(board)@.cells, 128) < u32::MAX,
        bounded_score(alpha as int),
        bounded_score(beta as int),
    ensures
        final(board)@.same_game(old(board)@),
        bounded_score(r as int),
        final(info).tt == old(info).tt,
        final(info).zob == old(info).zob,
        final(info).time_limit_ms() == old(info).time_limit_ms(),
        kings_ok(old(board)@.cells) && proper_window(alpha as int, beta as int) ==> real_score(
            r as int,
        ),
        kings_ok(old(board)@.cells) && small_window(alpha as int, beta as int) ==> small_score(
            r as int,
        ),
        old(info).time_limit_ms() is None && alpha < beta ==> r == clamp(
            quiet_value(old(board)@, piece_count(old(board)@.cells, 128) as nat),
            alpha as int,
            beta as int,
        ),
    decreases piece_count(old(board)@.cells, 128),
{
    let ghost st = board@;
    let ghost fuel = piece_count(st.cells, 128) as nat;
    let ghost value = quiet_value(st, fuel);
    let ghost exact = info.time_limit_ms() is None && alpha < beta;
    proof {
        lemma_count_bounds(st.cells, Piece::Empty, 128);
        if fuel > 0 {
            lemma_quiet_value(st, fuel);
        }
    }
    if info.time_is_up() {
        return 0;
    }
    info.count_node();
    let stand = eval(board);
    proof {
        lemma_eval_bound(st);
    }
    if stand >= beta {
        return beta;
    }
    let mut a = alpha;
    if stand > a {
        a = stand
    }
    let mut moves: Vec<Move> = Vec::new();
    gen_moves(board, &mut moves);
    let mut i: usize = 0;
    while i < moves.len()
        invariant
            i <= moves@.len(),
            st == old(board)@,
            st.consistent(),
            st.castling < 16,
            st.halfmove_clock < u32::MAX,
            st.fullmove + piece_count(st.cells, 128) < u32::MAX,
            fuel == piece_count(st.cells, 128),
            value == quiet_value(st, fuel),
            exact == (old(info).time_limit_ms() is None && alpha < beta),
            board@.same_game(st),
            forall|m: Move| #[trigger] moves@.contains(m) <==> legal_move(st, m),
            bounded_score(a as int),
            bounded_score(beta as int),
            info.tt == old(info).tt,
            info.zob == old(info).zob,
            info.time_limit_ms() == old(info).time_limit_ms(),
            kings_ok(st.cells) && proper_window(alpha as int, beta as int) ==> real_score(a as int),
            kings_ok(st.cells) && small_window(alpha as int, beta as int) ==> small_score(a as int),
            exact ==> alpha <= a < beta && eval_of(st) <= a && (a <= alpha || a <= value),
            exact ==> forall|j: int|
                0 <= j < i && capture_move(st, #[trigger] moves@[j]) ==> a >= -quiet_value(
                    make(st, moves@[j]),
                    (fuel - 1) as nat,
                ),
            fuel > 0 ==> value >= eval_of(st),
            fuel > 0 ==> forall|m: Move| #[trigger]
                capture_move(st, m) ==> value >= -quiet_value(make(st, m), (fuel - 1) as nat),
            fuel == 0 ==> value == eval_of(st),
        decreases moves@.len() - i,
    {
        let m = moves[i];
        proof {
            assert(moves@.contains(m));
            lemma_count_bounds(st.cells, Piece::Empty, 128);
            lemma_search_step(st, m);
            lemma_make_counts(st, m);
        }
        if !board.piece_at(m.to).is_empty() {
            assert(capture_move(st, m));
            board.make_move(m.from, m.to, m.promotion);
            let ghost child = make(st, m);
            assert(board@ == child);
            proof {
                lemma_count_bounds(child.cells, Piece::Empty, 128);
                lemma_capture_takes_one(st, m);
            }
            let ghost reply = quiet_value(child, (fuel - 1) as nat);
            assert(piece_count(child.cells, 128) as nat == (fuel - 1) as nat);
            assert(value >= -reply);
            let score = -quiescence(board, -beta, -a, info);
            assert(exact ==> score == -clamp(reply, -beta as int, -a as int));
            let ghost x = board@;
            board.undo_move();
            proof {
                lemma_undo_same_game(x, child, st);
            }
            if score >= beta {
                return beta;
            }
            if score > a {
                a = score
            }
        }
        i += 1;
    }
    proof {
        if exact && fuel > 0 && value != eval_of(st) {
            let m = choose|m: Move| #[trigger]
                capture_move(st, m) && value == -quiet_value(make(st, m), (fuel - 1) as nat);
            assert(moves@.contains(m));
            let j = choose|j: int| 0 <= j < moves@.len() && moves@[j] == m;
            assert(capture_move(st, moves@[j]));
        }
    }
    a
}

/// The negamax search of a position to `depth`, `ply` half-moves below the
/// root, within the window `alpha`, `beta`. It returns 0 when the time
/// limit has passed; a value from the table if the table holds a usable
/// one; the quiescence score at depth 0; the mated score or 0 if there is
/// no legal move; and else the best of the negated scores of the moves,
/// tried in order until one reaches beta. That best score goes into the
/// table with the move that gave it.
fn negamax(board: &mut Board, depth: i32, ply: i32, alpha: i32, beta: i32, info: &mut SearchInfo) -> (r: i32)
    requires
        old(board)@.consistent(),
        old(board)@.castling < 16,
        0 <= depth,
        1 <= ply,
        ply + depth <= 100000,
        old(board)@.halfmove_clock + depth < u32::MAX,
        old(board)@.fullmove + depth + 64 < u32::MAX,
        bounded_score(alpha as int),
        bounded_score(beta as int),
        table_bounded(old(info).tt@),
    ensures
        final(board)@.same_game(old(board)@),
        bounded_score(r as int),
        table_bounded(final(info).tt@),
        final(info).time_limit_ms() == old(info).time_limit_ms(),
        kings_ok(old(board)@.cells) && proper_window(alpha as int, beta as int) && table_real(
            old(info).tt@,
        ) ==> real_score(r as int) && table_real(final(info).tt@),
        final(info).zob@.same_tables(old(info).zob@),
        kings_ok(old(board)@.cells) && table_small(old(info).tt@) && small_window(
            alpha as int,
            beta as int,
        ) && depth == 0 ==> small_score(r as int) && final(info).tt@.buckets == old(
            info,
        ).tt@.buckets,
        kings_ok(old(board)@.cells) && table_small(old(info).tt@) && small_window(
            alpha as int,
            beta as int,
        ) && depth == 1 ==> {
            &&& table_small(final(info).tt@)
            &&& stored_only(old(info).tt@, final(info).tt@, old(info).zob@.hash_of(old(board)@))
            &&& has_legal_move(old(board)@) ==> small_score(r as int)
            &&& old(info).tt@.probe(old(info).zob@.hash_of(old(board)@), depth, alpha, beta)
                is Usable ==> small_score(r as int)
        },
        old(info).time_limit_ms() is None ==> match old(info).tt@.probe(
            old(info).zob@.hash_of(old(board)@),
            depth,
            alpha,
            beta,
        ) {
            ProbeResult::Usable(value, _) => r == value,
            _ => {
                &&& depth == 0 && alpha < beta ==> r == clamp(
                    quiet_value(old(board)@, piece_count(old(board)@.cells, 128) as nat),
                    alpha as int,
                    beta as int,
                )
                &&& depth > 0 && !has_legal_move(old(board)@) ==> r == (if king_attacked(
                    old(board)@.cells,
                    old(board)@.side_white,
                ) {
                    mated_score(ply as int)
                } else {
                    0
                })
            },
        },
    decreases depth,
{
    let ghost st = board@;
    let ghost tt0 = info.tt@;
    let ghost good = kings_ok(st.cells) && proper_window(alpha as int, beta as int) && table_real(
        tt0,
    );
    let ghost small = kings_ok(st.cells) && table_small(tt0) && small_window(
        alpha as int,
        beta as int,
    );
    let ghost zob0 = info.zob@;
    if info.time_is_up() {
        return 0;
    }
    info.count_node();
    let key = info.zob.hash_board(board);
    let slots = info.tt.bucket_count();
    let probed = info.tt.probe(key, depth, alpha, beta);
    proof {
        if slots >= 1 {
            lemma_slot_in_range(key, slots as nat);
        }
    }
    if let ProbeResult::Usable(score, _best) = probed {
        return score;
    }
    let tt_move = hint_of(probed);
    if depth == 0 {
        proof {
            lemma_count_bounds(st.cells, Piece::Empty, 128);
        }
        return quiescence(board, alpha, beta, info);
    }
    let mut moves: Vec<Move> = Vec::new();
    gen_moves(board, &mut moves);
    if moves.len() == 0 {
        proof {
            assert forall|m: Move| !legal_move(st, m) by {
                if legal_move(st, m) {
                    assert(moves@.contains(m));
                }
            }
        }
        return no_move_score(is_king_attacked(board, board.white_to_move()), ply);
    }
    proof {
        assert(moves@.contains(moves@[0]));
        assert(legal_move(st, moves@[0]));
        assert forall|i: int| 0 <= i < moves@.len() implies (#[trigger] moves@[i]).to < 128 by {
            assert(moves@.contains(moves@[i]));
            lemma_search_step(st, moves@[i]);
        }
    }
    let tried = order_moves(board, &moves, tt_move);
    let mut a = alpha;
    let mut best: i32 = NO_SCORE;
    let mut best_move_here: Option<Move> = None;
    let mut i: usize = 0;
    while i < tried.len()
        invariant
            i <= tried@.len(),
            tried@.len() >= 1,
            st == old(board)@,
            st.consistent(),
            st.castling < 16,
            1 <= depth,
            1 <= ply,
            ply + depth <= 100000,
            st.halfmove_clock + depth < u32::MAX,
            st.fullmove + depth + 64 < u32::MAX,
            board@.same_game(st),
            forall|j: int| 0 <= j < tried@.len() ==> legal_move(st, #[trigger] tried@[j]),
            bounded_score(a as int),
            bounded_score(beta as int),
            bounded_score(best as int),
            table_bounded(info.tt@),
            info.time_limit_ms() == old(info).time_limit_ms(),
            good == (kings_ok(st.cells) && proper_window(alpha as int, beta as int) && table_real(
                tt0,
            )),
            good ==> table_real(info.tt@) && (real_score(a as int) || a == -1000000) && (real_score(
                beta as int,
            ) || beta == 1000000),
            good && i > 0 ==> real_score(best as int),
            i == 0 ==> best == NO_SCORE,
            best_move_here matches Some(bm) ==> bm.from < 128 && bm.to < 128,
            info.zob@.same_tables(zob0),
            small == (kings_ok(st.cells) && table_small(tt0) && small_window(
                alpha as int,
                beta as int,
            )),
            small && depth == 1 ==> info.tt@.buckets == tt0.buckets && (small_score(a as int) || a
                == -1000000) && (small_score(beta as int) || beta == 1000000),
            small && depth == 1 && i > 0 ==> small_score(best as int),
        ensures
            board@.same_game(st),
            bounded_score(best as int),
            table_bounded(info.tt@),
            info.time_limit_ms() == old(info).time_limit_ms(),
            good ==> table_real(info.tt@) && real_score(best as int),
            info.zob@.same_tables(zob0),
            small && depth == 1 ==> info.tt@.buckets == tt0.buckets && small_score(best as int),
        decreases tried@.len() - i,
    {
        let m = tried[i];
        proof {
            lemma_search_step(st, m);
        }
        board.make_move(m.from, m.to, m.promotion);
        let ghost child = make(st, m);
        assert(board@ == child);
        let val = -negamax(board, depth - 1, ply + 1, -beta, -a, info);
        let ghost x = board@;
        board.undo_move();
        proof {
            lemma_undo_same_game(x, child, st);
        }
        if val > best {
            best = val;
            best_move_here = Some(m);
        }
        if val > a {
            a = val;
        }
        i += 1;
        if a >= beta {
            break ;
        }
    }
    let node_type = classify_node(best, alpha, beta);
    let best_packed = match best_move_here {
        Some(bm) => Some((bm.from, bm.to, piece_to_promo_id(bm.promotion))),
        None => None,
    };
    let slots = info.tt.bucket_count();
    proof {
        if slots >= 1 {
            lemma_slot_in_range(key, slots as nat);
        }
    }
    info.tt.store(key, depth, best, node_type, best_packed);
    best
}

/// What a search found.
#[derive(Clone, Copy, Debug)]
pub struct SearchResult {
    /// The best move, if the search found one.
    pub best_move: Option<Move>,
    /// The score of the best move, seen from the side to move; 0 if there
    /// is none.
    pub score: i32,
    /// The number of nodes visited.
    pub nodes: u64,
    /// The number of probes of the transposition table.
    pub tt_probes: u64,
    /// The number of probes that found their key.
    pub tt_hits: u64,
    /// The number of entries offered to the table.
    pub tt_stores: u64,
}

/// Whether the position has a legal move.
pub open spec fn has_legal_move(st: BoardState) -> bool {
    exists|m: Move| legal_move(st, m)
}

/// Every slot of the table is empty.
pub open spec fn table_empty(t: TableState) -> bool {
    forall|i: int| 0 <= i < t.buckets.len() ==> (#[trigger] t.buckets[i]).depth < 0
}

/// The move mates: it is legal, and after it the side to move has no legal
/// move and its king is attacked.
pub open spec fn mates(st: BoardState, m: Move) -> bool {
    legal_move(st, m) && !has_legal_move(make(st, m)) && king_attacked(
        make(st, m).cells,
        make(st, m).side_white,
    )
}

/// No position after a move that mates has the key of the position after
/// a legal move that does not.
pub open spec fn no_key_clash(keys: ZobristState, st: BoardState) -> bool {
    forall|m: Move, n: Move|
        #![trigger mates(st, m), legal_move(st, n)]
        mates(st, m) && legal_move(st, n) && !mates(st, n) ==> keys.hash_of(make(st, m))
            != keys.hash_of(make(st, n))
}

/// The legal moves of a position are those of every position with the
/// same cells, side to move, rights and en passant target.
pub proof fn lemma_same_position_same_moves(a: BoardState, b: BoardState)
    requires
        a.cells == b.cells,
        a.side_white == b.side_white,
        a.castling == b.castling,
        a.ep == b.ep,
    ensures
        forall|m: Move| legal_move(a, m) == legal_move(b, m),
        has_legal_move(a) == has_legal_move(b),
{
    assert forall|m: Move| legal_move(a, m) == legal_move(b, m) by {}
    if has_legal_move(a) {
        let m = choose|m: Move| legal_move(a, m);
        assert(legal_move(b, m));
    }
    if has_legal_move(b) {
        let m = choose|m: Move| legal_move(b, m);
        assert(legal_move(a, m));
    }
}

/// Whether the side to move is mated: it has no legal move and its king is
/// attacked.
fn is_mated(board: &Board) -> (r: bool)
    ensures
        r == (!has_legal_move(board@) && king_attacked(board@.cells, board@.side_white)),
{
    let mut replies: Vec<Move> = Vec::new();
    gen_moves(board, &mut replies);
    proof {
        if replies@.len() > 0 {
            assert(replies@.contains(replies@[0]));
        } else {
            assert forall|m: Move| !legal_move(board@, m) by {
                assert(!replies@.contains(m));
            }
        }
    }
    replies.len() == 0 && is_king_attacked(board, board.white_to_move())
}

/// Whether no position after a move that mates has the key of the
/// position after a legal move that does not: what a search of this
/// position needs of the keys to find a mate in one. The positions after
/// the legal moves are hashed from scratch and compared pair by pair.
pub fn keys_do_not_clash(board: &Board, keys: &Zobrist) -> (ok: bool)
    requires
        board@.castling < 16,
    ensures
        ok == no_key_clash(keys@, board@),
{
    let ghost st = board@;
    let ghost zs = keys@;
    let mut moves: Vec<Move> = Vec::new();
    gen_moves(board, &mut moves);
    let mut hashes: Vec<u64> = Vec::new();
    let mut mated: Vec<bool> = Vec::new();
    let mut i: usize = 0;
    while i < moves.len()
        invariant
            i <= moves@.len(),
            st == board@,
            zs == keys@,
            st.castling < 16,
            hashes@.len() == i,
            mated@.len() == i,
            forall|m: Move| #[trigger] moves@.contains(m) <==> legal_move(st, m),
            forall|k: int| 0 <= k < i ==> #[trigger] hashes@[k] == zs.hash_of(make(st, moves@[k])),
            forall|k: int| 0 <= k < i ==> #[trigger] mated@[k] == mates(st, moves@[k]),
        decreases moves@.len() - i,
    {
        let m = moves[i];
        proof {
            assert(moves@.contains(m));
            crate::movegen::lemma_pseudo_legal_squares(st, m);
            crate::laws::lemma_rights_left(st.castling, st.cells[m.from as int], m.from, m.to);
        }
        let child = board.position_after(m.from, m.to, m.promotion);
        proof {
            lemma_same_position_same_moves(child@, make(st, m));
        }
        hashes.push(keys.hash_board_quiet(&child));
        mated.push(is_mated(&child));
        i += 1;
    }
    let n = moves.len();
    let mut a: usize = 0;
    while a < n
        invariant
            a <= n,
            n == moves@.len(),
            st == board@,
            zs == keys@,
            hashes@.len() == n,
            mated@.len() == n,
            forall|m: Move| #[trigger] moves@.contains(m) <==> legal_move(st, m),
            forall|k: int| 0 <= k < n ==> #[trigger] hashes@[k] == zs.hash_of(make(st, moves@[k])),
            forall|k: int| 0 <= k < n ==> #[trigger] mated@[k] == mates(st, moves@[k]),
            forall|x: int, y: int|
                0 <= x < a && 0 <= y < n && #[trigger] mated@[x] && !#[trigger] mated@[y] ==> hashes@[x]
                    != hashes@[y],
        decreases n - a,
    {
        if mated[a] {
            let mut b: usize = 0;
            while b < n
                invariant
                    b <= n,
                    a < n,
                    n == moves@.len(),
                    st == board@,
                    zs == keys@,
                    hashes@.len() == n,
                    mated@.len() == n,
                    mated@[a as int],
                    forall|m: Move| #[trigger] moves@.contains(m) <==> legal_move(st, m),
                    forall|k: int|
                        0 <= k < n ==> #[trigger] hashes@[k] == zs.hash_of(make(st, moves@[k])),
                    forall|k: int| 0 <= k < n ==> #[trigger] mated@[k] == mates(st, moves@[k]),
                    forall|y: int|
                        0 <= y < b && !#[trigger] mated@[y] ==> hashes@[a as int] != hashes@[y],
                decreases n - b,
            {
                if !mated[b] && hashes[a] == hashes[b] {
                    proof {
                        let m = moves@[a as int];
                        let r = moves@[b as int];
                        assert(moves@.contains(r));
                        assert(mated@[a as int] == mates(st, m));
                        assert(mated@[b as int] == mates(st, r));
                        assert(hashes@[a as int] == zs.hash_of(make(st, m)));
                        assert(hashes@[b as int] == zs.hash_of(make(st, r)));
                        assert(mates(st, m) && legal_move(st, r) && !mates(st, r));
                    }
                    return false;
                }
                b += 1;
            }
        }
        a += 1;
    }
    proof {
        assert forall|m: Move, r: Move|
            #![trigger mates(st, m), legal_move(st, r)]
            mates(st, m) && legal_move(st, r) && !mates(st, r) implies zs.hash_of(make(st, m))
            != zs.hash_of(make(st, r)) by {
            assert(moves@.contains(m));
            assert(moves@.contains(r));
            let x = choose|x: int| 0 <= x < moves@.len() && moves@[x] == m;
            let y = choose|y: int| 0 <= y < moves@.len() && moves@[y] == r;
            assert(mated@[x] == mates(st, moves@[x]));
            assert(mated@[y] == mates(st, moves@[y]));
            assert(hashes@[x] == zs.hash_of(make(st, moves@[x])));
            assert(hashes@[y] == zs.hash_of(make(st, moves@[y])));
        }
    }
    true
}

/// The entry is empty, or has the key of the position after a legal move
/// that does not mate.
pub open spec fn reply_entry(e: crate::transposition::TTEntry, keys: ZobristState, st: BoardState) -> bool {
    e.depth < 0 || exists|n: Move|
        #![trigger legal_move(st, n)]
        legal_move(st, n) && !mates(st, n) && e.key == keys.hash_of(make(st, n))
}

/// Every entry of the table is empty or has the key of the position after
/// a legal move that does not mate.
pub open spec fn keys_of_replies(t: TableState, keys: ZobristState, st: BoardState) -> bool {
    forall|i: int| 0 <= i < t.buckets.len() ==> reply_entry(#[trigger] t.buckets[i], keys, st)
}

/// What a search asks of a position and a depth: the en passant target
/// and the castling rights agree with the cells, the depth is at most
/// [`MAX_DEPTH`], and the counters can grow by the depth, and by the 64
/// captures that can follow, without reaching their limit.
pub open spec fn searchable(st: BoardState, max_depth: i32) -> bool {
    &&& st.consistent()
    &&& st.castling < 16
    &&& max_depth <= MAX_DEPTH
    &&& st.halfmove_clock + max_depth < u32::MAX
    &&& st.fullmove + max_depth + 64 < u32::MAX
}

/// Whether the position can be searched to the depth.
pub fn can_search(board: &Board, max_depth: i32) -> (ok: bool)
    ensures
        ok == searchable(board@, max_depth),
{
    if !board.is_consistent() || board.castling_rights() >= 16 || max_depth > MAX_DEPTH {
        return false;
    }
    let room: i64 = 4294967295 - 64 - max_depth as i64;
    (board.halfmove() as i64) < room + 64 && (board.fullmove_number() as i64) < room
}

/// One of the first `n` moves mates.
pub open spec fn mate_among(st: BoardState, moves: Seq<Move>, n: int) -> bool
    decreases n,
{
    if n <= 0 {
        false
    } else {
        mate_among(st, moves, n - 1) || mates(st, moves[n - 1])
    }
}

proof fn lemma_mate_among(st: BoardState, moves: Seq<Move>, n: int, j: int)
    requires
        0 <= j < n,
        mates(st, moves[j]),
    ensures
        mate_among(st, moves, n),
    decreases n,
{
    if j < n - 1 {
        lemma_mate_among(st, moves, n - 1, j);
    }
}

/// A table that holds keys of positions after moves that do not mate has
/// nothing for the position after a move that mates, if the keys do not
/// clash.
proof fn lemma_mate_is_not_in_table(
    t: TableState,
    keys: ZobristState,
    st: BoardState,
    m: Move,
    depth: i32,
    alpha: i32,
    beta: i32,
)
    requires
        keys_of_replies(t, keys, st),
        no_key_clash(keys, st),
        mates(st, m),
        t.buckets.len() <= usize::MAX,
    ensures
        t.probe(keys.hash_of(make(st, m)), depth, alpha, beta) is Miss,
{
    let key = keys.hash_of(make(st, m));
    if t.buckets.len() >= 1 {
        lemma_slot_in_range(key, t.buckets.len());
        let e = t.entry_for(key);
        assert(reply_entry(e, keys, st));
        if e.depth >= 0 && e.key == key {
            let n = choose|n: Move|
                #![trigger legal_move(st, n)]
                legal_move(st, n) && !mates(st, n) && e.key == keys.hash_of(make(st, n));
            assert(mates(st, m) && legal_move(st, n));
        }
    }
}

/// Searches the position to depth 1, 2, ... up to `max_depth`, each time
/// trying every legal move of the root, and returns the best move of the
/// last depth that was searched to the end. When the time limit passes it
/// returns that move at once, or, during the first depth, the best move
/// so far.
///
/// At depth 1 the score is the best of the replies' values, and at depth 2
/// a mate in one is found if [`keys_do_not_clash`]. At greater depths the
/// score is no function of the position and the depth alone: the table
/// answers a request with what was stored for the same key at the same or
/// a greater depth, at whatever distance from the root and in whatever
/// window that was, so what is promised there is what holds of every such
/// answer.
#[verifier::rlimit(60)]
pub fn search_root(board: &mut Board, max_depth: i32, time_limit_ms: Option<u64>) -> (r: SearchResult)
    requires
        searchable(old(board)@, max_depth),
    ensures
        final(board)@.same_game(old(board)@),
        r.best_move matches Some(m) ==> legal_move(old(board)@, m),
        max_depth < 1 || !has_legal_move(old(board)@) ==> r.best_move is None && r.score == 0,
        max_depth >= 1 && has_legal_move(old(board)@) && kings_ok(old(board)@.cells)
            ==> r.best_move is Some && real_score(r.score as int),
        forall|keys: ZobristState|
            #![trigger keys.drawn_from(2024)]
            keys.drawn_from(2024) && no_key_clash(keys, old(board)@) && time_limit_ms is None
                && max_depth == 2 && kings_ok(old(board)@.cells) && (exists|m: Move|
                mates(old(board)@, m)) ==> r.score == MATE - 1 && r.best_move is Some && mates(
                old(board)@,
                r.best_move.unwrap(),
            ),
        time_limit_ms is None && max_depth == 1 && kings_ok(old(board)@.cells) && has_legal_move(
            old(board)@,
        ) ==> r.best_move is Some && r.score == reply_score(old(board)@, r.best_move.unwrap())
            && forall|n: Move| #[trigger]
            legal_move(old(board)@, n) ==> r.score >= reply_score(old(board)@, n),
{
    let ghost st = board@;
    let mut info = SearchInfo::new(time_limit_ms, 262144);
    let ghost keys0 = info.zob@;
    let ghost sure = time_limit_ms is None && max_depth == 2 && kings_ok(st.cells) && no_key_clash(
        keys0,
        st,
    );
    let ghost plain = time_limit_ms is None && max_depth == 1 && kings_ok(st.cells);
    proof {
        assert forall|keys: ZobristState|
            #![trigger keys.drawn_from(2024)]
            keys.drawn_from(2024) && no_key_clash(keys, st) implies no_key_clash(keys0, st) by {
            law_same_seed_same_keys(keys, keys0, 2024);
            assert forall|m: Move, n: Move|
                #![trigger mates(st, m), legal_move(st, n)]
                mates(st, m) && legal_move(st, n) && !mates(st, n) implies keys0.hash_of(
                make(st, m),
            ) != keys0.hash_of(make(st, n)) by {
                lemma_hash_same_tables(keys0, keys, make(st, m));
                lemma_hash_same_tables(keys0, keys, make(st, n));
            }
        }
    }
    let mut best_overall: Option<Move> = None;
    let mut overall_score: i32 = 0;
    let mut root_moves: Vec<Move> = Vec::new();
    gen_moves(board, &mut root_moves);
    if root_moves.len() == 0 {
        proof {
            assert forall|m: Move| !legal_move(st, m) by {
                if legal_move(st, m) {
                    assert(root_moves@.contains(m));
                }
            }
        }
        return info.result(None, 0);
    }
    proof {
        assert(root_moves@.contains(root_moves@[0]));
        assert(legal_move(st, root_moves@[0]));
    }
    let mut depth: i32 = 1;
    while depth <= max_depth
        invariant
            1 <= depth,
            depth <= max_depth + 1 || depth == 1,
            max_depth <= MAX_DEPTH,
            has_legal_move(st),
            st == old(board)@,
            st.consistent(),
            st.castling < 16,
            st.halfmove_clock + max_depth < u32::MAX,
            st.fullmove + max_depth + 64 < u32::MAX,
            board@.same_game(st),
            root_moves@.len() >= 1,
            forall|m: Move| #[trigger] root_moves@.contains(m) <==> legal_move(st, m),
            table_bounded(info.tt@),
            kings_ok(st.cells) ==> table_real(info.tt@),
            best_overall matches Some(m) ==> legal_move(st, m),
            best_overall is None ==> overall_score == 0,
            depth == 1 ==> best_overall is None,
            kings_ok(st.cells) && depth > 1 ==> best_overall is Some,
            kings_ok(st.cells) ==> real_score(overall_score as int),
            info.time_limit_ms() == time_limit_ms,
            info.zob@.same_tables(keys0),
            sure == (time_limit_ms is None && max_depth == 2 && kings_ok(st.cells) && no_key_clash(
                keys0,
                st,
            )),
            sure && depth <= 2 ==> table_empty(info.tt@),
            plain == (time_limit_ms is None && max_depth == 1 && kings_ok(st.cells)),
            plain && depth == 1 ==> table_empty(info.tt@),
            plain && depth > 1 ==> best_overall is Some && overall_score == reply_score(
                st,
                best_overall.unwrap(),
            ) && forall|n: Move| #[trigger]
                legal_move(st, n) ==> overall_score >= reply_score(st, n),
            sure && depth > 2 && (exists|m: Move| mates(st, m)) ==> best_overall is Some && mates(
                st,
                best_overall.unwrap(),
            ) && overall_score == MATE - 1,
        decreases max_depth + 1 - depth,
    {
        info.tt.new_search();
        let mut alpha: i32 = -WINDOW;
        let beta: i32 = WINDOW;
        let mut best_score: i32 = NO_SCORE;
        let mut best_move_this_depth: Option<Move> = None;
        let mut i: usize = 0;
        while i < root_moves.len()
            invariant
                i <= root_moves@.len(),
                1 <= depth <= max_depth,
                max_depth <= MAX_DEPTH,
                st == old(board)@,
                st.consistent(),
                st.castling < 16,
                st.halfmove_clock + max_depth < u32::MAX,
                st.fullmove + max_depth + 64 < u32::MAX,
                board@.same_game(st),
                root_moves@.len() >= 1,
                forall|m: Move| #[trigger] root_moves@.contains(m) <==> legal_move(st, m),
                table_bounded(info.tt@),
                beta == WINDOW,
                bounded_score(alpha as int),
                kings_ok(st.cells) ==> table_real(info.tt@) && (alpha == -WINDOW || real_score(
                    alpha as int,
                )),
                best_move_this_depth matches Some(m) ==> legal_move(st, m),
                kings_ok(st.cells) && i > 0 ==> best_move_this_depth is Some && real_score(
                    best_score as int,
                ),
                i == 0 ==> best_score == NO_SCORE,
                has_legal_move(st),
                best_overall matches Some(m) ==> legal_move(st, m),
                best_overall is None ==> overall_score == 0,
                kings_ok(st.cells) && depth > 1 ==> best_overall is Some,
                kings_ok(st.cells) ==> real_score(overall_score as int),
                info.time_limit_ms() == time_limit_ms,
                info.zob@.same_tables(keys0),
                sure == (time_limit_ms is None && max_depth == 2 && kings_ok(st.cells)
                    && no_key_clash(keys0, st)),
                sure && depth == 1 ==> table_empty(info.tt@) && (alpha == -WINDOW || small_score(
                    alpha as int,
                )),
                plain == (time_limit_ms is None && max_depth == 1 && kings_ok(st.cells)),
                plain ==> table_empty(info.tt@) && (if i == 0 {
                    alpha == -WINDOW
                } else {
                    alpha == best_score && small_score(alpha as int) && best_score == reply_score(
                        st,
                        best_move_this_depth.unwrap(),
                    )
                }),
                plain ==> forall|j: int|
                    0 <= j < i ==> best_score >= reply_score(st, #[trigger] root_moves@[j]),
                sure && depth == 2 && !mate_among(st, root_moves@, i as int) ==> (alpha == -WINDOW
                    || small_score(alpha as int)) && table_small(info.tt@) && keys_of_replies(
                    info.tt@,
                    keys0,
                    st,
                ) && (i > 0 ==> small_score(best_score as int)),
                sure && depth == 2 && mate_among(st, root_moves@, i as int)
                    ==> best_move_this_depth is Some && mates(st, best_move_this_depth.unwrap())
                    && best_score == MATE - 1,
            decreases root_moves@.len() - i,
        {
            let m = root_moves[i];
            proof {
                assert(root_moves@.contains(m));
                lemma_search_step(st, m);
            }
            board.make_move(m.from, m.to, m.promotion);
            let ghost child = make(st, m);
            assert(board@ == child);
            let ghost table_before = info.tt@;
            let below = depth - 1;
            let low = -beta;
            let high = -alpha;
            let slots = info.tt.bucket_count();
            proof {
                lemma_hash_same_tables(info.zob@, keys0, child);
                if sure && depth == 2 && !mate_among(st, root_moves@, i as int) && mates(st, m) {
                    lemma_mate_is_not_in_table(table_before, keys0, st, m, below, low, high);
                }
                if plain {
                    lemma_count_bounds(child.cells, Piece::Empty, 128);
                    lemma_quiet_value_small(child, piece_count(child.cells, 128) as nat);
                    if slots >= 1 {
                        lemma_slot_in_range(info.zob@.hash_of(child), slots as nat);
                    }
                }
            }
            let val = -negamax(board, below, 1, low, high, &mut info);
            let ghost x = board@;
            board.undo_move();
            proof {
                lemma_undo_same_game(x, child, st);
                if sure && depth == 2 && !mate_among(st, root_moves@, i as int) && !mates(st, m) {
                    assert(legal_move(st, m));
                    assert forall|k: int| 0 <= k < info.tt@.buckets.len() implies reply_entry(
                        #[trigger] info.tt@.buckets[k],
                        keys0,
                        st,
                    ) by {
                        assert(reply_entry(table_before.buckets[k], keys0, st));
                    }
                }
                assert(mate_among(st, root_moves@, i + 1) == (mate_among(st, root_moves@, i as int)
                    || mates(st, m)));
            }
            if val > best_score {
                best_score = val;
                best_move_this_depth = Some(m);
            }
            if val > alpha {
                alpha = val;
            }
            i += 1;
            if info.time_is_up() {
                if best_overall.is_some() {
                    return info.result(best_overall, overall_score);
                } else if best_move_this_depth.is_some() {
                    return info.result(best_move_this_depth, best_score);
                }
                return info.result(None, 0);
            }
        }
        proof {
            if plain {
                assert forall|n: Move| #[trigger] legal_move(st, n) implies best_score
                    >= reply_score(st, n) by {
                    assert(root_moves@.contains(n));
                    let j = choose|j: int| 0 <= j < root_moves@.len() && root_moves@[j] == n;
                    assert(best_score >= reply_score(st, root_moves@[j]));
                }
            }
            if sure && depth == 2 && exists|m: Move| mates(st, m) {
                let m = choose|m: Move| mates(st, m);
                assert(root_moves@.contains(m));
                let j = choose|j: int| 0 <= j < root_moves@.len() && root_moves@[j] == m;
                lemma_mate_among(st, root_moves@, root_moves@.len() as int, j);
            }
        }
        if let Some(m) = best_move_this_depth {
            best_overall = Some(m);
            overall_score = best_score;
        }
        depth += 1;
    }
    info.result(best_overall, overall_score)
}

/// The engine's move in the position: the best move of a search to
/// `depth`, within `time_ms` milliseconds if a limit is given. A search to
/// depth 2 without a time limit plays a mate in one where there is one, if
/// the keys of seed 2024 tell the positions after the mating moves from
/// those after the others, which [`keys_do_not_clash`] tests.
pub fn ai_move(board: &mut Board, depth: i32, time_ms: Option<u64>) -> (r: Option<Move>)
    requires
        searchable(old(board)@, depth),
    ensures
        final(board)@.same_game(old(board)@),
        r matches Some(m) ==> legal_move(old(board)@, m),
        depth < 1 || !has_legal_move(old(board)@) ==> r is None,
        depth >= 1 && has_legal_move(old(board)@) && kings_ok(old(board)@.cells) ==> r is Some,
        forall|only: Move|
            depth >= 1 && kings_ok(old(board)@.cells) && legal_move(old(board)@, only) && (forall|
                m: Move,
            |
                legal_move(old(board)@, m) ==> m == only) ==> r == Some(only),
        forall|keys: ZobristState|
            #![trigger keys.drawn_from(2024)]
            keys.drawn_from(2024) && no_key_clash(keys, old(board)@) && time_ms is None && depth
                == 2 && kings_ok(old(board)@.cells) && (exists|m: Move| mates(old(board)@, m))
                ==> r is Some && mates(old(board)@, r.unwrap()),
        time_ms is None && depth == 1 && kings_ok(old(board)@.cells) && has_legal_move(
            old(board)@,
        ) ==> r is Some && forall|n: Move| #[trigger]
            legal_move(old(board)@, n) ==> reply_score(old(board)@, r.unwrap()) >= reply_score(
                old(board)@,
                n,
            ),
{
    search_root(board, depth, time_ms).best_move
}

} // verus!
