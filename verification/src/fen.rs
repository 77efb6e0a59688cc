//! Forsyth-Edwards Notation: reading a position from text and writing it.

use vstd::prelude::*;
use crate::board::{Board, BoardState};
use crate::piece::Piece;
use crate::square::Sq;
use crate::text::{
    all_digits,
    chars_of,
    decimal_digits,
    decimal_value,
    digit_of,
    digit_value,
    named_square,
    parse_u32,
    parse_u32_spec,
    push_decimal,
    push_square_name,
    split_whitespace,
    square_name,
    square_of_chars,
    string_of,
    texts,
    tokens,
};

verus! {

/// Where the reading of a piece placement stands: the cells filled so
/// far, and the rank and file of the next square.
pub struct Placement {
    pub cells: Seq<Piece>,
    pub rank: int,
    pub file: int,
}

/// The placement after one more character: a slash starts the rank below
/// at its first file; a digit skips as many files; any other character
/// puts the piece it names (nothing, for a character that names none) on
/// the next square and moves on one file. What falls off the board is
/// dropped.
pub open spec fn place_step(p: Placement, c: char) -> Placement {
    if c == '/' {
        Placement { rank: p.rank - 1, file: 0, ..p }
    } else if digit_value(c) is Some {
        Placement { file: p.file + digit_value(c).unwrap(), ..p }
    } else {
        Placement {
            cells: if 0 <= p.rank && p.file < 8 {
                p.cells.update(16 * p.rank + p.file, Piece::spec_from_char(c))
            } else {
                p.cells
            },
            file: p.file + 1,
            ..p
        }
    }
}

/// The placement before the first character: an empty board, and the
/// first file of the top rank.
pub open spec fn place_start() -> Placement {
    Placement { cells: Seq::new(128, |i: int| Piece::Empty), rank: 7, file: 0 }
}

/// The placement after the first `n` characters of the placement field.
pub open spec fn place_upto(s: Seq<char>, n: int) -> Placement
    decreases n,
{
    if n <= 0 {
        place_start()
    } else {
        place_step(place_upto(s, n - 1), s[n - 1])
    }
}

/// The cells that a placement field describes.
pub open spec fn placement_cells(s: Seq<char>) -> Seq<Piece> {
    place_upto(s, s.len() as int).cells
}

/// The castling rights that a field names: one bit for each of the
/// letters `K`, `Q`, `k`, `q` that occurs in it.
pub open spec fn castling_of(s: Seq<char>) -> u8 {
    ((if s.contains('K') { 1int } else { 0int }) + (if s.contains('Q') { 2int } else { 0int }) + (
    if s.contains('k') {
        4int
    } else {
        0int
    }) + (if s.contains('q') { 8int } else { 0int })) as u8
}

/// The field of a FEN text that is not well formed.
#[derive(Clone, Copy, Debug, PartialEq, Eq, Structural)]
pub enum FenError {
    /// The placement is missing, does not have eight ranks of eight files
    /// each, or holds a character that is neither a piece letter nor a
    /// digit from 1 to 8.
    Placement,
    /// The side to move is neither `w` nor `b`.
    Side,
    /// The castling rights are neither `-` nor letters of `KQkq`.
    Castling,
    /// The en passant target is neither `-` nor a square in lower case.
    EnPassant,
    /// The halfmove clock is no number that fits 32 bits.
    Halfmove,
    /// The move number is no number that fits 32 bits.
    Fullmove,
}

/// A letter of a piece.
pub open spec fn piece_letter(c: char) -> bool {
    Piece::spec_from_char(c) != Piece::Empty
}

/// Whether the character `c` may follow in a placement that stands at `p`:
/// a slash at the end of a rank that is not the last; a digit from 1 to 8
/// that skips no more files than the rank has left; a piece letter where
/// the rank has a file left.
pub open spec fn step_ok(p: Placement, c: char) -> bool {
    if c == '/' {
        p.file == 8 && p.rank > 0
    } else if digit_value(c) is Some {
        1 <= digit_value(c).unwrap() && p.file + digit_value(c).unwrap() <= 8
    } else {
        piece_letter(c) && p.file < 8
    }
}

/// Each of the first `n` characters of a placement may follow those
/// before it.
pub open spec fn placement_ok_upto(s: Seq<char>, n: int) -> bool
    decreases n,
{
    n <= 0 || (placement_ok_upto(s, n - 1) && step_ok(place_upto(s, n - 1), s[n - 1]))
}

/// A well-formed placement: eight ranks between seven slashes, each of
/// piece letters and digits from 1 to 8 that fill exactly eight files.
pub open spec fn placement_ok(s: Seq<char>) -> bool {
    &&& placement_ok_upto(s, s.len() as int)
    &&& place_upto(s, s.len() as int).rank == 0
    &&& place_upto(s, s.len() as int).file == 8
}

/// A well-formed side to move: `w` or `b`.
pub open spec fn side_ok(t: Seq<char>) -> bool {
    t == seq!['w'] || t == seq!['b']
}

/// A letter of a castling right.
pub open spec fn right_letter(c: char) -> bool {
    c == 'K' || c == 'Q' || c == 'k' || c == 'q'
}

/// Well-formed castling rights: `-`, or one or more letters of `KQkq`.
pub open spec fn castling_ok(t: Seq<char>) -> bool {
    t == seq!['-'] || (t.len() > 0 && forall|i: int| 0 <= i < t.len() ==> right_letter(#[trigger] t[i]))
}

/// A well-formed en passant target: `-`, or a file letter from `a` to `h`
/// and a rank digit from `1` to `8`.
pub open spec fn target_ok(t: Seq<char>) -> bool {
    t == seq!['-'] || (t.len() == 2 && 0x61 <= t[0] as u32 <= 0x68 && 0x31 <= t[1] as u32 <= 0x38)
}

/// A well-formed counter: one or more digits that spell a number which
/// fits 32 bits.
pub open spec fn counter_ok(t: Seq<char>) -> bool {
    t.len() > 0 && all_digits(t) && decimal_value(t) <= u32::MAX
}

/// The first field that is not well formed, if there is one. Fields that
/// are missing at the end are not asked for; the placement is.
pub open spec fn fields_error(t: Seq<Seq<char>>) -> Option<FenError> {
    if t.len() == 0 || !placement_ok(t[0]) {
        Some(FenError::Placement)
    } else if t.len() > 1 && !side_ok(t[1]) {
        Some(FenError::Side)
    } else if t.len() > 2 && !castling_ok(t[2]) {
        Some(FenError::Castling)
    } else if t.len() > 3 && !target_ok(t[3]) {
        Some(FenError::EnPassant)
    } else if t.len() > 4 && !counter_ok(t[4]) {
        Some(FenError::Halfmove)
    } else if t.len() > 5 && !counter_ok(t[5]) {
        Some(FenError::Fullmove)
    } else {
        None
    }
}

/// The first field of a FEN text that is not well formed, if there is
/// one. The fields are the tokens of the text; what follows the sixth is
/// not read.
pub open spec fn fen_error(s: Seq<char>) -> Option<FenError> {
    fields_error(tokens(s))
}

/// The position that the fields of a FEN text describe: the placement,
/// the side to move (`w` for white), the castling rights, the en passant
/// target, the halfmove clock and the move number. Fields that are missing
/// at the end give white to move, no rights, no target, clock 0 and move
/// number 1. For fields that are well formed this is their plain reading;
/// [`fields_error`] says which are not.
pub open spec fn fields_state(t: Seq<Seq<char>>) -> BoardState {
    BoardState {
        cells: if t.len() > 0 {
            placement_cells(t[0])
        } else {
            Seq::new(128, |i: int| Piece::Empty)
        },
        side_white: if t.len() > 1 {
            t[1] == seq!['w']
        } else {
            true
        },
        castling: if t.len() > 2 {
            castling_of(t[2])
        } else {
            0
        },
        ep: if t.len() > 3 && t[3] != seq!['-'] {
            named_square(t[3])
        } else {
            None
        },
        halfmove_clock: if t.len() > 4 {
            match parse_u32_spec(t[4]) {
                Some(n) => n,
                None => 0,
            }
        } else {
            0
        },
        fullmove: if t.len() > 5 {
            match parse_u32_spec(t[5]) {
                Some(n) => n,
                None => 1,
            }
        } else {
            1
        },
        history: Seq::empty(),
        redo_stack: Seq::empty(),
    }
}

/// The position that a well-formed FEN text describes.
pub open spec fn parse_fen(s: Seq<char>) -> BoardState {
    fields_state(tokens(s))
}

/// A placement that is well formed so far stands on the board, and has put
/// nothing off it.
pub proof fn lemma_placement_on_board(s: Seq<char>, n: int)
    requires
        0 <= n <= s.len(),
        placement_ok_upto(s, n),
    ensures
        0 <= place_upto(s, n).rank <= 7,
        0 <= place_upto(s, n).file <= 8,
        place_upto(s, n).cells.len() == 128,
        forall|i: int|
            0 <= i < 128 && !(i % 16 < 8) ==> #[trigger] place_upto(s, n).cells[i] == Piece::Empty,
    decreases n,
{
    if n > 0 {
        lemma_placement_on_board(s, n - 1);
    }
}

/// A placement that is well formed is well formed up to each of its
/// characters.
pub proof fn lemma_placement_prefix(s: Seq<char>, k: int, n: int)
    requires
        0 <= k <= n,
        placement_ok_upto(s, n),
    ensures
        placement_ok_upto(s, k),
    decreases n,
{
    if k < n {
        lemma_placement_prefix(s, k, n - 1);
    }
}

/// Whether a character occurs in a text.
fn has_char(s: &Vec<char>, c: char) -> (b: bool)
    ensures
        b == s@.contains(c),
{
    let mut i: usize = 0;
    while i < s.len()
        invariant
            i <= s@.len(),
            forall|j: int| 0 <= j < i ==> s@[j] != c,
        decreases s@.len() - i,
    {
        if s[i] == c {
            return true;
        }
        i += 1;
    }
    false
}

/// Whether a text is the one character `c`.
fn is_char(s: &Vec<char>, c: char) -> (b: bool)
    ensures
        b == (s@ == seq![c]),
{
    let b = s.len() == 1 && s[0] == c;
    proof {
        if b {
            assert(s@ =~= seq![c]);
        } else if s@.len() == 1 {
            assert(seq![c][0] == c);
        } else {
            assert(seq![c].len() == 1);
        }
    }
    b
}

/// Puts the pieces of a placement field on the board.
fn place_pieces(board: &mut Board, field: &Vec<char>)
    requires
        old(board)@.cells == Seq::new(128, |i: int| Piece::Empty),
    ensures
        final(board)@ == (BoardState { cells: placement_cells(field@), ..old(board)@ }),
{
    let ghost s = field@;
    let ghost st0 = board@;
    let mut rank: usize = 7;
    let mut rank_ok: bool = true;
    let mut file: usize = 0;
    let mut i: usize = 0;
    while i < field.len()
        invariant
            i <= s.len(),
            s == field@,
            board@ == (BoardState { cells: place_upto(s, i as int).cells, ..st0 }),
            board@.cells.len() == 128,
            rank_ok ==> rank == place_upto(s, i as int).rank && rank <= 7,
            !rank_ok ==> place_upto(s, i as int).rank < 0,
            place_upto(s, i as int).rank <= 7,
            0 <= place_upto(s, i as int).file,
            file <= 8,
            file == (if place_upto(s, i as int).file < 8 {
                place_upto(s, i as int).file
            } else {
                8
            }),
        decreases s.len() - i,
    {
        let c = field[i];
        if c == '/' {
            if rank_ok && rank > 0 {
                rank -= 1;
            } else {
                rank_ok = false;
            }
            file = 0;
        } else if let Some(d) = digit_of(c) {
            let d = d as usize;
            file = if file + d < 8 {
                file + d
            } else {
                8
            };
        } else {
            if rank_ok && file < 8 {
                board.set_piece(16 * rank + file, Piece::from_char(c));
            }
            if file < 8 {
                file += 1;
            }
        }
        i += 1;
    }
}

/// Whether a placement field is well formed.
fn check_placement(field: &Vec<char>) -> (ok: bool)
    ensures
        ok == placement_ok(field@),
{
    let ghost s = field@;
    let mut rank: usize = 7;
    let mut file: usize = 0;
    let mut i: usize = 0;
    while i < field.len()
        invariant
            i <= s.len(),
            s == field@,
            placement_ok_upto(s, i as int),
            rank == place_upto(s, i as int).rank,
            file == place_upto(s, i as int).file,
            rank <= 7,
            file <= 8,
        decreases s.len() - i,
    {
        let c = field[i];
        let step = if c == '/' {
            file == 8 && rank > 0
        } else if let Some(d) = digit_of(c) {
            1 <= d && file + d as usize <= 8
        } else {
            Piece::from_char(c) != Piece::Empty && file < 8
        };
        if !step {
            proof {
                if placement_ok(s) {
                    lemma_placement_prefix(s, i + 1, s.len() as int);
                }
            }
            return false;
        }
        if c == '/' {
            rank -= 1;
            file = 0;
        } else if let Some(d) = digit_of(c) {
            file += d as usize;
        } else {
            file += 1;
        }
        i += 1;
    }
    rank == 0 && file == 8
}

/// Whether a castling field is well formed.
fn check_castling(field: &Vec<char>) -> (ok: bool)
    ensures
        ok == castling_ok(field@),
{
    if is_char(field, '-') {
        return true;
    }
    if field.len() == 0 {
        return false;
    }
    let mut i: usize = 0;
    while i < field.len()
        invariant
            i <= field@.len(),
            field@.len() > 0,
            field@ != seq!['-'],
            forall|j: int| 0 <= j < i ==> right_letter(#[trigger] field@[j]),
        decreases field@.len() - i,
    {
        let c = field[i];
        if !(c == 'K' || c == 'Q' || c == 'k' || c == 'q') {
            assert(!right_letter(field@[i as int]));
            return false;
        }
        i += 1;
    }
    true
}

/// Whether an en passant field is well formed.
fn check_target(field: &Vec<char>) -> (ok: bool)
    ensures
        ok == target_ok(field@),
{
    if is_char(field, '-') {
        return true;
    }
    if field.len() != 2 {
        return false;
    }
    let f = field[0] as u32;
    let r = field[1] as u32;
    0x61 <= f && f <= 0x68 && 0x31 <= r && r <= 0x38
}

/// Whether a counter field is well formed.
fn check_counter(field: &Vec<char>) -> (ok: bool)
    ensures
        ok == counter_ok(field@),
        ok ==> parse_u32_spec(field@) is Some,
{
    if field.len() == 0 {
        return false;
    }
    if field[0] == '+' {
        assert(digit_value(field@[0]) is None);
        return false;
    }
    parse_u32(field).is_some()
}

/// The first field that is not well formed, if there is one.
fn check_fields(parts: &Vec<Vec<char>>) -> (r: Option<FenError>)
    ensures
        r == fields_error(texts(parts@)),
{
    let ghost t = texts(parts@);
    assert(forall|i: int| 0 <= i < parts@.len() ==> (#[trigger] parts@[i])@ == t[i]);
    if parts.len() == 0 || !check_placement(&parts[0]) {
        return Some(FenError::Placement);
    }
    if parts.len() > 1 && !(is_char(&parts[1], 'w') || is_char(&parts[1], 'b')) {
        return Some(FenError::Side);
    }
    if parts.len() > 2 && !check_castling(&parts[2]) {
        return Some(FenError::Castling);
    }
    if parts.len() > 3 && !check_target(&parts[3]) {
        return Some(FenError::EnPassant);
    }
    if parts.len() > 4 && !check_counter(&parts[4]) {
        return Some(FenError::Halfmove);
    }
    if parts.len() > 5 && !check_counter(&parts[5]) {
        return Some(FenError::Fullmove);
    }
    None
}

/// The board that fields describe.
fn board_of_fields(parts: &Vec<Vec<char>>) -> (b: Board)
    ensures
        b@ == fields_state(texts(parts@)),
        b@.castling < 16,
{
    let mut b = Board::empty();
    let ghost t = texts(parts@);
    assert(forall|i: int| 0 <= i < parts@.len() ==> (#[trigger] parts@[i])@ == t[i]);
    if parts.len() == 0 {
        return b;
    }
    place_pieces(&mut b, &parts[0]);
    if parts.len() > 1 {
        b.set_side_to_move(is_char(&parts[1], 'w'));
    }
    if parts.len() > 2 {
        let c = &parts[2];
        let mut rights: u8 = 0;
        if has_char(c, 'K') {
            rights += 1;
        }
        if has_char(c, 'Q') {
            rights += 2;
        }
        if has_char(c, 'k') {
            rights += 4;
        }
        if has_char(c, 'q') {
            rights += 8;
        }
        b.set_castling_rights(rights);
    }
    if parts.len() > 3 {
        if !is_char(&parts[3], '-') {
            b.set_ep_target(square_of_chars(&parts[3]));
        }
    }
    let mut halfmove: u32 = 0;
    let mut fullmove: u32 = 1;
    if parts.len() > 4 {
        halfmove = match parse_u32(&parts[4]) {
            Some(n) => n,
            None => 0,
        };
    }
    if parts.len() > 5 {
        fullmove = match parse_u32(&parts[5]) {
            Some(n) => n,
            None => 1,
        };
    }
    b.set_counters(halfmove, fullmove);
    b
}

impl Board {
    /// The board that a FEN text describes, or the first field of the text
    /// that is not well formed. A board is made only of a text whose
    /// fields are all well formed; it has no piece off the board.
    pub fn from_fen(fen: &str) -> (r: Result<Board, FenError>)
        ensures
            match r {
                Ok(b) => {
                    &&& fen_error(fen@) is None
                    &&& b@ == parse_fen(fen@)
                    &&& b@.castling < 16
                    &&& forall|i: int|
                        0 <= i < 128 && !(i % 16 < 8) ==> #[trigger] b@.cells[i] == Piece::Empty
                },
                Err(e) => fen_error(fen@) == Some(e),
            },
    {
        let text = chars_of(fen);
        let parts = split_whitespace(&text);
        match check_fields(&parts) {
            Some(e) => Err(e),
            None => {
                proof {
                    let field = tokens(fen@)[0];
                    lemma_placement_on_board(field, field.len() as int);
                }
                Ok(board_of_fields(&parts))
            },
        }
    }
}

/// The text of the first `f` files of rank `r`, and the number of empty
/// squares at its end that are not written yet: a piece is written as its
/// letter, a run of empty squares as its length.
pub open spec fn rank_scan(cells: Seq<Piece>, r: int, f: int) -> (Seq<char>, int)
    decreases f,
{
    if f <= 0 {
        (Seq::empty(), 0)
    } else {
        let (text, run) = rank_scan(cells, r, f - 1);
        let p = cells[16 * r + f - 1];
        if p == Piece::Empty {
            (text, run + 1)
        } else {
            ((if run > 0 {
                text + decimal_digits(run as nat)
            } else {
                text
            }).push(p.spec_to_char()), 0)
        }
    }
}

/// The text of rank `r`.
pub open spec fn rank_text(cells: Seq<Piece>, r: int) -> Seq<char> {
    let (text, run) = rank_scan(cells, r, 8);
    if run > 0 {
        text + decimal_digits(run as nat)
    } else {
        text
    }
}

/// The text of the top `k` ranks, each but the lowest followed by a slash.
pub open spec fn ranks_text(cells: Seq<Piece>, k: int) -> Seq<char>
    decreases k,
{
    if k <= 0 {
        Seq::empty()
    } else {
        let r = 8 - k;
        ranks_text(cells, k - 1) + rank_text(cells, r) + (if r > 0 {
            seq!['/']
        } else {
            Seq::empty()
        })
    }
}

/// The letters of the castling rights, `-` for none.
pub open spec fn castling_text(c: u8) -> Seq<char> {
    let k: Seq<char> = if c & 1 != 0 { seq!['K'] } else { Seq::empty() };
    let q: Seq<char> = if c & 2 != 0 { seq!['Q'] } else { Seq::empty() };
    let bk: Seq<char> = if c & 4 != 0 { seq!['k'] } else { Seq::empty() };
    let bq: Seq<char> = if c & 8 != 0 { seq!['q'] } else { Seq::empty() };
    let all = k + q + bk + bq;
    if all.len() == 0 {
        seq!['-']
    } else {
        all
    }
}

/// The FEN text of a position: placement, side to move, castling rights,
/// en passant target, halfmove clock and move number, one space between
/// them.
pub open spec fn fen_text(st: BoardState) -> Seq<char> {
    ranks_text(st.cells, 8) + seq![' '] + seq![if st.side_white { 'w' } else { 'b' }] + seq![' ']
        + castling_text(st.castling) + seq![' '] + (match st.ep {
        Some(e) => square_name(e),
        None => seq!['-'],
    }) + seq![' '] + decimal_digits(st.halfmove_clock as nat) + seq![' '] + decimal_digits(
        st.fullmove as nat,
    )
}

/// Appends the text of one rank.
fn push_rank(board: &Board, r: usize, out: &mut Vec<char>)
    requires
        r < 8,
    ensures
        final(out)@ == old(out)@ + rank_text(board@.cells, r as int),
{
    let ghost cells = board@.cells;
    let ghost start = out@;
    let mut run: u32 = 0;
    let mut f: usize = 0;
    assert(out@ =~= start + rank_scan(cells, r as int, 0).0);
    while f < 8
        invariant
            f <= 8,
            r < 8,
            cells == board@.cells,
            out@ == start + rank_scan(cells, r as int, f as int).0,
            run == rank_scan(cells, r as int, f as int).1,
            run <= f,
        decreases 8 - f,
    {
        let p = board.piece_at(16 * r + f);
        let ghost before = rank_scan(cells, r as int, f as int).0;
        if p.is_empty() {
            run += 1;
        } else {
            if run > 0 {
                push_decimal(out, run);
                run = 0;
            }
            out.push(p.to_char());
        }
        f += 1;
        assert(out@ =~= start + rank_scan(cells, r as int, f as int).0);
    }
    if run > 0 {
        push_decimal(out, run);
    }
    assert(out@ =~= start + rank_text(cells, r as int));
}

/// Appends the text of the eight ranks.
fn push_placement(board: &Board, out: &mut Vec<char>)
    ensures
        final(out)@ == old(out)@ + ranks_text(board@.cells, 8),
{
    let ghost st = board@;
    let ghost start = out@;
    let mut k: usize = 0;
    assert(out@ =~= start + ranks_text(st.cells, 0));
    while k < 8
        invariant
            k <= 8,
            st == board@,
            out@ == start + ranks_text(st.cells, k as int),
        decreases 8 - k,
    {
        let r = 7 - k;
        push_rank(board, r, out);
        if r > 0 {
            out.push('/');
        }
        k += 1;
        assert(out@ =~= start + ranks_text(st.cells, k as int));
    }
}

/// Appends the letters of the castling rights.
fn push_castling(c: u8, out: &mut Vec<char>)
    ensures
        final(out)@ == old(out)@ + castling_text(c),
{
    let ghost start = out@;
    let mut any = false;
    if c & 1 != 0 {
        out.push('K');
        any = true;
    }
    if c & 2 != 0 {
        out.push('Q');
        any = true;
    }
    if c & 4 != 0 {
        out.push('k');
        any = true;
    }
    if c & 8 != 0 {
        out.push('q');
        any = true;
    }
    if !any {
        out.push('-');
    }
    assert(out@ =~= start + castling_text(c));
}

/// Appends the en passant field.
fn push_ep(ep: Option<Sq>, out: &mut Vec<char>)
    ensures
        final(out)@ == old(out)@ + (match ep {
            Some(e) => square_name(e),
            None => seq!['-'],
        }),
{
    match ep {
        Some(e) => {
            push_square_name(out, e);
        },
        None => {
            out.push('-');
            assert(out@ =~= old(out)@ + seq!['-']);
        },
    }
}

/// Appends the side to move between two spaces.
fn push_side(white: bool, out: &mut Vec<char>)
    ensures
        final(out)@ == old(out)@ + seq![' '] + seq![if white { 'w' } else { 'b' }] + seq![' '],
{
    out.push(' ');
    out.push(if white { 'w' } else { 'b' });
    out.push(' ');
    assert(out@ =~= old(out)@ + seq![' '] + seq![if white { 'w' } else { 'b' }] + seq![' ']);
}

/// Appends a space.
fn push_space(out: &mut Vec<char>)
    ensures
        final(out)@ == old(out)@ + seq![' '],
{
    out.push(' ');
    assert(out@ =~= old(out)@ + seq![' ']);
}

impl Board {
    /// The FEN text of the position.
    pub fn to_fen(&self) -> (fen: String)
        ensures
            fen@ == fen_text(self@),
    {
        let mut out: Vec<char> = Vec::new();
        assert(out@ + ranks_text(self@.cells, 8) =~= ranks_text(self@.cells, 8));
        push_placement(self, &mut out);
        push_side(self.white_to_move(), &mut out);
        push_castling(self.castling_rights(), &mut out);
        push_space(&mut out);
        push_ep(self.ep_target(), &mut out);
        push_space(&mut out);
        push_decimal(&mut out, self.halfmove());
        push_space(&mut out);
        push_decimal(&mut out, self.fullmove_number());
        string_of(&out)
    }
}

} // verus!
