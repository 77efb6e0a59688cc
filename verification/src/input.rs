//! Moves as text: reading a move that a user typed, checking it against
//! the legal moves, and writing a move.

use vstd::prelude::*;
use crate::attack::{is_king_attacked, king_attacked};
use crate::board::{Board, BoardState};
use crate::laws::make;
use crate::movegen::{Move, gen_moves, legal_move, lemma_pseudo_legal_squares};
use crate::piece::Piece;
use crate::search::has_legal_move;
use crate::text::{
    chars_of,
    named_square,
    push_square_name,
    square_name,
    square_of_chars,
    split_whitespace,
    string_of,
    texts,
    tokens,
    trim,
    trimmed,
};

verus! {

/// Why a text is not a move.
#[derive(Clone, Copy, Debug, PartialEq, Eq, Structural)]
pub enum MoveTextError {
    /// Fewer than four characters.
    TooShort,
    /// The first two characters name no square.
    InvalidSource,
    /// The third and fourth characters name no square.
    InvalidDestination,
    /// The fifth character is none of `q`, `r`, `b`, `n`.
    InvalidPromotion,
}

/// Why a text does not have the outline of a position.
#[derive(Clone, Copy, Debug, PartialEq, Eq, Structural)]
pub enum FenOutlineError {
    /// The text has no field.
    Empty,
    /// The placement field does not have eight ranks.
    RankCount,
}

/// Why a move was not played.
#[derive(Clone, Copy, Debug, PartialEq, Eq, Structural)]
pub enum MoveError {
    /// The text is not a move.
    Text(MoveTextError),
    /// The move is not legal in the position.
    Illegal,
}

/// The lower-case form of an ASCII letter; any other character itself.
pub open spec fn lower(c: char) -> char {
    if 'A' <= c <= 'Z' {
        ((c as u32 + 32) as u8) as char
    } else {
        c
    }
}

/// A text in lower case, letter by letter.
pub open spec fn lowered(s: Seq<char>) -> Seq<char> {
    s.map_values(|c: char| lower(c))
}

/// A square in lower case: a file letter `a` to `h`, then a rank digit
/// `1` to `8`, and nothing more.
pub open spec fn is_square_text(s: Seq<char>) -> bool {
    s.len() == 2 && 'a' <= s[0] <= 'h' && '1' <= s[1] <= '8'
}

/// A letter of a piece that a pawn can become.
pub open spec fn is_promotion_letter(c: char) -> bool {
    c == 'q' || c == 'r' || c == 'b' || c == 'n'
}

/// What a text says as a move: after white space is cut off both ends and
/// letters are put in lower case, two characters for the square left, two
/// for the square reached, and, if there is a fifth, the letter of the
/// piece that a pawn becomes. What follows is not read.
pub open spec fn move_text(input: Seq<char>) -> Result<(Seq<char>, Seq<char>, Option<char>), MoveTextError> {
    let t = lowered(trimmed(input));
    if t.len() < 4 {
        Err(MoveTextError::TooShort)
    } else if !is_square_text(t.subrange(0, 2)) {
        Err(MoveTextError::InvalidSource)
    } else if !is_square_text(t.subrange(2, 4)) {
        Err(MoveTextError::InvalidDestination)
    } else if t.len() >= 5 && !is_promotion_letter(t[4]) {
        Err(MoveTextError::InvalidPromotion)
    } else {
        Ok(
            (
                t.subrange(0, 2),
                t.subrange(2, 4),
                if t.len() >= 5 {
                    Some(t[4])
                } else {
                    None
                },
            ),
        )
    }
}

/// The number of slashes in a text.
pub open spec fn slashes(s: Seq<char>) -> int
    decreases s.len(),
{
    if s.len() == 0 {
        0
    } else {
        slashes(s.drop_last()) + if s.last() == '/' {
            1int
        } else {
            0int
        }
    }
}

/// What is wrong with a text as a position, if anything is: it has no
/// field, or its first field does not consist of eight ranks between
/// seven slashes.
pub open spec fn fen_check(s: Seq<char>) -> Result<(), FenOutlineError> {
    let t = tokens(s);
    if t.len() == 0 {
        Err(FenOutlineError::Empty)
    } else if slashes(t[0]) != 7 {
        Err(FenOutlineError::RankCount)
    } else {
        Ok(())
    }
}

fn lower_char(c: char) -> (r: char)
    ensures
        r == lower(c),
{
    let u = c as u32;
    if 0x41 <= u && u <= 0x5A {
        ((u + 32) as u8) as char
    } else {
        c
    }
}

/// Checks of what a user types.
pub struct InputValidator;

impl InputValidator {
    /// Whether two characters name a square in lower case.
    fn square_chars(a: char, b: char) -> (ok: bool)
        ensures
            ok == is_square_text(seq![a, b]),
    {
        let f = a as u32;
        let r = b as u32;
        0x61 <= f && f <= 0x68 && 0x31 <= r && r <= 0x38
    }

    /// Whether a text names a square in lower case, such as `e2`.
    pub fn is_valid_square(sq: &str) -> (ok: bool)
        ensures
            ok == is_square_text(sq@),
    {
        let v = chars_of(sq);
        if v.len() != 2 {
            return false;
        }
        proof {
            assert(v@ =~= seq![v@[0], v@[1]]);
        }
        InputValidator::square_chars(v[0], v[1])
    }

    /// Reads a move such as `e2e4` or `e7e8q`: the two squares and the
    /// promotion letter, in lower case.
    pub fn validate_move(input: &str) -> (r: Result<(String, String, Option<char>), MoveTextError>)
        ensures
            match r {
                Ok((from, to, promotion)) => move_text(input@) == Ok::<
                    (Seq<char>, Seq<char>, Option<char>),
                    MoveTextError,
                >((from@, to@, promotion)),
                Err(e) => move_text(input@) == Err::<
                    (Seq<char>, Seq<char>, Option<char>),
                    MoveTextError,
                >(e),
            },
    {
        let raw = chars_of(input);
        let cut = trim(&raw);
        let ghost t = lowered(trimmed(input@));
        if cut.len() < 4 {
            return Err(MoveTextError::TooShort);
        }
        let c0 = lower_char(cut[0]);
        let c1 = lower_char(cut[1]);
        let c2 = lower_char(cut[2]);
        let c3 = lower_char(cut[3]);
        proof {
            assert(t.subrange(0, 2) =~= seq![c0, c1]);
            assert(t.subrange(2, 4) =~= seq![c2, c3]);
        }
        if !InputValidator::square_chars(c0, c1) {
            return Err(MoveTextError::InvalidSource);
        }
        if !InputValidator::square_chars(c2, c3) {
            return Err(MoveTextError::InvalidDestination);
        }
        let promotion = if cut.len() >= 5 {
            let p = lower_char(cut[4]);
            if !(p == 'q' || p == 'r' || p == 'b' || p == 'n') {
                return Err(MoveTextError::InvalidPromotion);
            }
            Some(p)
        } else {
            None
        };
        let mut from = String::new();
        from.push(c0);
        from.push(c1);
        let mut to = String::new();
        to.push(c2);
        to.push(c3);
        proof {
            assert(from@ =~= seq![c0, c1]);
            assert(to@ =~= seq![c2, c3]);
        }
        Ok((from, to, promotion))
    }

    /// Checks that a text has the outline of a position: at least one
    /// field, and eight ranks in the first.
    pub fn validate_fen(fen: &str) -> (r: Result<(), FenOutlineError>)
        ensures
            r == fen_check(fen@),
    {
        let text = chars_of(fen);
        let parts = split_whitespace(&text);
        if parts.len() == 0 {
            return Err(FenOutlineError::Empty);
        }
        let field = &parts[0];
        assert(field@ == tokens(fen@)[0]) by {
            assert(texts(parts@)[0] == parts@[0]@);
        }
        let mut count: usize = 0;
        let mut i: usize = 0;
        while i < field.len()
            invariant
                i <= field@.len(),
                count == slashes(field@.take(i as int)),
                count <= i,
            decreases field@.len() - i,
        {
            proof {
                assert(field@.take(i + 1).drop_last() =~= field@.take(i as int));
                assert(field@.take(i + 1).last() == field@[i as int]);
            }
            if field[i] == '/' {
                count += 1;
            }
            i += 1;
        }
        proof {
            assert(field@.take(field@.len() as int) =~= field@);
        }
        if count != 7 {
            return Err(FenOutlineError::RankCount);
        }
        Ok(())
    }
}

/// The piece of the given side that a promotion letter names.
pub open spec fn promotion_piece(white: bool, c: char) -> Piece {
    if c == 'q' {
        if white { Piece::WQ } else { Piece::BQ }
    } else if c == 'r' {
        if white { Piece::WR } else { Piece::BR }
    } else if c == 'b' {
        if white { Piece::WB } else { Piece::BB }
    } else {
        if white { Piece::WN } else { Piece::BN }
    }
}

/// The letter of the piece that a pawn becomes.
pub open spec fn promotion_letter(p: Piece) -> char {
    match p {
        Piece::WQ | Piece::BQ => 'q',
        Piece::WR | Piece::BR => 'r',
        Piece::WB | Piece::BB => 'b',
        Piece::WN | Piece::BN => 'n',
        Piece::WP | Piece::BP => 'p',
        Piece::WK | Piece::BK => 'k',
        Piece::Empty => '.',
    }
}

/// The move that a text asks for in a position: the squares it names, and
/// the piece of the side to move that its promotion letter names.
pub open spec fn requested_move(st: BoardState, input: Seq<char>) -> Result<Move, MoveError> {
    match move_text(input) {
        Err(e) => Err(MoveError::Text(e)),
        Ok((from, to, promotion)) => Ok(
            Move {
                from: named_square(from).unwrap(),
                to: named_square(to).unwrap(),
                promotion: match promotion {
                    Some(c) => Some(promotion_piece(st.side_white, c)),
                    None => None,
                },
            },
        ),
    }
}

/// The text of a move: the names of its two squares and, in lower case,
/// the letter of the piece that the pawn becomes.
pub open spec fn move_name(m: Move) -> Seq<char> {
    square_name(m.from) + square_name(m.to) + (match m.promotion {
        Some(p) => seq![promotion_letter(p)],
        None => Seq::empty(),
    })
}

fn same_piece_option(a: Option<Piece>, b: Option<Piece>) -> (r: bool)
    ensures
        r == (a == b),
{
    match (a, b) {
        (None, None) => true,
        (Some(x), Some(y)) => x == y,
        _ => false,
    }
}

impl Move {
    /// The text of the move, such as `e2e4` or `e7e8q`.
    pub fn to_string(&self) -> (s: String)
        ensures
            s@ == move_name(*self),
    {
        let mut out: Vec<char> = Vec::new();
        push_square_name(&mut out, self.from);
        push_square_name(&mut out, self.to);
        if let Some(p) = self.promotion {
            let c = match p {
                Piece::WQ | Piece::BQ => 'q',
                Piece::WR | Piece::BR => 'r',
                Piece::WB | Piece::BB => 'b',
                Piece::WN | Piece::BN => 'n',
                Piece::WP | Piece::BP => 'p',
                Piece::WK | Piece::BK => 'k',
                Piece::Empty => '.',
            };
            out.push(c);
        }
        assert(out@ =~= move_name(*self));
        string_of(&out)
    }
}

/// Plays the move that a text asks for, if the text is a move and the move
/// is legal; else the board is left as it was and the error says which of
/// the two failed.
pub fn try_make_move(board: &mut Board, move_str: &str) -> (r: Result<Move, MoveError>)
    requires
        old(board)@.halfmove_clock < u32::MAX,
        old(board)@.fullmove < u32::MAX,
    ensures
        match requested_move(old(board)@, move_str@) {
            Err(e) => r == Err::<Move, MoveError>(e) && final(board)@ == old(board)@,
            Ok(m) => if legal_move(old(board)@, m) {
                r == Ok::<Move, MoveError>(m) && final(board)@ == make(old(board)@, m)
            } else {
                r == Err::<Move, MoveError>(MoveError::Illegal) && final(board)@ == old(board)@
            },
        },
{
    let ghost st = board@;
    let (from_str, to_str, promo_char) = match InputValidator::validate_move(move_str) {
        Ok(parts) => parts,
        Err(e) => {
            return Err(MoveError::Text(e));
        },
    };
    let white = board.white_to_move();
    let from_chars = chars_of(from_str.as_str());
    let to_chars = chars_of(to_str.as_str());
    proof {
        lemma_square_text_names(from_chars@);
        lemma_square_text_names(to_chars@);
    }
    let from = match square_of_chars(&from_chars) {
        Some(s) => s,
        None => {
            return Err(MoveError::Illegal);
        },
    };
    let to = match square_of_chars(&to_chars) {
        Some(s) => s,
        None => {
            return Err(MoveError::Illegal);
        },
    };
    let promotion = match promo_char {
        Some(c) => Some(
            if c == 'q' {
                if white { Piece::WQ } else { Piece::BQ }
            } else if c == 'r' {
                if white { Piece::WR } else { Piece::BR }
            } else if c == 'b' {
                if white { Piece::WB } else { Piece::BB }
            } else {
                if white { Piece::WN } else { Piece::BN }
            },
        ),
        None => None,
    };
    let wanted = Move { from, to, promotion };
    assert(requested_move(st, move_str@) == Ok::<Move, MoveError>(wanted));
    let mut legal_moves: Vec<Move> = Vec::new();
    gen_moves(board, &mut legal_moves);
    let mut is_legal = false;
    let mut i: usize = 0;
    while i < legal_moves.len()
        invariant_except_break
            !is_legal,
            forall|j: int| 0 <= j < i ==> legal_moves@[j] != wanted,
        invariant
            i <= legal_moves@.len(),
            wanted == (Move { from, to, promotion }),
        ensures
            is_legal <==> legal_moves@.contains(wanted),
        decreases legal_moves@.len() - i,
    {
        let m = legal_moves[i];
        if m.from == from && m.to == to && same_piece_option(m.promotion, promotion) {
            is_legal = true;
            assert(legal_moves@[i as int] == wanted);
            break ;
        }
        i += 1;
    }
    if !is_legal {
        return Err(MoveError::Illegal);
    }
    proof {
        lemma_pseudo_legal_squares(st, wanted);
    }
    board.make_move(from, to, promotion);
    Ok(wanted)
}

/// A square in lower case names a square.
pub proof fn lemma_square_text_names(s: Seq<char>)
    requires
        is_square_text(s),
    ensures
        named_square(s) is Some,
{
    assert(!crate::text::is_space(s[0]));
    assert(!crate::text::is_space(s[1]));
    assert(s.last() == s[1]);
    assert(crate::text::trim_start(s) == s);
    assert(crate::text::trim_end(s) == s);
}

/// How a game ended.
#[derive(Clone, Copy, Debug, PartialEq, Eq, Structural)]
pub enum GameResult {
    WhiteWins,
    BlackWins,
    Draw,
    Stalemate,
    Resignation,
}

/// Whether the game is over in a position, and how: the side to move has
/// no legal move and is mated if its king is attacked, stalemated if not;
/// or a hundred half-moves have passed without a pawn move or a capture.
pub open spec fn game_end(st: BoardState) -> Option<GameResult> {
    if !has_legal_move(st) {
        if king_attacked(st.cells, st.side_white) {
            if st.side_white {
                Some(GameResult::BlackWins)
            } else {
                Some(GameResult::WhiteWins)
            }
        } else {
            Some(GameResult::Stalemate)
        }
    } else if st.halfmove_clock >= 100 {
        Some(GameResult::Draw)
    } else {
        None
    }
}

/// Whether the game is over, and how.
pub fn check_game_end(board: &Board) -> (r: Option<GameResult>)
    ensures
        r == game_end(board@),
{
    let mut moves: Vec<Move> = Vec::new();
    gen_moves(board, &mut moves);
    if moves.len() == 0 {
        proof {
            assert forall|m: Move| !legal_move(board@, m) by {
                if legal_move(board@, m) {
                    assert(moves@.contains(m));
                }
            }
        }
        if is_king_attacked(board, board.white_to_move()) {
            if board.white_to_move() {
                return Some(GameResult::BlackWins);
            } else {
                return Some(GameResult::WhiteWins);
            }
        } else {
            return Some(GameResult::Stalemate);
        }
    }
    proof {
        assert(moves@.contains(moves@[0]));
        assert(legal_move(board@, moves@[0]));
    }
    if board.halfmove() >= 100 {
        return Some(GameResult::Draw);
    }
    None
}

} // verus!
