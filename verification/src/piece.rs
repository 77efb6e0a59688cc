//! Chess pieces and their one-letter encoding.

use vstd::prelude::*;

verus! {

/// The content of one board slot: nothing, or a piece of one colour.
#[derive(Clone, Copy, PartialEq, Eq, Debug, Structural)]
pub enum Piece {
    Empty,
    WP,
    WN,
    WB,
    WR,
    WQ,
    WK,
    BP,
    BN,
    BB,
    BR,
    BQ,
    BK,
}

impl Piece {
    /// The piece that a letter stands for; any other character is `Empty`.
    pub open spec fn spec_from_char(c: char) -> Piece {
        if c == 'P' {
            Piece::WP
        } else if c == 'N' {
            Piece::WN
        } else if c == 'B' {
            Piece::WB
        } else if c == 'R' {
            Piece::WR
        } else if c == 'Q' {
            Piece::WQ
        } else if c == 'K' {
            Piece::WK
        } else if c == 'p' {
            Piece::BP
        } else if c == 'n' {
            Piece::BN
        } else if c == 'b' {
            Piece::BB
        } else if c == 'r' {
            Piece::BR
        } else if c == 'q' {
            Piece::BQ
        } else if c == 'k' {
            Piece::BK
        } else {
            Piece::Empty
        }
    }

    /// The letter of a piece: upper case for white, lower case for black,
    /// a dot for the empty slot.
    pub open spec fn spec_to_char(self) -> char {
        match self {
            Piece::WP => 'P',
            Piece::WN => 'N',
            Piece::WB => 'B',
            Piece::WR => 'R',
            Piece::WQ => 'Q',
            Piece::WK => 'K',
            Piece::BP => 'p',
            Piece::BN => 'n',
            Piece::BB => 'b',
            Piece::BR => 'r',
            Piece::BQ => 'q',
            Piece::BK => 'k',
            Piece::Empty => '.',
        }
    }

    pub open spec fn spec_is_white(self) -> bool {
        self is WP || self is WN || self is WB || self is WR || self is WQ || self is WK
    }

    pub open spec fn spec_is_black(self) -> bool {
        self is BP || self is BN || self is BB || self is BR || self is BQ || self is BK
    }

    pub open spec fn spec_is_empty(self) -> bool {
        self is Empty
    }

    /// Whether the piece belongs to the given side (`true` is white).
    pub open spec fn is_side(self, white: bool) -> bool {
        if white {
            self.spec_is_white()
        } else {
            self.spec_is_black()
        }
    }

    pub fn from_char(c: char) -> (p: Piece)
        ensures
            p == Piece::spec_from_char(c),
    {
        match c {
            'P' => Piece::WP,
            'N' => Piece::WN,
            'B' => Piece::WB,
            'R' => Piece::WR,
            'Q' => Piece::WQ,
            'K' => Piece::WK,
            'p' => Piece::BP,
            'n' => Piece::BN,
            'b' => Piece::BB,
            'r' => Piece::BR,
            'q' => Piece::BQ,
            'k' => Piece::BK,
            _ => Piece::Empty,
        }
    }

    #[verifier::when_used_as_spec(spec_to_char)]
    pub fn to_char(self) -> (c: char)
        ensures
            c == self.spec_to_char(),
    {
        match self {
            Piece::WP => 'P',
            Piece::WN => 'N',
            Piece::WB => 'B',
            Piece::WR => 'R',
            Piece::WQ => 'Q',
            Piece::WK => 'K',
            Piece::BP => 'p',
            Piece::BN => 'n',
            Piece::BB => 'b',
            Piece::BR => 'r',
            Piece::BQ => 'q',
            Piece::BK => 'k',
            Piece::Empty => '.',
        }
    }

    #[verifier::when_used_as_spec(spec_is_white)]
    pub fn is_white(self) -> (b: bool)
        ensures
            b == self.spec_is_white(),
    {
        match self {
            Piece::WP | Piece::WN | Piece::WB | Piece::WR | Piece::WQ | Piece::WK => true,
            _ => false,
        }
    }

    #[verifier::when_used_as_spec(spec_is_black)]
    pub fn is_black(self) -> (b: bool)
        ensures
            b == self.spec_is_black(),
    {
        match self {
            Piece::BP | Piece::BN | Piece::BB | Piece::BR | Piece::BQ | Piece::BK => true,
            _ => false,
        }
    }

    #[verifier::when_used_as_spec(spec_is_empty)]
    pub fn is_empty(self) -> (b: bool)
        ensures
            b == self.spec_is_empty(),
    {
        self == Piece::Empty
    }
}

/// Reading a piece's letter gives the piece back.
pub proof fn law_piece_letter_round_trip(p: Piece)
    ensures
        Piece::spec_from_char(p.spec_to_char()) == (if p is Empty {
            Piece::Empty
        } else {
            p
        }),
{
}

} // verus!
