use vstd::prelude::*;
use crate::color::Color;

verus! {

/// What occupies a square; `EMPTY` is a value of its own, not an absence.
#[allow(non_camel_case_types)]
#[derive(PartialEq, Eq, Structural, Copy, Clone, Debug)]
pub enum Piece {
    PAWN,
    ROOK,
    BISHOP,
    KNIGHT,
    QUEEN,
    KING,
    EMPTY,
}

/// The lower-case letter that stands for a piece; `.` for an empty square.
pub open spec fn piece_char(piece: Piece) -> char {
    match piece {
        Piece::PAWN => 'p',
        Piece::ROOK => 'r',
        Piece::BISHOP => 'b',
        Piece::KNIGHT => 'n',
        Piece::QUEEN => 'q',
        Piece::KING => 'k',
        Piece::EMPTY => '.',
    }
}

/// The letter of a piece of `color`: upper case for white, lower case
/// otherwise.
pub open spec fn piece_letter(piece: Piece, color: Color) -> char {
    if color == Color::WHITE {
        match piece {
            Piece::PAWN => 'P',
            Piece::ROOK => 'R',
            Piece::BISHOP => 'B',
            Piece::KNIGHT => 'N',
            Piece::QUEEN => 'Q',
            Piece::KING => 'K',
            Piece::EMPTY => '.',
        }
    } else {
        piece_char(piece)
    }
}

/// The letter of a piece of `color` as a string of one character.
pub fn letter_str(piece: Piece, color: Color) -> (r: &'static str)
    ensures
        r@ == seq![piece_letter(piece, color)],
{
    proof {
        reveal_strlit("P");
        reveal_strlit("R");
        reveal_strlit("B");
        reveal_strlit("N");
        reveal_strlit("Q");
        reveal_strlit("K");
        reveal_strlit("p");
        reveal_strlit("r");
        reveal_strlit("b");
        reveal_strlit("n");
        reveal_strlit("q");
        reveal_strlit("k");
        reveal_strlit(".");
    }
    if color == Color::WHITE {
        match piece {
            Piece::PAWN => "P",
            Piece::ROOK => "R",
            Piece::BISHOP => "B",
            Piece::KNIGHT => "N",
            Piece::QUEEN => "Q",
            Piece::KING => "K",
            Piece::EMPTY => ".",
        }
    } else {
        match piece {
            Piece::PAWN => "p",
            Piece::ROOK => "r",
            Piece::BISHOP => "b",
            Piece::KNIGHT => "n",
            Piece::QUEEN => "q",
            Piece::KING => "k",
            Piece::EMPTY => ".",
        }
    }
}

/// The piece that a one-letter text names, in either case: `p`, `r`, `b`,
/// `n`, `q`, `k`, or `.` for an empty square.
pub open spec fn piece_of_text(cs: Seq<char>) -> Option<Piece> {
    if cs.len() != 1 {
        None
    } else {
        match cs[0] {
            'p' | 'P' => Some(Piece::PAWN),
            'r' | 'R' => Some(Piece::ROOK),
            'b' | 'B' => Some(Piece::BISHOP),
            'n' | 'N' => Some(Piece::KNIGHT),
            'q' | 'Q' => Some(Piece::QUEEN),
            'k' | 'K' => Some(Piece::KING),
            '.' => Some(Piece::EMPTY),
            _ => None,
        }
    }
}

impl Piece {
    /// The piece that `s` names; see [`piece_of_text`].
    pub fn from_str(s: &str) -> (r: Result<Piece, ()>)
        ensures
            r == match piece_of_text(s@) {
                Some(p) => Ok(p),
                None => Err::<Piece, ()>(()),
            },
    {
        if s.unicode_len() != 1 {
            return Err(());
        }
        match s.get_char(0) {
            'p' | 'P' => Ok(Piece::PAWN),
            'r' | 'R' => Ok(Piece::ROOK),
            'b' | 'B' => Ok(Piece::BISHOP),
            'n' | 'N' => Ok(Piece::KNIGHT),
            'q' | 'Q' => Ok(Piece::QUEEN),
            'k' | 'K' => Ok(Piece::KING),
            '.' => Ok(Piece::EMPTY),
            _ => Err(()),
        }
    }

    /// The piece's letter in lower case, `.` for `EMPTY`.
    pub fn to_char(&self) -> (r: char)
        ensures
            r == piece_char(*self),
    {
        match self {
            Piece::PAWN => 'p',
            Piece::ROOK => 'r',
            Piece::BISHOP => 'b',
            Piece::KNIGHT => 'n',
            Piece::QUEEN => 'q',
            Piece::KING => 'k',
            Piece::EMPTY => '.',
        }
    }
}

} // verus!
