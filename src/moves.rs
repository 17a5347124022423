use vstd::prelude::*;
use crate::geometry::{file_of, rank_of};
use crate::notation::{digit_char, digit_str, file_letter, file_str};
use crate::piece::Piece;

verus! {

/// A move from one square to another. `promote_to` is `EMPTY` unless a pawn
/// is promoted; `capture` is the piece taken on the target square, `EMPTY`
/// for a quiet move.
#[derive(PartialEq, Eq, Structural, Copy, Clone, Debug)]
pub struct Move {
    pub from: usize,
    pub to: usize,
    pub promote_to: Piece,
    pub capture: Piece,
}

/// A move that takes nothing and promotes nothing.
pub open spec fn quiet_move(from: int, to: int) -> Move {
    Move { from: from as usize, to: to as usize, promote_to: Piece::EMPTY, capture: Piece::EMPTY }
}

/// A move that takes `captured` on its target square.
pub open spec fn capture_move(from: int, to: int, captured: Piece) -> Move {
    Move { from: from as usize, to: to as usize, promote_to: Piece::EMPTY, capture: captured }
}

/// A pawn move onto the last rank that turns the pawn into `promote_to`.
pub open spec fn promotion_move(from: int, to: int, promote_to: Piece) -> Move {
    Move { from: from as usize, to: to as usize, promote_to, capture: Piece::EMPTY }
}

/// A square written as its file letter and its rank counted from 1.
pub open spec fn square_text(index: int) -> Seq<char> {
    seq![file_letter(file_of(index)), digit_char(rank_of(index) + 1)]
}

/// A move written as its origin square followed by its target square.
pub open spec fn move_text(m: Move) -> Seq<char> {
    square_text(m.from as int) + square_text(m.to as int)
}

/// Appends the name of square `index` to `s`.
fn push_square(s: &mut String, index: usize)
    requires
        index < 64,
    ensures
        final(s)@ == old(s)@ + square_text(index as int),
{
    let rank = 7 - index / 8;
    let file = index % 8;
    s.append(file_str(file));
    s.append(digit_str(rank + 1));
    assert(s@ =~= old(s)@ + square_text(index as int));
}

impl Move {
    /// The move in coordinate notation, such as `e2e4`.
    pub fn to_text(&self) -> (r: String)
        requires
            self.from < 64,
            self.to < 64,
        ensures
            r@ == move_text(*self),
    {
        let mut s = String::new();
        push_square(&mut s, self.from);
        push_square(&mut s, self.to);
        assert(s@ =~= move_text(*self));
        s
    }
}

impl Default for Move {
    /// The move from square 0 to square 0, taking and promoting nothing.
    fn default() -> (r: Move)
        ensures
            r == quiet_move(0, 0),
    {
        Move { from: 0, to: 0, promote_to: Piece::EMPTY, capture: Piece::EMPTY }
    }
}

} // verus!
