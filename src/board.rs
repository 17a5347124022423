use vstd::prelude::*;
use crate::color::{inverse_color, opponent, Color};
use crate::geometry::{file_of, index_of, rank_of, relative_index, valid_field, lemma_relative_index};
use crate::moves::Move;
use crate::piece::{letter_str, piece_letter, Piece};

verus! {

/// A position: what stands on each of the 64 squares and whose side it is.
/// `pieces[i]` and `colors[i]` describe square `i` together.
#[derive(Copy, Clone, Debug)]
pub struct Board {
    pub pieces: [Piece; 64],
    pub colors: [Color; 64],
    pub next: Color,
    pub en_passant: isize,
    pub halfmove_clock: isize,
    pub fullmove_clock: isize,
}

/// The mathematical content of a [`Board`].
pub struct BoardView {
    pub pieces: Seq<Piece>,
    pub colors: Seq<Color>,
    pub next: Color,
    pub en_passant: int,
    pub halfmove_clock: int,
    pub fullmove_clock: int,
}

impl View for Board {
    type V = BoardView;

    open spec fn view(&self) -> BoardView {
        BoardView {
            pieces: self.pieces@,
            colors: self.colors@,
            next: self.next,
            en_passant: self.en_passant as int,
            halfmove_clock: self.halfmove_clock as int,
            fullmove_clock: self.fullmove_clock as int,
        }
    }
}

impl BoardView {
    /// Every square holds a piece and a color in step: a square is empty
    /// exactly when its color is `NONE`.
    pub open spec fn wf(self) -> bool {
        &&& self.pieces.len() == 64
        &&& self.colors.len() == 64
        &&& forall|i: int|
            0 <= i < 64 ==> ((#[trigger] self.pieces[i]) == Piece::EMPTY <==> self.colors[i]
                == Color::NONE)
    }

    /// Square `i` holds no piece.
    pub open spec fn empty_at(self, i: int) -> bool {
        self.pieces[i] == Piece::EMPTY
    }

    /// Square `i` holds a piece that `color` may take.
    pub open spec fn takeable(self, i: int, color: Color) -> bool {
        self.colors[i] != color && self.pieces[i] != Piece::EMPTY
    }
}

/// The piece on each square of the starting position's back ranks.
pub open spec fn back_rank_piece(file: int) -> Piece {
    if file == 0 || file == 7 {
        Piece::ROOK
    } else if file == 1 || file == 6 {
        Piece::KNIGHT
    } else if file == 2 || file == 5 {
        Piece::BISHOP
    } else if file == 3 {
        Piece::QUEEN
    } else {
        Piece::KING
    }
}

/// The piece on square `i` in the starting position.
pub open spec fn start_piece(i: int) -> Piece {
    if i < 8 || i >= 56 {
        back_rank_piece(i % 8)
    } else if i < 16 || i >= 48 {
        Piece::PAWN
    } else {
        Piece::EMPTY
    }
}

/// The color on square `i` in the starting position.
pub open spec fn start_color(i: int) -> Color {
    if i < 16 {
        Color::BLACK
    } else if i >= 48 {
        Color::WHITE
    } else {
        Color::NONE
    }
}

/// The board after `m`: the mover leaves its square and stands on the target
/// (whatever stood there is gone), the other side is to move, and the move
/// counter goes up once black has moved.
pub open spec fn apply_view(b: BoardView, m: Move) -> BoardView {
    BoardView {
        pieces: b.pieces.update(m.from as int, Piece::EMPTY).update(m.to as int, b.pieces[m.from as int]),
        colors: b.colors.update(m.from as int, Color::NONE).update(m.to as int, b.colors[m.from as int]),
        next: opponent(b.next),
        en_passant: b.en_passant,
        halfmove_clock: b.halfmove_clock,
        fullmove_clock: if b.next == Color::BLACK {
            b.fullmove_clock + 1
        } else {
            b.fullmove_clock
        },
    }
}

/// The board before `m`, as far as the current board shows it: the piece on
/// the target goes back to the origin and the target is left empty.
pub open spec fn undo_view(b: BoardView, m: Move) -> BoardView {
    BoardView {
        pieces: b.pieces.update(m.from as int, b.pieces[m.to as int]).update(m.to as int, Piece::EMPTY),
        colors: b.colors.update(m.from as int, b.colors[m.to as int]).update(m.to as int, Color::NONE),
        next: opponent(b.next),
        en_passant: b.en_passant,
        halfmove_clock: b.halfmove_clock,
        fullmove_clock: if b.next == Color::WHITE {
            b.fullmove_clock - 1
        } else {
            b.fullmove_clock
        },
    }
}

/// The board from square `i` on, one letter per square (upper case for
/// white, `.` for empty) and a line break after each rank.
pub open spec fn board_text(b: BoardView, i: int) -> Seq<char>
    decreases 64 - i,
{
    if i >= 64 {
        seq![]
    } else {
        seq![piece_letter(b.pieces[i], b.colors[i])] + (if (i + 1) % 8 == 0 {
            seq!['\n']
        } else {
            seq![]
        }) + board_text(b, i + 1)
    }
}

impl Default for Board {
    /// The standard starting position, white to move, first move.
    fn default() -> (r: Self)
        ensures
            forall|i: int| 0 <= i < 64 ==> #[trigger] r.pieces[i] == start_piece(i),
            forall|i: int| 0 <= i < 64 ==> #[trigger] r.colors[i] == start_color(i),
            r.next == Color::WHITE,
            r.en_passant == -1,
            r.halfmove_clock == 0,
            r.fullmove_clock == 1,
            r@.wf(),
    {
        let pieces = [
            Piece::ROOK, Piece::KNIGHT, Piece::BISHOP, Piece::QUEEN, Piece::KING, Piece::BISHOP, Piece::KNIGHT, Piece::ROOK,
            Piece::PAWN, Piece::PAWN, Piece::PAWN, Piece::PAWN, Piece::PAWN, Piece::PAWN, Piece::PAWN, Piece::PAWN,
            Piece::EMPTY, Piece::EMPTY, Piece::EMPTY, Piece::EMPTY, Piece::EMPTY, Piece::EMPTY, Piece::EMPTY, Piece::EMPTY,
            Piece::EMPTY, Piece::EMPTY, Piece::EMPTY, Piece::EMPTY, Piece::EMPTY, Piece::EMPTY, Piece::EMPTY, Piece::EMPTY,
            Piece::EMPTY, Piece::EMPTY, Piece::EMPTY, Piece::EMPTY, Piece::EMPTY, Piece::EMPTY, Piece::EMPTY, Piece::EMPTY,
            Piece::EMPTY, Piece::EMPTY, Piece::EMPTY, Piece::EMPTY, Piece::EMPTY, Piece::EMPTY, Piece::EMPTY, Piece::EMPTY,
            Piece::PAWN, Piece::PAWN, Piece::PAWN, Piece::PAWN, Piece::PAWN, Piece::PAWN, Piece::PAWN, Piece::PAWN,
            Piece::ROOK, Piece::KNIGHT, Piece::BISHOP, Piece::QUEEN, Piece::KING, Piece::BISHOP, Piece::KNIGHT, Piece::ROOK,
        ];
        let colors = [
            Color::BLACK, Color::BLACK, Color::BLACK, Color::BLACK, Color::BLACK, Color::BLACK, Color::BLACK, Color::BLACK,
            Color::BLACK, Color::BLACK, Color::BLACK, Color::BLACK, Color::BLACK, Color::BLACK, Color::BLACK, Color::BLACK,
            Color::NONE, Color::NONE, Color::NONE, Color::NONE, Color::NONE, Color::NONE, Color::NONE, Color::NONE,
            Color::NONE, Color::NONE, Color::NONE, Color::NONE, Color::NONE, Color::NONE, Color::NONE, Color::NONE,
            Color::NONE, Color::NONE, Color::NONE, Color::NONE, Color::NONE, Color::NONE, Color::NONE, Color::NONE,
            Color::NONE, Color::NONE, Color::NONE, Color::NONE, Color::NONE, Color::NONE, Color::NONE, Color::NONE,
            Color::WHITE, Color::WHITE, Color::WHITE, Color::WHITE, Color::WHITE, Color::WHITE, Color::WHITE, Color::WHITE,
            Color::WHITE, Color::WHITE, Color::WHITE, Color::WHITE, Color::WHITE, Color::WHITE, Color::WHITE, Color::WHITE,
        ];
        assert(pieces@ =~= Seq::new(64, |i: int| start_piece(i)));
        assert(colors@ =~= Seq::new(64, |i: int| start_color(i)));
        Board {
            pieces,
            colors,
            next: Color::WHITE,
            en_passant: -1,
            halfmove_clock: 0,
            fullmove_clock: 1,
        }
    }
}

impl Board {
    /// Whether `index` names a square.
    pub fn in_bounds(&self, index: isize) -> (r: bool)
        ensures
            r == (0 <= index < 64),
    {
        index > -1 && index < 64
    }

    /// Whether square `index` holds no piece.
    pub fn is_empty_field(&self, index: isize) -> (r: bool)
        requires
            0 <= index < 64,
        ensures
            r == self@.empty_at(index as int),
    {
        self.pieces[index as usize] == Piece::EMPTY
    }

    /// Whether a rank and a file both lie on the board.
    pub fn is_valid_field(&self, rank: isize, file: isize) -> (r: bool)
        ensures
            r == valid_field(rank as int, file as int),
    {
        rank > -1 && rank < 8 && file > -1 && file < 8
    }

    /// Whether square `index` holds a piece of another side than `color`.
    pub fn can_take(&self, index: isize, color: Color) -> (r: bool)
        requires
            0 <= index < 64,
        ensures
            r == self@.takeable(index as int, color),
    {
        self.colors[index as usize] != color && self.pieces[index as usize] != Piece::EMPTY
    }

    /// The square index of a rank and a file.
    pub fn calc_index(&self, rank: usize, file: usize) -> (r: usize)
        requires
            rank < 8,
            file < 8,
        ensures
            r as int == index_of(rank as int, file as int),
    {
        (63 - 7) - rank * 8 + file
    }

    /// The rank and the file of a square.
    pub fn calc_rank_and_file(&self, position: usize) -> (r: (usize, usize))
        requires
            position < 64,
        ensures
            r.0 as int == rank_of(position as int),
            r.1 as int == file_of(position as int),
    {
        let rank = 7 - position / 8;
        let file = position % 8;
        (rank, file)
    }

    /// The square reached from `position` by a step of `plus_ranks` ranks and
    /// `plus_files` files, or -1 where the step leaves the board.
    pub fn calc_relative_index(&self, position: usize, plus_ranks: isize, plus_files: isize) -> (r: isize)
        requires
            position < 64,
        ensures
            r as int == relative_index(position as int, plus_ranks as int, plus_files as int),
            r == -1 || 0 <= r < 64,
    {
        proof {
            lemma_relative_index(position as int, plus_ranks as int, plus_files as int);
        }
        if plus_ranks < -8 || plus_ranks > 8 || plus_files < -8 || plus_files > 8 {
            // such a step leaves the board from any square
            return -1;
        }
        let (rank, file) = self.calc_rank_and_file(position);
        let target_rank = (rank as isize) + plus_ranks;
        let target_file = (file as isize) + plus_files;

        if !self.is_valid_field(target_rank, target_file) {
            return -1;
        }

        self.calc_index(target_rank as usize, target_file as usize) as isize
    }

    /// The direction in which `color`'s pawns advance: +1 rank for white,
    /// -1 for black.
    pub fn current_direction(&self, color: Color) -> (r: isize)
        requires
            color != Color::NONE,
        ensures
            r == direction_of(color),
    {
        match color {
            Color::WHITE => 1,
            _ => -1,
        }
    }

    /// The board as eight lines of eight letters; see [`board_text`].
    pub fn to_text(&self) -> (r: String)
        ensures
            r@ == board_text(self@, 0),
    {
        let mut text = String::new();
        let mut index: usize = 0;
        while index < 64
            invariant
                index <= 64,
                text@ + board_text(self@, index as int) == board_text(self@, 0),
            decreases 64 - index,
        {
            let ghost before = text@;
            text.append(letter_str(self.pieces[index], self.colors[index]));
            if (index + 1) % 8 == 0 {
                proof {
                    reveal_strlit("\n");
                }
                text.append("\n");
            }
            assert(text@ + board_text(self@, index + 1) =~= before + board_text(self@, index as int));
            index = index + 1;
        }
        assert(text@ =~= board_text(self@, 0));
        text
    }

    /// The board after `m`; see [`apply_view`].
    pub fn apply(&self, m: Move) -> (r: Board)
        requires
            m.from < 64,
            m.to < 64,
            self.next == Color::BLACK ==> self.fullmove_clock < isize::MAX,
        ensures
            r@ == apply_view(self@, m),
            self@.wf() ==> r@.wf(),
    {
        let mut b = *self;

        b.next = inverse_color(self.next);
        if self.next == Color::BLACK {
            b.fullmove_clock = b.fullmove_clock + 1;
        }

        b.colors[m.from] = Color::NONE;
        b.pieces[m.from] = Piece::EMPTY;
        b.colors[m.to] = self.colors[m.from];
        b.pieces[m.to] = self.pieces[m.from];

        assert(b.pieces@ =~= apply_view(self@, m).pieces);
        assert(b.colors@ =~= apply_view(self@, m).colors);
        proof {
            if self@.wf() {
                lemma_apply_keeps_wf(self@, m);
            }
        }
        b
    }

    /// The board before `m`; see [`undo_view`].
    pub fn undo(&self, m: Move) -> (r: Board)
        requires
            m.from < 64,
            m.to < 64,
            self.next == Color::WHITE ==> self.fullmove_clock > isize::MIN,
        ensures
            r@ == undo_view(self@, m),
            self@.wf() ==> r@.wf(),
    {
        let mut b = *self;

        b.next = inverse_color(self.next);
        if self.next == Color::WHITE {
            b.fullmove_clock = b.fullmove_clock - 1;
        }

        b.colors[m.from] = self.colors[m.to];
        b.pieces[m.from] = self.pieces[m.to];
        b.colors[m.to] = Color::NONE;
        b.pieces[m.to] = Piece::EMPTY;

        assert(b.pieces@ =~= undo_view(self@, m).pieces);
        assert(b.colors@ =~= undo_view(self@, m).colors);
        proof {
            if self@.wf() {
                lemma_undo_keeps_wf(self@, m);
            }
        }
        b
    }
}

/// Applying a move to a well-formed board leaves every square's piece and
/// color in step.
pub proof fn lemma_apply_keeps_wf(b: BoardView, m: Move)
    requires
        b.wf(),
        m.from < 64,
        m.to < 64,
    ensures
        apply_view(b, m).wf(),
{
    let r = apply_view(b, m);
    assert forall|i: int| 0 <= i < 64 implies ((#[trigger] r.pieces[i]) == Piece::EMPTY <==> r.colors[i]
        == Color::NONE) by {
        assert(b.pieces[m.from as int] == Piece::EMPTY <==> b.colors[m.from as int] == Color::NONE);
        assert(b.pieces[i] == Piece::EMPTY <==> b.colors[i] == Color::NONE);
    }
}

/// Undoing a move on a well-formed board leaves every square's piece and
/// color in step.
pub proof fn lemma_undo_keeps_wf(b: BoardView, m: Move)
    requires
        b.wf(),
        m.from < 64,
        m.to < 64,
    ensures
        undo_view(b, m).wf(),
{
    let r = undo_view(b, m);
    assert forall|i: int| 0 <= i < 64 implies ((#[trigger] r.pieces[i]) == Piece::EMPTY <==> r.colors[i]
        == Color::NONE) by {
        assert(b.pieces[m.to as int] == Piece::EMPTY <==> b.colors[m.to as int] == Color::NONE);
        assert(b.pieces[i] == Piece::EMPTY <==> b.colors[i] == Color::NONE);
    }
}

/// Undoing a move that went onto an empty square right after applying it
/// gives back the board it was applied to.
pub proof fn lemma_undo_reverts_quiet_apply(b: BoardView, m: Move)
    requires
        b.wf(),
        m.from < 64,
        m.to < 64,
        m.from != m.to,
        b.pieces[m.to as int] == Piece::EMPTY,
        b.next != Color::NONE,
    ensures
        undo_view(apply_view(b, m), m) == b,
{
    let r = undo_view(apply_view(b, m), m);
    assert(b.colors[m.to as int] == Color::NONE);
    assert(r.pieces =~= b.pieces);
    assert(r.colors =~= b.colors);
}

/// The rank step of a pawn of `color`.
pub open spec fn direction_of(color: Color) -> int {
    if color == Color::WHITE {
        1
    } else {
        -1
    }
}

} // verus!
