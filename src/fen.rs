use vstd::prelude::*;
use crate::board::{Board, BoardView};
use crate::color::{color_text, Color};
use crate::notation::{digit_char, digit_str, int_text, push_int};
use crate::piece::{letter_str, piece_letter};
use crate::piece::Piece;

verus! {

/// Why a position description could not be read.
#[derive(PartialEq, Eq, Structural, Copy, Clone, Debug)]
pub enum FenError {
    /// The piece placement is not eight ranks of eight squares each.
    Placement,
    /// The side to move is missing or is neither `w` nor `b`.
    SideToMove,
}

/// The characters that separate the fields of a position description.
pub open spec fn is_space(c: char) -> bool {
    c == ' ' || c == '\t' || c == '\n' || c == '\r'
}

/// The first position at or after `i` that holds no separator.
pub open spec fn skip_spaces(cs: Seq<char>, i: int) -> int
    decreases cs.len() - i,
{
    if 0 <= i < cs.len() && is_space(cs[i]) {
        skip_spaces(cs, i + 1)
    } else {
        i
    }
}

/// The first position at or after `i` that holds a separator, or the end.
pub open spec fn word_end(cs: Seq<char>, i: int) -> int
    decreases cs.len() - i,
{
    if 0 <= i < cs.len() && !is_space(cs[i]) {
        word_end(cs, i + 1)
    } else {
        i
    }
}

/// The piece and color that a placement letter stands for: lower case for
/// black, upper case for white.
pub open spec fn letter_piece(c: char) -> Option<(Piece, Color)> {
    match c {
        'p' => Some((Piece::PAWN, Color::BLACK)),
        'r' => Some((Piece::ROOK, Color::BLACK)),
        'b' => Some((Piece::BISHOP, Color::BLACK)),
        'n' => Some((Piece::KNIGHT, Color::BLACK)),
        'q' => Some((Piece::QUEEN, Color::BLACK)),
        'k' => Some((Piece::KING, Color::BLACK)),
        'P' => Some((Piece::PAWN, Color::WHITE)),
        'R' => Some((Piece::ROOK, Color::WHITE)),
        'B' => Some((Piece::BISHOP, Color::WHITE)),
        'N' => Some((Piece::KNIGHT, Color::WHITE)),
        'Q' => Some((Piece::QUEEN, Color::WHITE)),
        'K' => Some((Piece::KING, Color::WHITE)),
        _ => None,
    }
}

/// The number of empty squares a placement digit stands for, 0 for any
/// other character.
pub open spec fn empty_run(c: char) -> int {
    match c {
        '1' => 1,
        '2' => 2,
        '3' => 3,
        '4' => 4,
        '5' => 5,
        '6' => 6,
        '7' => 7,
        '8' => 8,
        _ => 0,
    }
}

/// A piece placement read so far: the squares filled in, the next square
/// to fill and the number of ranks closed by a `/`.
pub struct Placement {
    pub pieces: Seq<Piece>,
    pub colors: Seq<Color>,
    pub square: int,
    pub rows: int,
}

/// Nothing read yet: every square empty.
pub open spec fn empty_placement() -> Placement {
    Placement {
        pieces: Seq::new(64, |i: int| Piece::EMPTY),
        colors: Seq::new(64, |i: int| Color::NONE),
        square: 0,
        rows: 0,
    }
}

/// Reads one more placement character; `None` where it does not fit.
pub open spec fn place(p: Placement, c: char) -> Option<Placement> {
    let row_end = 8 * (p.rows + 1);
    if c == '/' {
        if p.square == row_end && p.rows < 7 {
            Some(Placement { rows: p.rows + 1, ..p })
        } else {
            None
        }
    } else if empty_run(c) > 0 {
        if p.square + empty_run(c) <= row_end {
            Some(Placement { square: p.square + empty_run(c), ..p })
        } else {
            None
        }
    } else {
        match letter_piece(c) {
            Some((piece, color)) => if p.square < row_end {
                Some(
                    Placement {
                        pieces: p.pieces.update(p.square, piece),
                        colors: p.colors.update(p.square, color),
                        square: p.square + 1,
                        rows: p.rows,
                    },
                )
            } else {
                None
            },
            None => None,
        }
    }
}

/// Reads the characters of `cs` one after the other.
pub open spec fn placement_prefix(cs: Seq<char>) -> Option<Placement>
    decreases cs.len(),
{
    if cs.len() == 0 {
        Some(empty_placement())
    } else {
        match placement_prefix(cs.drop_last()) {
            Some(p) => place(p, cs.last()),
            None => None,
        }
    }
}

/// A complete piece placement: eight ranks of eight squares, from black's
/// back rank down.
pub open spec fn placement_of(cs: Seq<char>) -> Option<Placement> {
    match placement_prefix(cs) {
        Some(p) => if p.square == 64 && p.rows == 7 {
            Some(p)
        } else {
            None
        },
        None => None,
    }
}

/// The side to move that a field names: `w` or `W` for white, `b` or `B`
/// for black.
pub open spec fn side_of(cs: Seq<char>) -> Option<Color> {
    if cs == seq!['w'] || cs == seq!['W'] {
        Some(Color::WHITE)
    } else if cs == seq!['b'] || cs == seq!['B'] {
        Some(Color::BLACK)
    } else {
        None
    }
}

/// The position that a description names: its first field is the piece
/// placement, its second the side to move; the fields after them are not
/// read, and the counters start afresh.
pub open spec fn fen_view(cs: Seq<char>) -> Result<BoardView, FenError> {
    let start = skip_spaces(cs, 0);
    let end = word_end(cs, start);
    let side_start = skip_spaces(cs, end);
    let side_end = word_end(cs, side_start);
    match placement_of(cs.subrange(start, end)) {
        None => Err(FenError::Placement),
        Some(p) => match side_of(cs.subrange(side_start, side_end)) {
            None => Err(FenError::SideToMove),
            Some(next) => Ok(
                BoardView {
                    pieces: p.pieces,
                    colors: p.colors,
                    next,
                    en_passant: -1,
                    halfmove_clock: 0,
                    fullmove_clock: 1,
                },
            ),
        },
    }
}

/// A run of `run` empty squares, written as its digit; nothing for none.
pub open spec fn run_text(run: int) -> Seq<char> {
    if run > 0 {
        seq![digit_char(run)]
    } else {
        seq![]
    }
}

/// The piece placement of `b` from square `i` on, `run` empty squares of the
/// current rank being still unwritten: letters for pieces, digits for runs
/// of empty squares, `/` between ranks.
pub open spec fn placement_text(b: BoardView, i: int, run: int) -> Seq<char>
    decreases 64 - i,
{
    if i >= 64 {
        run_text(run)
    } else {
        let square = if b.colors[i] == Color::NONE {
            seq![]
        } else {
            run_text(run) + seq![piece_letter(b.pieces[i], b.colors[i])]
        };
        let rest_run = if b.colors[i] == Color::NONE {
            run + 1
        } else {
            0
        };
        if (i + 1) % 8 == 0 && i < 63 {
            square + run_text(rest_run) + seq!['/'] + placement_text(b, i + 1, 0)
        } else {
            square + placement_text(b, i + 1, rest_run)
        }
    }
}

/// The description of `b`: placement, side to move, castling rights (always
/// all four), no en passant square, and the two counters.
pub open spec fn fen_text(b: BoardView) -> Seq<char> {
    placement_text(b, 0, 0) + seq![' '] + color_text(b.next) + seq![' ', 'K', 'Q', 'k', 'q', ' ', '-', ' ']
        + int_text(b.halfmove_clock) + seq![' '] + int_text(b.fullmove_clock)
}

/// Once a prefix cannot be read, no longer text can.
proof fn lemma_failure_sticks(cs: Seq<char>, j: int)
    requires
        0 <= j <= cs.len(),
        placement_prefix(cs.subrange(0, j)) is None,
    ensures
        placement_prefix(cs) is None,
    decreases cs.len() - j,
{
    if j < cs.len() {
        assert(cs.subrange(0, j + 1).drop_last() =~= cs.subrange(0, j));
        lemma_failure_sticks(cs, j + 1);
    } else {
        assert(cs.subrange(0, j) =~= cs);
    }
}

/// A placement read so far keeps 64 squares, each empty exactly when it
/// has no color, and its next square within its current rank.
proof fn lemma_placement_consistent(cs: Seq<char>)
    ensures
        placement_prefix(cs) matches Some(p) ==> {
            &&& p.pieces.len() == 64
            &&& p.colors.len() == 64
            &&& 0 <= p.rows <= 7
            &&& 0 <= p.square <= 8 * (p.rows + 1)
            &&& forall|i: int|
                0 <= i < 64 ==> ((#[trigger] p.pieces[i]) == Piece::EMPTY <==> p.colors[i] == Color::NONE)
        },
    decreases cs.len(),
{
    if cs.len() > 0 {
        lemma_placement_consistent(cs.drop_last());
    }
}

/// Reads `cs` from the placement `p` on, first character first.
pub open spec fn parse_from(p: Placement, cs: Seq<char>) -> Option<Placement>
    decreases cs.len(),
{
    if cs.len() == 0 {
        Some(p)
    } else {
        match place(p, cs[0]) {
            Some(q) => parse_from(q, cs.drop_first()),
            None => None,
        }
    }
}

proof fn lemma_parse_from_push(p: Placement, cs: Seq<char>, c: char)
    ensures
        parse_from(p, cs.push(c)) == match parse_from(p, cs) {
            Some(q) => place(q, c),
            None => None,
        },
    decreases cs.len(),
{
    if cs.len() > 0 {
        assert(cs.push(c)[0] == cs[0]);
        assert(cs.push(c).drop_first() =~= cs.drop_first().push(c));
        match place(p, cs[0]) {
            Some(q) => {
                lemma_parse_from_push(q, cs.drop_first(), c);
            },
            None => {},
        }
    } else {
        assert(cs.push(c) =~= seq![c]);
        lemma_parse_one(p, c);
    }
}

proof fn lemma_parse_one(p: Placement, c: char)
    ensures
        parse_from(p, seq![c]) == place(p, c),
{
    assert(seq![c][0] == c);
    assert(seq![c].drop_first() =~= Seq::<char>::empty());
    match place(p, c) {
        Some(q) => {
            assert(parse_from(q, Seq::<char>::empty()) == Some(q));
        },
        None => {},
    }
}

proof fn lemma_prefix_is_parse(cs: Seq<char>)
    ensures
        placement_prefix(cs) == parse_from(empty_placement(), cs),
    decreases cs.len(),
{
    if cs.len() > 0 {
        lemma_prefix_is_parse(cs.drop_last());
        lemma_parse_from_push(empty_placement(), cs.drop_last(), cs.last());
        assert(cs.drop_last().push(cs.last()) =~= cs);
    }
}

proof fn lemma_parse_concat(p: Placement, a: Seq<char>, b: Seq<char>)
    ensures
        parse_from(p, a + b) == match parse_from(p, a) {
            Some(q) => parse_from(q, b),
            None => None,
        },
    decreases a.len(),
{
    if a.len() == 0 {
        assert(a + b =~= b);
    } else {
        assert((a + b)[0] == a[0]);
        assert((a + b).drop_first() =~= a.drop_first() + b);
        match place(p, a[0]) {
            Some(q) => {
                lemma_parse_concat(q, a.drop_first(), b);
            },
            None => {},
        }
    }
}

/// The placement read back from the text written for squares below `i` of
/// `b`, with `run` empty squares not yet written.
pub open spec fn written_placement(b: BoardView, i: int, run: int) -> Placement {
    Placement {
        pieces: Seq::new(64, |j: int| if j < i { b.pieces[j] } else { Piece::EMPTY }),
        colors: Seq::new(64, |j: int| if j < i { b.colors[j] } else { Color::NONE }),
        square: i - run,
        rows: if i >= 64 { 7 } else { i / 8 },
    }
}

proof fn lemma_letter_reads_back(piece: Piece, color: Color)
    requires
        piece != Piece::EMPTY,
        color == Color::WHITE || color == Color::BLACK,
    ensures
        letter_piece(piece_letter(piece, color)) == Some((piece, color)),
{
}

proof fn lemma_run_reads_back(run: int)
    requires
        1 <= run <= 8,
    ensures
        empty_run(digit_char(run)) == run,
        digit_char(run) != '/',
{
}

/// Reading back the placement text of `b` from square `i` on, from the
/// placement that the text before it gives, yields the whole board.
proof fn lemma_placement_reads_back(b: BoardView, i: int, run: int)
    requires
        b.wf(),
        0 <= i <= 64,
        0 <= run,
        i < 64 ==> run <= i % 8,
        i == 64 ==> run <= 8,
        forall|j: int| i - run <= j < i ==> #[trigger] b.colors[j] == Color::NONE,
    ensures
        parse_from(written_placement(b, i, run), placement_text(b, i, run)) == Some(
            written_placement(b, 64, 0),
        ),
    decreases 64 - i,
{
    let p = written_placement(b, i, run);
    if i >= 64 {
        if run > 0 {
            lemma_run_reads_back(run);
            let q = Placement { square: 64, ..p };
            assert(place(p, digit_char(run)) == Some(q));
            lemma_parse_one(p, digit_char(run));
            assert(q.pieces =~= written_placement(b, 64, 0).pieces);
        }
    } else {
        let color = b.colors[i];
        let rest_run = if color == Color::NONE {
            run + 1
        } else {
            0
        };
        let square = if color == Color::NONE {
            seq![]
        } else {
            run_text(run) + seq![piece_letter(b.pieces[i], color)]
        };
        // the state once square i is read
        let after = Placement {
            pieces: Seq::new(64, |j: int| if j < i + 1 { b.pieces[j] } else { Piece::EMPTY }),
            colors: Seq::new(64, |j: int| if j < i + 1 { b.colors[j] } else { Color::NONE }),
            square: i + 1 - rest_run,
            rows: i / 8,
        };
        if color == Color::NONE {
            assert(b.pieces[i] == Piece::EMPTY);
            assert(after.pieces =~= p.pieces);
            assert(after.colors =~= p.colors);
            assert(parse_from(p, square) == Some(after));
        } else {
            assert(b.pieces[i] != Piece::EMPTY);
            lemma_letter_reads_back(b.pieces[i], color);
            let letter = piece_letter(b.pieces[i], color);
            let flushed = Placement { square: i, ..p };
            if run > 0 {
                lemma_run_reads_back(run);
                assert(place(p, digit_char(run)) == Some(flushed));
                lemma_parse_one(p, digit_char(run));
            } else {
                assert(run_text(run) =~= Seq::<char>::empty());
            }
            assert(parse_from(p, run_text(run)) == Some(flushed));
            assert(flushed.pieces.update(i, b.pieces[i]) =~= after.pieces);
            assert(flushed.colors.update(i, color) =~= after.colors);
            assert(place(flushed, letter) == Some(after));
            lemma_parse_one(flushed, letter);
            assert(parse_from(flushed, seq![letter]) == Some(after));
            lemma_parse_concat(p, run_text(run), seq![letter]);
        }
        assert(parse_from(p, square) == Some(after));
        if (i + 1) % 8 == 0 && i < 63 {
            let flushed = Placement { square: i + 1, ..after };
            if rest_run > 0 {
                lemma_run_reads_back(rest_run);
                assert(place(after, digit_char(rest_run)) == Some(flushed));
                lemma_parse_one(after, digit_char(rest_run));
            } else {
                assert(run_text(rest_run) =~= Seq::<char>::empty());
            }
            assert(parse_from(after, run_text(rest_run)) == Some(flushed));
            let next = written_placement(b, i + 1, 0);
            assert(next.pieces =~= flushed.pieces);
            assert(next.colors =~= flushed.colors);
            assert(place(flushed, '/') == Some(next));
            lemma_parse_one(flushed, '/');
            assert(parse_from(flushed, seq!['/']) == Some(next));
            lemma_placement_reads_back(b, i + 1, 0);
            lemma_parse_concat(flushed, seq!['/'], placement_text(b, i + 1, 0));
            lemma_parse_concat(after, run_text(rest_run), seq!['/'] + placement_text(b, i + 1, 0));
            lemma_parse_concat(p, square, run_text(rest_run) + (seq!['/'] + placement_text(b, i + 1, 0)));
            assert(square + run_text(rest_run) + seq!['/'] + placement_text(b, i + 1, 0) =~= square
                + (run_text(rest_run) + (seq!['/'] + placement_text(b, i + 1, 0))));
        } else {
            let next = written_placement(b, i + 1, rest_run);
            assert(next.pieces =~= after.pieces);
            assert(next.colors =~= after.colors);
            assert(next == after);
            lemma_placement_reads_back(b, i + 1, rest_run);
            lemma_parse_concat(p, square, placement_text(b, i + 1, rest_run));
        }
    }
}

proof fn lemma_parsed_has_no_space(p: Placement, cs: Seq<char>)
    requires
        parse_from(p, cs) is Some,
    ensures
        forall|k: int| 0 <= k < cs.len() ==> !is_space(#[trigger] cs[k]),
    decreases cs.len(),
{
    if cs.len() > 0 {
        let q = place(p, cs[0])->Some_0;
        lemma_parsed_has_no_space(q, cs.drop_first());
        assert forall|k: int| 0 <= k < cs.len() implies !is_space(#[trigger] cs[k]) by {
            if k > 0 {
                assert(cs[k] == cs.drop_first()[k - 1]);
            }
        }
    }
}

proof fn lemma_word_end(cs: Seq<char>, i: int, j: int)
    requires
        0 <= i <= j <= cs.len(),
        forall|k: int| i <= k < j ==> !is_space(#[trigger] cs[k]),
        j == cs.len() || is_space(cs[j]),
    ensures
        word_end(cs, i) == j,
    decreases j - i,
{
    if i < j {
        lemma_word_end(cs, i + 1, j);
    }
}

/// Writing a well-formed board with a side to move and reading the text
/// back gives the same squares and side to move; the counters start afresh.
pub proof fn lemma_fen_round_trip(b: BoardView)
    requires
        b.wf(),
        b.next == Color::WHITE || b.next == Color::BLACK,
    ensures
        fen_view(fen_text(b)) == Ok::<BoardView, FenError>(
            BoardView {
                pieces: b.pieces,
                colors: b.colors,
                next: b.next,
                en_passant: -1,
                halfmove_clock: 0,
                fullmove_clock: 1,
            },
        ),
{
    let text = placement_text(b, 0, 0);
    let cs = fen_text(b);
    let n = text.len() as int;
    lemma_placement_reads_back(b, 0, 0);
    let start = written_placement(b, 0, 0);
    assert(start.pieces =~= empty_placement().pieces);
    assert(start.colors =~= empty_placement().colors);
    assert(start == empty_placement());
    let last = written_placement(b, 64, 0);
    lemma_parsed_has_no_space(start, text);
    lemma_prefix_is_parse(text);
    assert(n > 0) by {
        if n == 0 {
            assert(text =~= Seq::<char>::empty());
        }
    }
    let side = color_text(b.next);
    let tail = seq![' ', 'K', 'Q', 'k', 'q', ' ', '-', ' '] + int_text(b.halfmove_clock) + seq![' ']
        + int_text(b.fullmove_clock);
    assert(cs =~= text + (seq![' '] + (side + tail)));
    assert(side.len() == 1);
    assert(cs[n] == ' ');
    assert(cs[n + 1] == side[0]);
    assert(cs[n + 2] == ' ');
    assert forall|k: int| 0 <= k < n implies !is_space(#[trigger] cs[k]) by {
        assert(cs[k] == text[k]);
    }
    assert(cs[0] == text[0]);
    assert(skip_spaces(cs, 0) == 0);
    lemma_word_end(cs, 0, n);
    assert(skip_spaces(cs, n + 1) == n + 1);
    assert(skip_spaces(cs, n) == n + 1);
    lemma_word_end(cs, n + 1, n + 2);
    assert(cs.subrange(0, n) =~= text);
    assert(cs.subrange(n + 1, n + 2) =~= side);
    assert(last.pieces =~= b.pieces);
    assert(last.colors =~= b.colors);
}

fn is_space_char(c: char) -> (r: bool)
    ensures
        r == is_space(c),
{
    c == ' ' || c == '\t' || c == '\n' || c == '\r'
}

/// The first position at or after `i` of `fen` that holds no separator.
fn skip_spaces_from(fen: &str, len: usize, i: usize) -> (r: usize)
    requires
        len == fen@.len(),
        i <= len,
    ensures
        r == skip_spaces(fen@, i as int),
        i <= r <= len,
{
    let mut j = i;
    while j < len && is_space_char(fen.get_char(j))
        invariant
            len == fen@.len(),
            i <= j <= len,
            skip_spaces(fen@, j as int) == skip_spaces(fen@, i as int),
        decreases len - j,
    {
        j = j + 1;
    }
    j
}

/// The first position at or after `i` of `fen` that holds a separator, or
/// the end.
fn word_end_from(fen: &str, len: usize, i: usize) -> (r: usize)
    requires
        len == fen@.len(),
        i <= len,
    ensures
        r == word_end(fen@, i as int),
        i <= r <= len,
{
    let mut j = i;
    while j < len && !is_space_char(fen.get_char(j))
        invariant
            len == fen@.len(),
            i <= j <= len,
            word_end(fen@, j as int) == word_end(fen@, i as int),
        decreases len - j,
    {
        j = j + 1;
    }
    j
}

fn letter_piece_of(c: char) -> (r: Option<(Piece, Color)>)
    ensures
        r == letter_piece(c),
{
    match c {
        'p' => Some((Piece::PAWN, Color::BLACK)),
        'r' => Some((Piece::ROOK, Color::BLACK)),
        'b' => Some((Piece::BISHOP, Color::BLACK)),
        'n' => Some((Piece::KNIGHT, Color::BLACK)),
        'q' => Some((Piece::QUEEN, Color::BLACK)),
        'k' => Some((Piece::KING, Color::BLACK)),
        'P' => Some((Piece::PAWN, Color::WHITE)),
        'R' => Some((Piece::ROOK, Color::WHITE)),
        'B' => Some((Piece::BISHOP, Color::WHITE)),
        'N' => Some((Piece::KNIGHT, Color::WHITE)),
        'Q' => Some((Piece::QUEEN, Color::WHITE)),
        'K' => Some((Piece::KING, Color::WHITE)),
        _ => None,
    }
}

fn empty_run_of(c: char) -> (r: usize)
    ensures
        r == empty_run(c),
{
    match c {
        '1' => 1,
        '2' => 2,
        '3' => 3,
        '4' => 4,
        '5' => 5,
        '6' => 6,
        '7' => 7,
        '8' => 8,
        _ => 0,
    }
}

/// A board with every square empty, white to move, counters afresh.
fn cleared_board() -> (r: Board)
    ensures
        r.pieces@ == empty_placement().pieces,
        r.colors@ == empty_placement().colors,
        r.next == Color::WHITE,
        r.en_passant == -1,
        r.halfmove_clock == 0,
        r.fullmove_clock == 1,
{
    let mut board = Board::default();
    let mut i: usize = 0;
    while i < 64
        invariant
            i <= 64,
            board.next == Color::WHITE,
            board.en_passant == -1,
            board.halfmove_clock == 0,
            board.fullmove_clock == 1,
            forall|j: int| 0 <= j < i ==> (#[trigger] board.pieces[j]) == Piece::EMPTY,
            forall|j: int| 0 <= j < i ==> (#[trigger] board.colors[j]) == Color::NONE,
        decreases 64 - i,
    {
        board.pieces[i] = Piece::EMPTY;
        board.colors[i] = Color::NONE;
        i = i + 1;
    }
    assert(board.pieces@ =~= empty_placement().pieces);
    assert(board.colors@ =~= empty_placement().colors);
    board
}

/// Reads the piece placement held by `fen` from `start` to `end`.
fn read_placement(fen: &str, start: usize, end: usize) -> (r: Option<Board>)
    requires
        start <= end <= fen@.len(),
    ensures
        match placement_of(fen@.subrange(start as int, end as int)) {
            Some(p) => r is Some && r->Some_0.pieces@ == p.pieces && r->Some_0.colors@ == p.colors
                && r->Some_0.next == Color::WHITE && r->Some_0.en_passant == -1
                && r->Some_0.halfmove_clock == 0 && r->Some_0.fullmove_clock == 1,
            None => r is None,
        },
{
    let mut board = cleared_board();
    let mut square: usize = 0;
    let mut rows: usize = 0;
    let mut k = start;
    proof {
        assert(fen@.subrange(start as int, start as int) =~= Seq::<char>::empty());
    }
    while k < end
        invariant
            start <= k <= end <= fen@.len(),
            rows <= 7,
            square <= 8 * (rows + 1),
            board.next == Color::WHITE,
            board.en_passant == -1,
            board.halfmove_clock == 0,
            board.fullmove_clock == 1,
            placement_prefix(fen@.subrange(start as int, k as int)) == Some(
                Placement {
                    pieces: board.pieces@,
                    colors: board.colors@,
                    square: square as int,
                    rows: rows as int,
                },
            ),
        decreases end - k,
    {
        let c = fen.get_char(k);
        let ghost before = Placement {
            pieces: board.pieces@,
            colors: board.colors@,
            square: square as int,
            rows: rows as int,
        };
        proof {
            let cs = fen@.subrange(start as int, k as int + 1);
            assert(cs.drop_last() =~= fen@.subrange(start as int, k as int));
            assert(cs.last() == c);
            assert(fen@.subrange(start as int, end as int).subrange(0, k - start + 1) =~= cs);
        }
        let row_end = 8 * (rows + 1);
        let run = empty_run_of(c);
        if c == '/' {
            if square == row_end && rows < 7 {
                rows = rows + 1;
            } else {
                proof {
                    lemma_failure_sticks(fen@.subrange(start as int, end as int), k - start + 1);
                }
                return None;
            }
        } else if run > 0 {
            if square + run <= row_end {
                square = square + run;
            } else {
                proof {
                    lemma_failure_sticks(fen@.subrange(start as int, end as int), k - start + 1);
                }
                return None;
            }
        } else {
            match letter_piece_of(c) {
                Some((piece, color)) => {
                    if square < row_end {
                        board.pieces[square] = piece;
                        board.colors[square] = color;
                        square = square + 1;
                    } else {
                        proof {
                    lemma_failure_sticks(fen@.subrange(start as int, end as int), k - start + 1);
                }
                return None;
                    }
                },
                None => {
                    proof {
                    lemma_failure_sticks(fen@.subrange(start as int, end as int), k - start + 1);
                }
                return None;
                },
            }
        }
        proof {
            assert(place(before, c) == Some(
                Placement {
                    pieces: board.pieces@,
                    colors: board.colors@,
                    square: square as int,
                    rows: rows as int,
                },
            ));
        }
        k = k + 1;
    }
    if square == 64 && rows == 7 {
        Some(board)
    } else {
        None
    }
}

/// Reads a side to move from the field of `fen` from `start` to `end`.
fn read_side(fen: &str, start: usize, end: usize) -> (r: Option<Color>)
    requires
        start <= end <= fen@.len(),
    ensures
        r == side_of(fen@.subrange(start as int, end as int)),
{
    let ghost cs = fen@.subrange(start as int, end as int);
    if end - start != 1 {
        assert(cs.len() != 1);
        assert(cs != seq!['w'] && cs != seq!['W'] && cs != seq!['b'] && cs != seq!['B']);
        return None;
    }
    let c = fen.get_char(start);
    assert(cs =~= seq![c]);
    match c {
        'w' | 'W' => Some(Color::WHITE),
        'b' | 'B' => Some(Color::BLACK),
        _ => {
            assert(cs != seq!['w'] && cs != seq!['W'] && cs != seq!['b'] && cs != seq!['B']) by {
                if cs == seq!['w'] || cs == seq!['W'] || cs == seq!['b'] || cs == seq!['B'] {
                    assert(cs[0] == c);
                }
            }
            None
        },
    }
}

impl Board {
    /// Reads a position from its description: the piece placement, rank by
    /// rank from black's side, then the side to move. Later fields are not
    /// read; the counters start afresh.
    pub fn from_fen(fen: &str) -> (r: Result<Board, FenError>)
        ensures
            fen_view(fen@) == match r {
                Ok(b) => Ok(b@),
                Err(e) => Err::<BoardView, FenError>(e),
            },
            r matches Ok(b) ==> b@.wf(),
    {
        let len = fen.unicode_len();
        let start = skip_spaces_from(fen, len, 0);
        let end = word_end_from(fen, len, start);
        let side_start = skip_spaces_from(fen, len, end);
        let side_end = word_end_from(fen, len, side_start);
        proof {
            lemma_placement_consistent(fen@.subrange(start as int, end as int));
        }
        match read_placement(fen, start, end) {
            None => Err(FenError::Placement),
            Some(mut board) => match read_side(fen, side_start, side_end) {
                None => Err(FenError::SideToMove),
                Some(next) => {
                    board.next = next;
                    Ok(board)
                },
            },
        }
    }

    /// The description of this board; see [`fen_text`].
    #[verifier::rlimit(50)]
    pub fn to_fen(&self) -> (r: String)
        ensures
            r@ == fen_text(self@),
    {
        let ghost b = self@;
        let mut fen = String::new();
        let mut last: usize = 0;
        let mut index: usize = 0;
        while index < 64
            invariant
                index <= 64,
                b == self@,
                index < 64 ==> last <= index % 8,
                last <= 8,
                fen@ + placement_text(b, index as int, last as int) == placement_text(b, 0, 0),
            decreases 64 - index,
        {
            let ghost before = fen@;
            let ghost run = last as int;
            let color = self.colors[index];
            match color {
                Color::NONE => {
                    last = last + 1;
                },
                _ => {
                    if last > 0 {
                        fen.append(digit_str(last));
                        last = 0;
                    }
                    fen.append(letter_str(self.pieces[index], color));
                },
            }
            if (index + 1) % 8 == 0 && index < 63 {
                if last > 0 {
                    fen.append(digit_str(last));
                    last = 0;
                }
                proof {
                    reveal_strlit("/");
                }
                fen.append("/");
            }
            proof {
                let i = index as int;
                let square = if b.colors[i] == Color::NONE {
                    seq![]
                } else {
                    run_text(run) + seq![piece_letter(b.pieces[i], b.colors[i])]
                };
                let rest_run = if b.colors[i] == Color::NONE {
                    run + 1
                } else {
                    0
                };
                if (i + 1) % 8 == 0 && i < 63 {
                    assert(fen@ =~= before + square + run_text(rest_run) + seq!['/']);
                } else {
                    assert(fen@ =~= before + square);
                }
                assert(fen@ + placement_text(b, i + 1, last as int) =~= before + placement_text(b, i, run));
            }
            index = index + 1;
        }
        if last > 0 {
            fen.append(digit_str(last));
        }
        assert(fen@ =~= placement_text(b, 0, 0));
        proof {
            reveal_strlit(" ");
            reveal_strlit(" KQkq - ");
        }
        fen.append(" ");
        fen.append(self.next.to_text());
        fen.append(" KQkq - ");
        push_int(&mut fen, self.halfmove_clock);
        fen.append(" ");
        push_int(&mut fen, self.fullmove_clock);
        assert(fen@ =~= fen_text(b));
        fen
    }
}

} // verus!
