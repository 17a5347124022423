use vstd::prelude::*;
use crate::board::{direction_of, Board, BoardView};
use crate::color::Color;
use crate::geometry::{
    file_of, index_of, lemma_index_of_rank_and_file, lemma_rank_and_file_of_index,
    lemma_relative_index, on_board, rank_of, relative_index, valid_field,
};
use crate::moves::{capture_move, promotion_move, quiet_move, Move};
use crate::piece::Piece;

verus! {

/// The move of a single step of `plus_ranks` ranks and `plus_files` files
/// from `from`: a capture onto a square the other side holds, a quiet move
/// onto an empty square, nothing off the board or onto a friendly piece.
pub open spec fn step_moves(b: BoardView, from: int, color: Color, plus_ranks: int, plus_files: int) -> Seq<Move> {
    let t = relative_index(from, plus_ranks, plus_files);
    if !on_board(t) {
        seq![]
    } else if b.takeable(t, color) {
        seq![capture_move(from, t, b.pieces[t])]
    } else if b.empty_at(t) {
        seq![quiet_move(from, t)]
    } else {
        seq![]
    }
}

/// One of the eight directions of a king's step.
pub open spec fn unit_step(plus_ranks: int, plus_files: int) -> bool {
    &&& -1 <= plus_ranks <= 1
    &&& -1 <= plus_files <= 1
    &&& (plus_ranks != 0 || plus_files != 0)
}

/// How many more steps in a direction stay on the board, counted along the
/// ranks unless the direction keeps the rank.
pub open spec fn ray_measure(rank: int, file: int, plus_ranks: int, plus_files: int) -> int {
    if plus_ranks > 0 {
        7 - rank
    } else if plus_ranks < 0 {
        rank
    } else if plus_files > 0 {
        7 - file
    } else {
        file
    }
}

/// The moves of a sliding piece standing on `from`, along one direction,
/// from the square at `rank` and `file` on: a quiet move onto each empty
/// square, then a capture onto the first occupied square if the other side
/// holds it, and nothing beyond the first occupied square or the edge.
pub open spec fn ray_from(
    b: BoardView,
    from: int,
    color: Color,
    plus_ranks: int,
    plus_files: int,
    rank: int,
    file: int,
) -> Seq<Move>
    decreases ray_measure(rank, file, plus_ranks, plus_files),
{
    if !unit_step(plus_ranks, plus_files) || !valid_field(rank, file) {
        seq![]
    } else {
        let next_rank = rank + plus_ranks;
        let next_file = file + plus_files;
        if !valid_field(next_rank, next_file) {
            seq![]
        } else {
            let t = index_of(next_rank, next_file);
            if b.empty_at(t) {
                seq![quiet_move(from, t)] + ray_from(b, from, color, plus_ranks, plus_files, next_rank, next_file)
            } else if b.takeable(t, color) {
                seq![capture_move(from, t, b.pieces[t])]
            } else {
                seq![]
            }
        }
    }
}

/// The moves of a sliding piece on `from` along one direction.
pub open spec fn ray_moves(b: BoardView, from: int, color: Color, plus_ranks: int, plus_files: int) -> Seq<Move> {
    ray_from(b, from, color, plus_ranks, plus_files, rank_of(from), file_of(from))
}

/// The rank onto which a pawn of `color` is promoted.
pub open spec fn promotion_rank(rank: int, color: Color) -> bool {
    (color == Color::WHITE && rank == 7) || (color == Color::BLACK && rank == 0)
}

/// The rank from which a pawn of `color` may advance two squares.
pub open spec fn pawn_start_rank(rank: int, color: Color) -> bool {
    (color == Color::WHITE && rank == 1) || (color == Color::BLACK && rank == 6)
}

/// The four promotions of a pawn moving from `from` to `to`.
pub open spec fn promotions(from: int, to: int) -> Seq<Move> {
    seq![
        promotion_move(from, to, Piece::ROOK),
        promotion_move(from, to, Piece::BISHOP),
        promotion_move(from, to, Piece::KNIGHT),
        promotion_move(from, to, Piece::QUEEN),
    ]
}

/// A pawn's diagonal capture one file to the side, if the other side holds
/// that square.
pub open spec fn pawn_capture(b: BoardView, from: int, color: Color, plus_files: int) -> Seq<Move> {
    let t = relative_index(from, direction_of(color), plus_files);
    if on_board(t) && b.takeable(t, color) {
        seq![capture_move(from, t, b.pieces[t])]
    } else {
        seq![]
    }
}

/// A pawn's advance by one square, promoting on the last rank.
pub open spec fn pawn_advance(b: BoardView, from: int, color: Color) -> Seq<Move> {
    let one = relative_index(from, direction_of(color), 0);
    if on_board(one) && b.empty_at(one) {
        if promotion_rank(rank_of(one), color) {
            promotions(from, one)
        } else {
            seq![quiet_move(from, one)]
        }
    } else {
        seq![]
    }
}

/// A pawn's advance by two squares from its starting rank over an empty
/// square onto an empty square.
pub open spec fn pawn_double_advance(b: BoardView, from: int, color: Color) -> Seq<Move> {
    let one = relative_index(from, direction_of(color), 0);
    let two = relative_index(from, 2 * direction_of(color), 0);
    if pawn_start_rank(rank_of(from), color) && on_board(one) && b.empty_at(one) && on_board(two)
        && b.empty_at(two) {
        seq![quiet_move(from, two)]
    } else {
        seq![]
    }
}

/// The moves of a pawn of `color` on `from`, in the order they are generated.
pub open spec fn pawn_moves(b: BoardView, from: int, color: Color) -> Seq<Move> {
    pawn_advance(b, from, color) + pawn_double_advance(b, from, color) + pawn_capture(
        b,
        from,
        color,
        1,
    ) + pawn_capture(b, from, color, -1)
}

/// The moves of a rook: up, down, right, left.
pub open spec fn rook_moves(b: BoardView, from: int, color: Color) -> Seq<Move> {
    ray_moves(b, from, color, 1, 0) + ray_moves(b, from, color, -1, 0) + ray_moves(b, from, color, 0, 1)
        + ray_moves(b, from, color, 0, -1)
}

/// The moves of a bishop: up right, down right, down left, up left.
pub open spec fn bishop_moves(b: BoardView, from: int, color: Color) -> Seq<Move> {
    ray_moves(b, from, color, 1, 1) + ray_moves(b, from, color, -1, 1) + ray_moves(b, from, color, -1, -1)
        + ray_moves(b, from, color, 1, -1)
}

/// The moves of a queen: those of a rook, then those of a bishop.
pub open spec fn queen_moves(b: BoardView, from: int, color: Color) -> Seq<Move> {
    rook_moves(b, from, color) + bishop_moves(b, from, color)
}

/// The moves of a knight, with the rank steps taken in `color`'s direction.
pub open spec fn knight_moves(b: BoardView, from: int, color: Color) -> Seq<Move> {
    let d = direction_of(color);
    step_moves(b, from, color, 2 * d, -1) + step_moves(b, from, color, d, -2) + step_moves(
        b,
        from,
        color,
        2 * d,
        1,
    ) + step_moves(b, from, color, d, 2) + step_moves(b, from, color, -2 * d, -1) + step_moves(
        b,
        from,
        color,
        -d,
        -2,
    ) + step_moves(b, from, color, -2 * d, 1) + step_moves(b, from, color, -d, 2)
}

/// The moves of a king: one step onto each of the eight neighbouring
/// squares, rank by rank from below.
pub open spec fn king_moves(b: BoardView, from: int, color: Color) -> Seq<Move> {
    step_moves(b, from, color, -1, -1) + step_moves(b, from, color, -1, 0) + step_moves(b, from, color, -1, 1)
        + step_moves(b, from, color, 0, -1) + step_moves(b, from, color, 0, 1) + step_moves(
        b,
        from,
        color,
        1,
        -1,
    ) + step_moves(b, from, color, 1, 0) + step_moves(b, from, color, 1, 1)
}

/// The moves of whatever stands on `from`, if `color` owns it.
pub open spec fn piece_moves(b: BoardView, from: int, color: Color) -> Seq<Move> {
    if b.colors[from] != color {
        seq![]
    } else {
        match b.pieces[from] {
            Piece::PAWN => pawn_moves(b, from, color),
            Piece::ROOK => rook_moves(b, from, color),
            Piece::KNIGHT => knight_moves(b, from, color),
            Piece::BISHOP => bishop_moves(b, from, color),
            Piece::QUEEN => queen_moves(b, from, color),
            Piece::KING => king_moves(b, from, color),
            Piece::EMPTY => seq![],
        }
    }
}

/// The moves of `color` from the squares below `n`, square by square.
pub open spec fn moves_below(b: BoardView, color: Color, n: int) -> Seq<Move>
    decreases n,
{
    if n <= 0 {
        seq![]
    } else {
        moves_below(b, color, n - 1) + piece_moves(b, n - 1, color)
    }
}

/// All pseudo-legal moves of `color`.
pub open spec fn all_moves(b: BoardView, color: Color) -> Seq<Move> {
    moves_below(b, color, 64)
}

/// `m` leaves `from` for a square of the board that is empty or held by the
/// other side than `color`.
pub open spec fn move_ok(b: BoardView, m: Move, from: int, color: Color) -> bool {
    &&& m.from == from
    &&& on_board(m.to as int)
    &&& (b.empty_at(m.to as int) || b.takeable(m.to as int, color))
}

/// Every move of `ms` leaves `from` for a square that is on the board and not
/// held by `color`.
pub open spec fn all_ok(b: BoardView, ms: Seq<Move>, from: int, color: Color) -> bool {
    forall|i: int| 0 <= i < ms.len() ==> move_ok(b, #[trigger] ms[i], from, color)
}

proof fn lemma_all_ok_concat(b: BoardView, s1: Seq<Move>, s2: Seq<Move>, from: int, color: Color)
    requires
        all_ok(b, s1, from, color),
        all_ok(b, s2, from, color),
    ensures
        all_ok(b, s1 + s2, from, color),
{
    assert forall|i: int| 0 <= i < (s1 + s2).len() implies move_ok(b, #[trigger] (s1 + s2)[i], from, color) by {
        if i < s1.len() {
            assert((s1 + s2)[i] == s1[i]);
        } else {
            assert((s1 + s2)[i] == s2[i - s1.len()]);
        }
    }
}

proof fn lemma_step_ok(b: BoardView, from: int, color: Color, plus_ranks: int, plus_files: int)
    requires
        on_board(from),
    ensures
        all_ok(b, step_moves(b, from, color, plus_ranks, plus_files), from, color),
{
    lemma_relative_index(from, plus_ranks, plus_files);
}

proof fn lemma_ray_ok(b: BoardView, from: int, color: Color, plus_ranks: int, plus_files: int, rank: int, file: int)
    requires
        on_board(from),
    ensures
        all_ok(b, ray_from(b, from, color, plus_ranks, plus_files, rank, file), from, color),
    decreases ray_measure(rank, file, plus_ranks, plus_files),
{
    if unit_step(plus_ranks, plus_files) && valid_field(rank, file) {
        let next_rank = rank + plus_ranks;
        let next_file = file + plus_files;
        if valid_field(next_rank, next_file) {
            let t = index_of(next_rank, next_file);
            lemma_rank_and_file_of_index(next_rank, next_file);
            if b.empty_at(t) {
                lemma_ray_ok(b, from, color, plus_ranks, plus_files, next_rank, next_file);
                lemma_all_ok_concat(
                    b,
                    seq![quiet_move(from, t)],
                    ray_from(b, from, color, plus_ranks, plus_files, next_rank, next_file),
                    from,
                    color,
                );
            }
        }
    }
}

proof fn lemma_pawn_ok(b: BoardView, from: int, color: Color)
    requires
        on_board(from),
    ensures
        all_ok(b, pawn_moves(b, from, color), from, color),
{
    let d = direction_of(color);
    lemma_relative_index(from, d, 0);
    lemma_relative_index(from, 2 * d, 0);
    lemma_relative_index(from, d, 1);
    lemma_relative_index(from, d, -1);
    let a = pawn_advance(b, from, color);
    let a2 = pawn_double_advance(b, from, color);
    let c1 = pawn_capture(b, from, color, 1);
    let c2 = pawn_capture(b, from, color, -1);
    assert(all_ok(b, a, from, color));
    lemma_all_ok_concat(b, a, a2, from, color);
    lemma_all_ok_concat(b, a + a2, c1, from, color);
    lemma_all_ok_concat(b, a + a2 + c1, c2, from, color);
}

proof fn lemma_rays_ok(b: BoardView, from: int, color: Color)
    requires
        on_board(from),
    ensures
        all_ok(b, rook_moves(b, from, color), from, color),
        all_ok(b, bishop_moves(b, from, color), from, color),
        all_ok(b, queen_moves(b, from, color), from, color),
{
    let r = rank_of(from);
    let f = file_of(from);
    lemma_ray_ok(b, from, color, 1, 0, r, f);
    lemma_ray_ok(b, from, color, -1, 0, r, f);
    lemma_ray_ok(b, from, color, 0, 1, r, f);
    lemma_ray_ok(b, from, color, 0, -1, r, f);
    lemma_ray_ok(b, from, color, 1, 1, r, f);
    lemma_ray_ok(b, from, color, -1, 1, r, f);
    lemma_ray_ok(b, from, color, -1, -1, r, f);
    lemma_ray_ok(b, from, color, 1, -1, r, f);
    let up = ray_moves(b, from, color, 1, 0);
    let down = ray_moves(b, from, color, -1, 0);
    let right = ray_moves(b, from, color, 0, 1);
    let left = ray_moves(b, from, color, 0, -1);
    lemma_all_ok_concat(b, up, down, from, color);
    lemma_all_ok_concat(b, up + down, right, from, color);
    lemma_all_ok_concat(b, up + down + right, left, from, color);
    let ur = ray_moves(b, from, color, 1, 1);
    let dr = ray_moves(b, from, color, -1, 1);
    let dl = ray_moves(b, from, color, -1, -1);
    let ul = ray_moves(b, from, color, 1, -1);
    lemma_all_ok_concat(b, ur, dr, from, color);
    lemma_all_ok_concat(b, ur + dr, dl, from, color);
    lemma_all_ok_concat(b, ur + dr + dl, ul, from, color);
    lemma_all_ok_concat(b, rook_moves(b, from, color), bishop_moves(b, from, color), from, color);
}

/// Knight and king moves never leave the board and never land on a square
/// held by the mover's own side.
pub proof fn lemma_knight_and_king_targets(b: BoardView, from: int, color: Color)
    requires
        on_board(from),
    ensures
        forall|i: int|
            0 <= i < knight_moves(b, from, color).len() ==> {
                let t = (#[trigger] knight_moves(b, from, color)[i]).to as int;
                &&& on_board(t)
                &&& !(b.pieces[t] != Piece::EMPTY && b.colors[t] == color)
            },
        forall|i: int|
            0 <= i < king_moves(b, from, color).len() ==> {
                let t = (#[trigger] king_moves(b, from, color)[i]).to as int;
                &&& on_board(t)
                &&& !(b.pieces[t] != Piece::EMPTY && b.colors[t] == color)
            },
{
    lemma_knight_ok(b, from, color);
    lemma_king_ok(b, from, color);
}

proof fn lemma_knight_ok(b: BoardView, from: int, color: Color)
    requires
        on_board(from),
    ensures
        all_ok(b, knight_moves(b, from, color), from, color),
{
    let d = direction_of(color);
    let s1 = step_moves(b, from, color, 2 * d, -1);
    let s2 = step_moves(b, from, color, d, -2);
    let s3 = step_moves(b, from, color, 2 * d, 1);
    let s4 = step_moves(b, from, color, d, 2);
    let s5 = step_moves(b, from, color, -2 * d, -1);
    let s6 = step_moves(b, from, color, -d, -2);
    let s7 = step_moves(b, from, color, -2 * d, 1);
    let s8 = step_moves(b, from, color, -d, 2);
    lemma_step_ok(b, from, color, 2 * d, -1);
    lemma_step_ok(b, from, color, d, -2);
    lemma_step_ok(b, from, color, 2 * d, 1);
    lemma_step_ok(b, from, color, d, 2);
    lemma_step_ok(b, from, color, -2 * d, -1);
    lemma_step_ok(b, from, color, -d, -2);
    lemma_step_ok(b, from, color, -2 * d, 1);
    lemma_step_ok(b, from, color, -d, 2);
    lemma_all_ok_concat(b, s1, s2, from, color);
    lemma_all_ok_concat(b, s1 + s2, s3, from, color);
    lemma_all_ok_concat(b, s1 + s2 + s3, s4, from, color);
    lemma_all_ok_concat(b, s1 + s2 + s3 + s4, s5, from, color);
    lemma_all_ok_concat(b, s1 + s2 + s3 + s4 + s5, s6, from, color);
    lemma_all_ok_concat(b, s1 + s2 + s3 + s4 + s5 + s6, s7, from, color);
    lemma_all_ok_concat(b, s1 + s2 + s3 + s4 + s5 + s6 + s7, s8, from, color);
}

proof fn lemma_king_ok(b: BoardView, from: int, color: Color)
    requires
        on_board(from),
    ensures
        all_ok(b, king_moves(b, from, color), from, color),
{
    let s1 = step_moves(b, from, color, -1, -1);
    let s2 = step_moves(b, from, color, -1, 0);
    let s3 = step_moves(b, from, color, -1, 1);
    let s4 = step_moves(b, from, color, 0, -1);
    let s5 = step_moves(b, from, color, 0, 1);
    let s6 = step_moves(b, from, color, 1, -1);
    let s7 = step_moves(b, from, color, 1, 0);
    let s8 = step_moves(b, from, color, 1, 1);
    lemma_step_ok(b, from, color, -1, -1);
    lemma_step_ok(b, from, color, -1, 0);
    lemma_step_ok(b, from, color, -1, 1);
    lemma_step_ok(b, from, color, 0, -1);
    lemma_step_ok(b, from, color, 0, 1);
    lemma_step_ok(b, from, color, 1, -1);
    lemma_step_ok(b, from, color, 1, 0);
    lemma_step_ok(b, from, color, 1, 1);
    lemma_all_ok_concat(b, s1, s2, from, color);
    lemma_all_ok_concat(b, s1 + s2, s3, from, color);
    lemma_all_ok_concat(b, s1 + s2 + s3, s4, from, color);
    lemma_all_ok_concat(b, s1 + s2 + s3 + s4, s5, from, color);
    lemma_all_ok_concat(b, s1 + s2 + s3 + s4 + s5, s6, from, color);
    lemma_all_ok_concat(b, s1 + s2 + s3 + s4 + s5 + s6, s7, from, color);
    lemma_all_ok_concat(b, s1 + s2 + s3 + s4 + s5 + s6 + s7, s8, from, color);
}

/// Every move of a piece on `from` leaves `from` for a square of the board
/// that is empty or held by the other side.
pub proof fn lemma_piece_moves_ok(b: BoardView, from: int, color: Color)
    requires
        on_board(from),
    ensures
        all_ok(b, piece_moves(b, from, color), from, color),
{
    lemma_pawn_ok(b, from, color);
    lemma_rays_ok(b, from, color);
    lemma_knight_ok(b, from, color);
    lemma_king_ok(b, from, color);
}

/// Every generated move goes from a square of the board to a square of the
/// board.
pub proof fn lemma_moves_on_board(b: BoardView, color: Color, n: int)
    requires
        n <= 64,
    ensures
        forall|i: int|
            0 <= i < moves_below(b, color, n).len() ==> {
                &&& (#[trigger] moves_below(b, color, n)[i]).from < 64
                &&& moves_below(b, color, n)[i].to < 64
            },
    decreases n,
{
    if n > 0 {
        lemma_moves_on_board(b, color, n - 1);
        lemma_piece_moves_ok(b, n - 1, color);
        let s1 = moves_below(b, color, n - 1);
        let s2 = piece_moves(b, n - 1, color);
        assert forall|i: int| 0 <= i < (s1 + s2).len() implies (#[trigger] (s1 + s2)[i]).from < 64
            && (s1 + s2)[i].to < 64 by {
            if i < s1.len() {
                assert((s1 + s2)[i] == s1[i]);
            } else {
                assert((s1 + s2)[i] == s2[i - s1.len()]);
                assert(move_ok(b, s2[i - s1.len()], n - 1, color));
            }
        }
    }
}

/// The shape of the moves `s` of a ray walked from the square at `rank` and
/// `file` on: the k-th move (counting from 0) goes from `from` k + 1 steps
/// out; every move but the last is a quiet move onto an empty square; the
/// last is a quiet move onto an empty square or takes the other side's piece
/// on the first occupied square; and after a last quiet move (or none) the
/// next step leaves the board or meets a piece of the mover's own side.
pub open spec fn ray_shape(
    b: BoardView,
    from: int,
    color: Color,
    plus_ranks: int,
    plus_files: int,
    rank: int,
    file: int,
    s: Seq<Move>,
) -> bool {
    let n = s.len() as int;
    &&& forall|k: int|
        0 <= k < n ==> {
            &&& valid_field(rank + (k + 1) * plus_ranks, file + (k + 1) * plus_files)
            &&& (#[trigger] s[k]).to as int == index_of(rank + (k + 1) * plus_ranks, file + (k + 1) * plus_files)
            &&& s[k].from as int == from
            &&& s[k].promote_to == Piece::EMPTY
        }
    &&& forall|k: int| 0 <= k < n - 1 ==> b.empty_at((#[trigger] s[k]).to as int) && s[k].capture == Piece::EMPTY
    &&& n > 0 ==> {
        ||| b.empty_at(s[n - 1].to as int) && s[n - 1].capture == Piece::EMPTY
        ||| b.takeable(s[n - 1].to as int, color) && s[n - 1].capture == b.pieces[s[n - 1].to as int]
    }
    &&& (n == 0 || s[n - 1].capture == Piece::EMPTY) ==> {
        let r = rank + (n + 1) * plus_ranks;
        let f = file + (n + 1) * plus_files;
        !valid_field(r, f) || (!b.empty_at(index_of(r, f)) && !b.takeable(index_of(r, f), color))
    }
}

proof fn lemma_ray_from_shape(
    b: BoardView,
    from: int,
    color: Color,
    plus_ranks: int,
    plus_files: int,
    rank: int,
    file: int,
)
    requires
        on_board(from),
        unit_step(plus_ranks, plus_files),
        valid_field(rank, file),
    ensures
        ray_shape(b, from, color, plus_ranks, plus_files, rank, file, ray_from(b, from, color, plus_ranks, plus_files, rank, file)),
    decreases ray_measure(rank, file, plus_ranks, plus_files),
{
    let s = ray_from(b, from, color, plus_ranks, plus_files, rank, file);
    assert(1 * plus_ranks == plus_ranks && 1 * plus_files == plus_files) by (nonlinear_arith);
    let next_rank = rank + plus_ranks;
    let next_file = file + plus_files;
    if valid_field(next_rank, next_file) {
        let t = index_of(next_rank, next_file);
        lemma_rank_and_file_of_index(next_rank, next_file);
        if b.empty_at(t) {
            lemma_ray_from_shape(b, from, color, plus_ranks, plus_files, next_rank, next_file);
            let rest = ray_from(b, from, color, plus_ranks, plus_files, next_rank, next_file);
            assert(s == seq![quiet_move(from, t)] + rest);
            assert forall|k: int| 0 <= k < s.len() implies {
                &&& valid_field(rank + (k + 1) * plus_ranks, file + (k + 1) * plus_files)
                &&& (#[trigger] s[k]).to as int == index_of(
                    rank + (k + 1) * plus_ranks,
                    file + (k + 1) * plus_files,
                )
                &&& s[k].from as int == from
                &&& s[k].promote_to == Piece::EMPTY
            } by {
                if k > 0 {
                    assert(s[k] == rest[k - 1]);
                    assert(next_rank + (k - 1 + 1) * plus_ranks == rank + (k + 1) * plus_ranks) by (nonlinear_arith)
                        requires
                            next_rank == rank + plus_ranks,
                    ;
                    assert(next_file + (k - 1 + 1) * plus_files == file + (k + 1) * plus_files) by (nonlinear_arith)
                        requires
                            next_file == file + plus_files,
                    ;
                } else {
                    assert(s[0] == quiet_move(from, t));
                }
            }
            assert forall|k: int| 0 <= k < s.len() - 1 implies b.empty_at((#[trigger] s[k]).to as int)
                && s[k].capture == Piece::EMPTY by {
                if k > 0 {
                    assert(s[k] == rest[k - 1]);
                }
            }
            let n = s.len() as int;
            if n > 1 {
                assert(s[n - 1] == rest[n - 2]);
            }
            assert(next_rank + n * plus_ranks == rank + (n + 1) * plus_ranks) by (nonlinear_arith)
                requires
                    next_rank == rank + plus_ranks,
            ;
            assert(next_file + n * plus_files == file + (n + 1) * plus_files) by (nonlinear_arith)
                requires
                    next_file == file + plus_files,
            ;
        }
    }
}

/// A sliding piece's moves along one direction never pass an occupied
/// square: they walk the empty squares one step after the other and stop at
/// the first occupied one, taking it exactly when the other side holds it
/// (see [`ray_shape`]).
pub proof fn lemma_ray_stops_at_first_piece(
    b: BoardView,
    from: int,
    color: Color,
    plus_ranks: int,
    plus_files: int,
)
    requires
        on_board(from),
        unit_step(plus_ranks, plus_files),
    ensures
        ray_shape(
            b,
            from,
            color,
            plus_ranks,
            plus_files,
            rank_of(from),
            file_of(from),
            ray_moves(b, from, color, plus_ranks, plus_files),
        ),
{
    lemma_index_of_rank_and_file(from);
    lemma_ray_from_shape(b, from, color, plus_ranks, plus_files, rank_of(from), file_of(from));
}

/// A pawn whose one-square advance reaches the last rank onto an empty
/// square gets exactly the four promotions there, first in its list, and no
/// other move onto that square.
pub proof fn lemma_promotion_moves(b: BoardView, from: int, color: Color)
    requires
        on_board(from),
        color != Color::NONE,
        on_board(relative_index(from, direction_of(color), 0)),
        b.empty_at(relative_index(from, direction_of(color), 0)),
        promotion_rank(rank_of(relative_index(from, direction_of(color), 0)), color),
    ensures
        ({
            let one = relative_index(from, direction_of(color), 0);
            let ms = pawn_moves(b, from, color);
            &&& ms.len() >= 4
            &&& ms.take(4) == promotions(from, one)
            &&& forall|k: int| 4 <= k < ms.len() ==> (#[trigger] ms[k]).to != one as usize
        }),
{
    let d = direction_of(color);
    let one = relative_index(from, d, 0);
    let ms = pawn_moves(b, from, color);
    lemma_relative_index(from, d, 0);
    lemma_relative_index(from, 2 * d, 0);
    lemma_relative_index(from, d, 1);
    lemma_relative_index(from, d, -1);
    let rest = pawn_double_advance(b, from, color) + pawn_capture(b, from, color, 1) + pawn_capture(
        b,
        from,
        color,
        -1,
    );
    assert(ms =~= promotions(from, one) + rest);
    assert(ms.take(4) =~= promotions(from, one));
    assert forall|k: int| 4 <= k < ms.len() implies (#[trigger] ms[k]).to != one as usize by {
        assert(ms[k] == rest[k - 4]);
        lemma_pawn_targets_differ(b, from, color, k - 4);
    }
}

proof fn lemma_pawn_targets_differ(b: BoardView, from: int, color: Color, k: int)
    requires
        on_board(from),
        color != Color::NONE,
        on_board(relative_index(from, direction_of(color), 0)),
        0 <= k < (pawn_double_advance(b, from, color) + pawn_capture(b, from, color, 1) + pawn_capture(
            b,
            from,
            color,
            -1,
        )).len(),
    ensures
        (pawn_double_advance(b, from, color) + pawn_capture(b, from, color, 1) + pawn_capture(
            b,
            from,
            color,
            -1,
        ))[k].to != relative_index(from, direction_of(color), 0) as usize,
{
    let d = direction_of(color);
    lemma_relative_index(from, d, 0);
    lemma_relative_index(from, 2 * d, 0);
    lemma_relative_index(from, d, 1);
    lemma_relative_index(from, d, -1);
}

proof fn lemma_ray_len(b: BoardView, from: int, color: Color, plus_ranks: int, plus_files: int, rank: int, file: int)
    requires
        valid_field(rank, file),
    ensures
        ray_from(b, from, color, plus_ranks, plus_files, rank, file).len() <= ray_measure(rank, file, plus_ranks, plus_files),
        ray_measure(rank, file, plus_ranks, plus_files) <= 7,
    decreases ray_measure(rank, file, plus_ranks, plus_files),
{
    if unit_step(plus_ranks, plus_files) {
        let next_rank = rank + plus_ranks;
        let next_file = file + plus_files;
        if valid_field(next_rank, next_file) {
            lemma_ray_len(b, from, color, plus_ranks, plus_files, next_rank, next_file);
        }
    }
}

proof fn lemma_rook_len(b: BoardView, from: int, color: Color)
    requires
        on_board(from),
    ensures
        rook_moves(b, from, color).len() <= 28,
{
    let r = rank_of(from);
    let f = file_of(from);
    lemma_index_of_rank_and_file(from);
    lemma_ray_len(b, from, color, 1, 0, r, f);
    lemma_ray_len(b, from, color, -1, 0, r, f);
    lemma_ray_len(b, from, color, 0, 1, r, f);
    lemma_ray_len(b, from, color, 0, -1, r, f);
}

proof fn lemma_bishop_len(b: BoardView, from: int, color: Color)
    requires
        on_board(from),
    ensures
        bishop_moves(b, from, color).len() <= 28,
{
    let r = rank_of(from);
    let f = file_of(from);
    lemma_index_of_rank_and_file(from);
    lemma_ray_len(b, from, color, 1, 1, r, f);
    lemma_ray_len(b, from, color, -1, 1, r, f);
    lemma_ray_len(b, from, color, -1, -1, r, f);
    lemma_ray_len(b, from, color, 1, -1, r, f);
}

proof fn lemma_pawn_len(b: BoardView, from: int, color: Color)
    ensures
        pawn_moves(b, from, color).len() <= 7,
{
}

proof fn lemma_step_len(b: BoardView, from: int, color: Color, plus_ranks: int, plus_files: int)
    ensures
        step_moves(b, from, color, plus_ranks, plus_files).len() <= 1,
{
}

proof fn lemma_knight_len(b: BoardView, from: int, color: Color)
    ensures
        knight_moves(b, from, color).len() <= 8,
{
    let d = direction_of(color);
    lemma_step_len(b, from, color, 2 * d, -1);
    lemma_step_len(b, from, color, d, -2);
    lemma_step_len(b, from, color, 2 * d, 1);
    lemma_step_len(b, from, color, d, 2);
    lemma_step_len(b, from, color, -2 * d, -1);
    lemma_step_len(b, from, color, -d, -2);
    lemma_step_len(b, from, color, -2 * d, 1);
    lemma_step_len(b, from, color, -d, 2);
}

proof fn lemma_king_len(b: BoardView, from: int, color: Color)
    ensures
        king_moves(b, from, color).len() <= 8,
{
}

proof fn lemma_piece_moves_len(b: BoardView, from: int, color: Color)
    requires
        on_board(from),
    ensures
        piece_moves(b, from, color).len() <= 56,
{
    if b.colors[from] == color {
        match b.pieces[from] {
            Piece::PAWN => {
                lemma_pawn_len(b, from, color);
            },
            Piece::ROOK => {
                lemma_rook_len(b, from, color);
            },
            Piece::BISHOP => {
                lemma_bishop_len(b, from, color);
            },
            Piece::QUEEN => {
                lemma_rook_len(b, from, color);
                lemma_bishop_len(b, from, color);
            },
            Piece::KNIGHT => {
                lemma_knight_len(b, from, color);
            },
            Piece::KING => {
                lemma_king_len(b, from, color);
            },
            Piece::EMPTY => {},
        }
    }
}

/// No board gives a side more than 3584 moves: at most 56 from each square.
pub proof fn lemma_move_count_bound(b: BoardView, color: Color, n: int)
    requires
        0 <= n <= 64,
    ensures
        moves_below(b, color, n).len() <= 56 * n,
    decreases n,
{
    if n > 0 {
        lemma_move_count_bound(b, color, n - 1);
        lemma_piece_moves_len(b, n - 1, color);
    }
}

impl Board {
    /// Appends to `list` the move of one step from `position`, if the target
    /// is on the board and empty or held by the other side.
    fn push_step(&self, position: usize, color: Color, plus_ranks: isize, plus_files: isize, list: &mut Vec<Move>)
        requires
            position < 64,
        ensures
            final(list)@ == old(list)@ + step_moves(self@, position as int, color, plus_ranks as int, plus_files as int),
    {
        let index = self.calc_relative_index(position, plus_ranks, plus_files);
        if self.in_bounds(index) && (self.is_empty_field(index) || self.can_take(index, color)) {
            if self.can_take(index, color) {
                list.push(Move { from: position, to: index as usize, promote_to: Piece::EMPTY, capture: self.pieces[index as usize] });
            } else {
                list.push(Move { from: position, to: index as usize, promote_to: Piece::EMPTY, capture: Piece::EMPTY });
            }
        }
    }

    /// Appends to `list` the moves of a sliding piece on `position` along one
    /// direction.
    fn slide(&self, position: usize, color: Color, plus_ranks: isize, plus_files: isize, list: &mut Vec<Move>)
        requires
            position < 64,
            unit_step(plus_ranks as int, plus_files as int),
        ensures
            final(list)@ == old(list)@ + ray_moves(self@, position as int, color, plus_ranks as int, plus_files as int),
    {
        let ghost dr = plus_ranks as int;
        let ghost df = plus_files as int;
        let ghost target = list@ + ray_moves(self@, position as int, color, dr, df);
        let ghost mut rank = rank_of(position as int);
        let ghost mut file = file_of(position as int);
        proof {
            lemma_index_of_rank_and_file(position as int);
        }
        let mut index: isize = position as isize;
        loop
            invariant_except_break
                0 <= index < 64,
                valid_field(rank, file),
                index as int == index_of(rank, file),
                list@ + ray_from(self@, position as int, color, dr, df, rank, file) == target,
            invariant
                position < 64,
                dr == plus_ranks,
                df == plus_files,
                unit_step(dr, df),
            ensures
                list@ == target,
            decreases ray_measure(rank, file, dr, df),
        {
            proof {
                lemma_rank_and_file_of_index(rank, file);
                lemma_relative_index(index as int, dr, df);
            }
            let ghost current = index as int;
            index = self.calc_relative_index(index as usize, plus_ranks, plus_files);
            if index >= 0 {
                proof {
                    lemma_index_of_rank_and_file(index as int);
                }
            }
            if self.in_bounds(index) && (self.is_empty_field(index) || self.can_take(index, color)) {
                if self.can_take(index, color) {
                    list.push(Move { from: position, to: index as usize, promote_to: Piece::EMPTY, capture: self.pieces[index as usize] });
                    assert(list@ =~= target);
                    break;
                } else {
                    list.push(Move { from: position, to: index as usize, promote_to: Piece::EMPTY, capture: Piece::EMPTY });
                }
            } else {
                assert(list@ =~= target);
                break;
            }
            proof {
                let ghost old_rank = rank;
                let ghost old_file = file;
                rank = rank + dr;
                file = file + df;
                assert(ray_from(self@, position as int, color, dr, df, old_rank, old_file) == seq![
                    quiet_move(position as int, index as int)] + ray_from(self@, position as int, color, dr, df, rank, file));
                assert(list@ + ray_from(self@, position as int, color, dr, df, rank, file) =~= target);
            }
        }
    }

    /// The moves of a pawn of `color` on `position`: one square forward
    /// (as four promotions onto the last rank), two squares forward from the
    /// starting rank, and the diagonal captures. En passant is not generated.
    pub fn generate_pawn_moves(&self, position: usize, color: Color) -> (r: Vec<Move>)
        requires
            position < 64,
            color != Color::NONE,
        ensures
            r@ == pawn_moves(self@, position as int, color),
    {
        let mut list: Vec<Move> = Vec::new();
        let direction = self.current_direction(color);
        let (rank, _) = self.calc_rank_and_file(position);

        // one square forward, promoting on the last rank
        let index = self.calc_relative_index(position, direction * 1, 0);
        if self.in_bounds(index) && self.is_empty_field(index) {
            let (target_rank, _) = self.calc_rank_and_file(index as usize);
            if (color == Color::WHITE && target_rank == 7) || (color == Color::BLACK && target_rank == 0) {
                let to = index as usize;
                list.push(Move { from: position, to, promote_to: Piece::ROOK, capture: Piece::EMPTY });
                list.push(Move { from: position, to, promote_to: Piece::BISHOP, capture: Piece::EMPTY });
                list.push(Move { from: position, to, promote_to: Piece::KNIGHT, capture: Piece::EMPTY });
                list.push(Move { from: position, to, promote_to: Piece::QUEEN, capture: Piece::EMPTY });
            } else {
                list.push(Move { from: position, to: index as usize, promote_to: Piece::EMPTY, capture: Piece::EMPTY });
            }
        }
        assert(list@ =~= pawn_advance(self@, position as int, color));
        let ghost advance = list@;

        // two squares forward from the starting rank over an empty square
        if (color == Color::WHITE && rank == 1) || (color == Color::BLACK && rank == 6) {
            let index1 = self.calc_relative_index(position, direction * 1, 0);
            if self.in_bounds(index1) && self.is_empty_field(index1) {
                let index2 = self.calc_relative_index(position, direction * 2, 0);
                if self.in_bounds(index2) && self.is_empty_field(index2) {
                    list.push(Move { from: position, to: index2 as usize, promote_to: Piece::EMPTY, capture: Piece::EMPTY });
                }
            }
        }
        assert(list@ =~= advance + pawn_double_advance(self@, position as int, color));
        let ghost advances = list@;

        // diagonal captures
        let index = self.calc_relative_index(position, direction * 1, 1);
        if self.in_bounds(index) && self.can_take(index, color) {
            list.push(Move { from: position, to: index as usize, promote_to: Piece::EMPTY, capture: self.pieces[index as usize] });
        }
        assert(list@ =~= advances + pawn_capture(self@, position as int, color, 1));
        let ghost with_right = list@;

        let index = self.calc_relative_index(position, direction * 1, -1);
        if self.in_bounds(index) && self.can_take(index, color) {
            list.push(Move { from: position, to: index as usize, promote_to: Piece::EMPTY, capture: self.pieces[index as usize] });
        }
        assert(list@ =~= with_right + pawn_capture(self@, position as int, color, -1));
        list
    }

    /// The moves of a rook of `color` on `position`.
    pub fn generate_rook_moves(&self, position: usize, color: Color) -> (r: Vec<Move>)
        requires
            position < 64,
            color != Color::NONE,
        ensures
            r@ == rook_moves(self@, position as int, color),
    {
        let mut list: Vec<Move> = Vec::new();
        // vertical movement
        self.slide(position, color, 1, 0, &mut list);
        self.slide(position, color, -1, 0, &mut list);
        // horizontal movement
        self.slide(position, color, 0, 1, &mut list);
        self.slide(position, color, 0, -1, &mut list);
        assert(list@ =~= rook_moves(self@, position as int, color));
        list
    }

    /// The moves of a bishop of `color` on `position`.
    pub fn generate_bishop_moves(&self, position: usize, color: Color) -> (r: Vec<Move>)
        requires
            position < 64,
            color != Color::NONE,
        ensures
            r@ == bishop_moves(self@, position as int, color),
    {
        let mut list: Vec<Move> = Vec::new();
        self.slide(position, color, 1, 1, &mut list);
        self.slide(position, color, -1, 1, &mut list);
        self.slide(position, color, -1, -1, &mut list);
        self.slide(position, color, 1, -1, &mut list);
        assert(list@ =~= bishop_moves(self@, position as int, color));
        list
    }

    /// The moves of a knight of `color` on `position`.
    pub fn generate_knight_moves(&self, position: usize, color: Color) -> (r: Vec<Move>)
        requires
            position < 64,
            color != Color::NONE,
        ensures
            r@ == knight_moves(self@, position as int, color),
    {
        let mut list: Vec<Move> = Vec::new();
        let direction = self.current_direction(color);
        assert(direction * -2 == -2 * direction_of(color) && direction * -1 == -direction_of(color));
        self.push_step(position, color, direction * 2, -1, &mut list);
        self.push_step(position, color, direction * 1, -2, &mut list);
        self.push_step(position, color, direction * 2, 1, &mut list);
        self.push_step(position, color, direction * 1, 2, &mut list);
        self.push_step(position, color, direction * -2, -1, &mut list);
        self.push_step(position, color, direction * -1, -2, &mut list);
        self.push_step(position, color, direction * -2, 1, &mut list);
        self.push_step(position, color, direction * -1, 2, &mut list);
        assert(list@ =~= knight_moves(self@, position as int, color));
        list
    }

    /// The moves of a queen of `color` on `position`.
    pub fn generate_queen_moves(&self, position: usize, color: Color) -> (r: Vec<Move>)
        requires
            position < 64,
            color != Color::NONE,
        ensures
            r@ == queen_moves(self@, position as int, color),
    {
        let mut list = self.generate_rook_moves(position, color);
        let mut diagonals = self.generate_bishop_moves(position, color);
        list.append(&mut diagonals);
        list
    }

    /// The moves of a king of `color` on `position`: one step in each
    /// direction. Castling is not generated.
    pub fn generate_king_moves(&self, position: usize, color: Color) -> (r: Vec<Move>)
        requires
            position < 64,
            color != Color::NONE,
        ensures
            r@ == king_moves(self@, position as int, color),
    {
        let mut list: Vec<Move> = Vec::new();
        self.push_step(position, color, -1, -1, &mut list);
        self.push_step(position, color, -1, 0, &mut list);
        self.push_step(position, color, -1, 1, &mut list);
        self.push_step(position, color, 0, -1, &mut list);
        self.push_step(position, color, 0, 1, &mut list);
        self.push_step(position, color, 1, -1, &mut list);
        self.push_step(position, color, 1, 0, &mut list);
        self.push_step(position, color, 1, 1, &mut list);
        assert(list@ =~= king_moves(self@, position as int, color));
        list
    }

    /// All pseudo-legal moves of `to_move`, square by square in increasing
    /// order, each piece's moves in the order of its generator.
    pub fn generate(&self, to_move: Color) -> (r: Vec<Move>)
        requires
            to_move != Color::NONE,
        ensures
            r@ == all_moves(self@, to_move),
    {
        let mut all: Vec<Move> = Vec::new();
        let mut position: usize = 0;
        while position < 64
            invariant
                position <= 64,
                to_move != Color::NONE,
                all@ == moves_below(self@, to_move, position as int),
            decreases 64 - position,
        {
            let mut moves: Vec<Move> = if self.colors[position] != to_move {
                Vec::new()
            } else {
                match self.pieces[position] {
                    Piece::PAWN => self.generate_pawn_moves(position, to_move),
                    Piece::ROOK => self.generate_rook_moves(position, to_move),
                    Piece::KNIGHT => self.generate_knight_moves(position, to_move),
                    Piece::BISHOP => self.generate_bishop_moves(position, to_move),
                    Piece::QUEEN => self.generate_queen_moves(position, to_move),
                    Piece::KING => self.generate_king_moves(position, to_move),
                    Piece::EMPTY => Vec::new(),
                }
            };
            assert(moves@ =~= piece_moves(self@, position as int, to_move));
            all.append(&mut moves);
            position = position + 1;
        }
        all
    }
}

} // verus!
