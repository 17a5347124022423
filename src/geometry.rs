use vstd::prelude::*;

verus! {

// Squares are numbered 0..64 from the top-left corner (black's back rank)
// row by row; rank 0 is white's back rank at the bottom.

/// The rank (0..8, white's back rank is 0) of a square index.
pub open spec fn rank_of(index: int) -> int {
    7 - index / 8
}

/// The file (0..8, `a` is 0) of a square index.
pub open spec fn file_of(index: int) -> int {
    index % 8
}

/// The square index of a rank and file.
pub open spec fn index_of(rank: int, file: int) -> int {
    56 - 8 * rank + file
}

/// Whether a rank and a file both lie on the board.
pub open spec fn valid_field(rank: int, file: int) -> bool {
    0 <= rank < 8 && 0 <= file < 8
}

/// Whether an index names a square of the board.
pub open spec fn on_board(index: int) -> bool {
    0 <= index < 64
}

/// The square reached from `index` by moving `plus_ranks` ranks and
/// `plus_files` files, or -1 where that leaves the board.
pub open spec fn relative_index(index: int, plus_ranks: int, plus_files: int) -> int {
    let rank = rank_of(index) + plus_ranks;
    let file = file_of(index) + plus_files;
    if valid_field(rank, file) {
        index_of(rank, file)
    } else {
        -1
    }
}

/// The rank and file of a square name it again.
pub proof fn lemma_index_of_rank_and_file(index: int)
    requires
        on_board(index),
    ensures
        valid_field(rank_of(index), file_of(index)),
        index_of(rank_of(index), file_of(index)) == index,
{
}

/// A square named by a valid rank and file has that rank and file.
pub proof fn lemma_rank_and_file_of_index(rank: int, file: int)
    requires
        valid_field(rank, file),
    ensures
        on_board(index_of(rank, file)),
        rank_of(index_of(rank, file)) == rank,
        file_of(index_of(rank, file)) == file,
{
    let i = index_of(rank, file);
    assert(i == 8 * (7 - rank) + file);
    assert(i / 8 == 7 - rank) by (nonlinear_arith)
        requires
            i == 8 * (7 - rank) + file,
            0 <= file < 8,
    ;
    assert(i % 8 == file) by (nonlinear_arith)
        requires
            i == 8 * (7 - rank) + file,
            0 <= file < 8,
    ;
}

/// A step that stays on the board lands on a square whose rank and file are
/// those of the origin moved by the step.
pub proof fn lemma_relative_index(index: int, plus_ranks: int, plus_files: int)
    requires
        on_board(index),
    ensures
        relative_index(index, plus_ranks, plus_files) == -1 || on_board(relative_index(index, plus_ranks, plus_files)),
        on_board(relative_index(index, plus_ranks, plus_files)) ==> {
            &&& rank_of(relative_index(index, plus_ranks, plus_files)) == rank_of(index) + plus_ranks
            &&& file_of(relative_index(index, plus_ranks, plus_files)) == file_of(index) + plus_files
        },
{
    let rank = rank_of(index) + plus_ranks;
    let file = file_of(index) + plus_files;
    if valid_field(rank, file) {
        lemma_rank_and_file_of_index(rank, file);
    }
}

} // verus!
