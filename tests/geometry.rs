use chessboard::Board;

#[test]
fn test_calc_row_and_rank_at_0() {
    let board = Board::default();
    let result = board.calc_rank_and_file(0);
    assert_eq!(result, (7, 0));
}

#[test]
fn test_calc_row_and_rank_at_7() {
    let board = Board::default();
    let result = board.calc_rank_and_file(7);
    assert_eq!(result, (7, 7));
}

#[test]
fn test_calc_row_and_rank_at_8() {
    let board = Board::default();
    let result = board.calc_rank_and_file(8);
    assert_eq!(result, (6, 0));
}

#[test]
fn test_calc_row_and_rank_at_9() {
    let board = Board::default();
    let result = board.calc_rank_and_file(9);
    assert_eq!(result, (6, 1));
}

#[test]
fn test_calc_row_and_rank_at_14() {
    let board = Board::default();
    let result = board.calc_rank_and_file(14);
    assert_eq!(result, (6, 6));
}

#[test]
fn test_calc_row_and_rank_at_15() {
    let board = Board::default();
    let result = board.calc_rank_and_file(15);
    assert_eq!(result, (6, 7));
}

#[test]
fn test_calc_row_and_rank_at_56() {
    let board = Board::default();
    let result = board.calc_rank_and_file(56);
    assert_eq!(result, (0, 0));
}

#[test]
fn test_calc_row_and_rank_at_63() {
    let board = Board::default();
    let result = board.calc_rank_and_file(63);
    assert_eq!(result, (0, 7));
}

#[test]
fn test_calc_index_at_0_0() {
    let board = Board::default();
    let result = board.calc_index(0, 0);
    assert_eq!(result, 56);
}

#[test]
fn test_calc_index_at_0_7() {
    let board = Board::default();
    let result = board.calc_index(0, 7);
    assert_eq!(result, 63);
}

#[test]
fn test_calc_index_at_1_0() {
    let board = Board::default();
    let result = board.calc_index(1, 0);
    assert_eq!(result, 48);
}

#[test]
fn test_calc_index_at_7_7() {
    let board = Board::default();
    let result = board.calc_index(7, 7);
    assert_eq!(result, 7);
}

#[test]
fn test_calc_index_at_7_0() {
    let board = Board::default();
    let result = board.calc_index(7, 0);
    assert_eq!(result, 0);
}

#[test]
fn index_and_rank_file_round_trip() {
    let board = Board::default();
    for index in 0..64usize {
        let (rank, file) = board.calc_rank_and_file(index);
        assert_eq!(board.calc_index(rank, file), index);
    }
}

#[test]
fn relative_index_steps_and_edges() {
    let board = Board::default();
    // e2 one rank up is e3
    assert_eq!(board.calc_relative_index(52, 1, 0), 44);
    // a1 one file left leaves the board
    assert_eq!(board.calc_relative_index(56, 0, -1), -1);
    // h8 one rank up leaves the board
    assert_eq!(board.calc_relative_index(7, 1, 0), -1);
    // far steps leave the board
    assert_eq!(board.calc_relative_index(27, 100, 0), -1);
    assert_eq!(board.calc_relative_index(27, -1, 1), 36);
}

#[test]
fn bounds_and_fields() {
    let board = Board::default();
    assert!(board.in_bounds(0));
    assert!(board.in_bounds(63));
    assert!(!board.in_bounds(64));
    assert!(!board.in_bounds(-1));
    assert!(board.is_valid_field(7, 0));
    assert!(!board.is_valid_field(8, 0));
    assert!(!board.is_valid_field(0, -1));
}
