use chessboard::{Board, Color, FenError, Move, PerftResult, Piece};

const START: &str = "rnbqkbnr/pppppppp/8/8/8/8/PPPPPPPP/RNBQKBNR w KQkq - 0 1";

#[test]
fn start_description_reads_as_default_board() {
    let board = Board::from_fen(START).unwrap();
    let default = Board::default();
    assert_eq!(board.pieces, default.pieces);
    assert_eq!(board.colors, default.colors);
    assert_eq!(board.next, Color::WHITE);
    assert_eq!(board.en_passant, -1);
    assert_eq!(board.halfmove_clock, 0);
    assert_eq!(board.fullmove_clock, 1);
}

#[test]
fn description_with_runs_and_black_to_move() {
    let board = Board::from_fen("rnbqkbnr/pppppppp/8/8/8/P7/1PPPPPPP/RNBQKBNR b KQkq - 0 1").unwrap();
    assert_eq!(board.pieces[40], Piece::PAWN);
    assert_eq!(board.colors[40], Color::WHITE);
    assert_eq!(board.pieces[48], Piece::EMPTY);
    assert_eq!(board.colors[48], Color::NONE);
    assert_eq!(board.pieces[49], Piece::PAWN);
    assert_eq!(board.next, Color::BLACK);
}

#[test]
fn runs_skip_their_number_of_squares() {
    let board = Board::from_fen("8/8/8/4k3/8/8/8/R3K2R w").unwrap();
    assert_eq!(board.pieces[28], Piece::KING);
    assert_eq!(board.colors[28], Color::BLACK);
    assert_eq!(board.pieces[56], Piece::ROOK);
    assert_eq!(board.pieces[60], Piece::KING);
    assert_eq!(board.pieces[63], Piece::ROOK);
    assert_eq!(board.colors[63], Color::WHITE);
    assert_eq!(board.pieces[61], Piece::EMPTY);
}

#[test]
fn knight_letter_reads_as_knight() {
    let board = Board::from_fen("n7/8/8/8/8/8/8/7N w").unwrap();
    assert_eq!(board.pieces[0], Piece::KNIGHT);
    assert_eq!(board.colors[0], Color::BLACK);
    assert_eq!(board.pieces[63], Piece::KNIGHT);
    assert_eq!(board.colors[63], Color::WHITE);
}

#[test]
fn malformed_placements_are_refused() {
    assert_eq!(Board::from_fen("8/8/8 w").unwrap_err(), FenError::Placement);
    assert_eq!(Board::from_fen("9/8/8/8/8/8/8/8 w").unwrap_err(), FenError::Placement);
    assert_eq!(Board::from_fen("8/8/8/8/8/8/8/7 w").unwrap_err(), FenError::Placement);
    assert_eq!(Board::from_fen("8/8/8/8/8/8/8/8/8 w").unwrap_err(), FenError::Placement);
    assert_eq!(Board::from_fen("8/8/8/8/8/8/8/7x w").unwrap_err(), FenError::Placement);
    assert_eq!(Board::from_fen("ppppppppp/8/8/8/8/8/8/8 w").unwrap_err(), FenError::Placement);
    assert_eq!(Board::from_fen("").unwrap_err(), FenError::Placement);
}

#[test]
fn missing_or_unknown_side_is_refused() {
    assert_eq!(
        Board::from_fen("rnbqkbnr/pppppppp/8/8/8/8/PPPPPPPP/RNBQKBNR").unwrap_err(),
        FenError::SideToMove
    );
    assert_eq!(
        Board::from_fen("rnbqkbnr/pppppppp/8/8/8/8/PPPPPPPP/RNBQKBNR x KQkq - 0 1").unwrap_err(),
        FenError::SideToMove
    );
    assert_eq!(Board::from_fen("8/8/8/8/8/8/8/8 B").unwrap().next, Color::BLACK);
}

#[test]
fn start_board_writes_its_description() {
    assert_eq!(Board::default().to_fen(), START);
}

#[test]
fn trailing_empty_rank_is_written() {
    let board = Board::from_fen("4k3/8/8/8/8/8/8/8 b").unwrap();
    assert_eq!(board.to_fen(), "4k3/8/8/8/8/8/8/8 b KQkq - 0 1");
}

#[test]
fn description_counters_are_written_in_decimal() {
    let mut board = Board::default();
    board.halfmove_clock = 37;
    board.fullmove_clock = -120;
    assert!(board.to_fen().ends_with(" KQkq - 37 -120"));
}

#[test]
fn description_round_trip() {
    let text = "r3k2r/p1ppqpb1/bn2pnp1/3PN3/1p2P3/2N2Q1p/PPPBBPPP/R3K2R b KQkq - 0 1";
    let board = Board::from_fen(text).unwrap();
    assert_eq!(board.to_fen(), text);
    let again = Board::from_fen(&board.to_fen()).unwrap();
    assert_eq!(again.pieces, board.pieces);
    assert_eq!(again.colors, board.colors);
}

#[test]
fn board_text_is_eight_lines() {
    let text = Board::default().to_text();
    assert_eq!(
        text,
        "rnbqkbnr\npppppppp\n........\n........\n........\n........\nPPPPPPPP\nRNBQKBNR\n"
    );
}

#[test]
fn perft_result_text_lists_counters() {
    let result = Board::default().perft(1);
    assert_eq!(
        result.to_text(),
        "Nodes: 20\nCaptures: 0\nE.p.: 0\nCastles: 0\nPromotions: 0\nChecks: 0\nDiscovery checks: 0\nDouble checks: 0\nCheckmates: 0"
    );
    let zero = PerftResult::default();
    assert_eq!(zero.nodes, 0);
    assert_eq!(zero.checkmates, 0);
}

#[test]
fn color_names() {
    assert_eq!(Color::from_str("w"), Ok(Color::WHITE));
    assert_eq!(Color::from_str("B"), Ok(Color::BLACK));
    assert_eq!(Color::from_str("."), Ok(Color::NONE));
    assert_eq!(Color::from_str("x"), Err(()));
    assert_eq!(Color::from_str("ww"), Err(()));
    assert_eq!(Color::WHITE.to_text(), "w");
    assert_eq!(Color::BLACK.to_text(), "b");
    assert_eq!(Color::NONE.to_text(), "");
}

#[test]
fn piece_names() {
    assert_eq!(Piece::from_str("n"), Ok(Piece::KNIGHT));
    assert_eq!(Piece::from_str("K"), Ok(Piece::KING));
    assert_eq!(Piece::from_str("."), Ok(Piece::EMPTY));
    assert_eq!(Piece::from_str(""), Err(()));
    assert_eq!(Piece::from_str("z"), Err(()));
}

#[test]
fn default_move_goes_nowhere() {
    let m = Move::default();
    assert_eq!(m, Move { from: 0, to: 0, promote_to: Piece::EMPTY, capture: Piece::EMPTY });
    assert_eq!(m.to_text(), "a8a8");
}
