use chessboard::{inverse_color, Board, Color, Move, Piece};

fn empty_board(next: Color) -> Board {
    Board {
        pieces: [Piece::EMPTY; 64],
        colors: [Color::NONE; 64],
        next,
        en_passant: -1,
        halfmove_clock: 0,
        fullmove_clock: 1,
    }
}

fn place(board: &mut Board, index: usize, piece: Piece, color: Color) {
    board.pieces[index] = piece;
    board.colors[index] = color;
}

fn quiet(from: usize, to: usize) -> Move {
    Move { from, to, promote_to: Piece::EMPTY, capture: Piece::EMPTY }
}

#[test]
fn inverse_color_flips_sides() {
    assert_eq!(inverse_color(Color::WHITE), Color::BLACK);
    assert_eq!(inverse_color(Color::BLACK), Color::WHITE);
    assert_eq!(inverse_color(Color::NONE), Color::WHITE);
}

#[test]
fn piece_letters() {
    assert_eq!(Piece::PAWN.to_char(), 'p');
    assert_eq!(Piece::KNIGHT.to_char(), 'n');
    assert_eq!(Piece::KING.to_char(), 'k');
    assert_eq!(Piece::EMPTY.to_char(), '.');
}

#[test]
fn starting_position_layout() {
    let board = Board::default();
    assert_eq!(board.pieces[0], Piece::ROOK);
    assert_eq!(board.pieces[3], Piece::QUEEN);
    assert_eq!(board.pieces[4], Piece::KING);
    assert_eq!(board.colors[4], Color::BLACK);
    assert_eq!(board.pieces[60], Piece::KING);
    assert_eq!(board.colors[60], Color::WHITE);
    assert_eq!(board.pieces[52], Piece::PAWN);
    assert_eq!(board.next, Color::WHITE);
    assert_eq!(board.fullmove_clock, 1);
    for i in 0..64 {
        assert_eq!(board.pieces[i] == Piece::EMPTY, board.colors[i] == Color::NONE);
    }
}

#[test]
fn move_text_uses_files_and_ranks() {
    assert_eq!(quiet(52, 36).to_text(), "e2e4");
    assert_eq!(quiet(8, 16).to_text(), "a7a6");
    assert_eq!(quiet(63, 0).to_text(), "h1a8");
}

#[test]
fn start_position_has_twenty_moves() {
    let board = Board::default();
    let moves = board.generate(Color::WHITE);
    assert_eq!(moves.len(), 20);
    assert_eq!(moves[0], quiet(48, 40));
    assert_eq!(moves[1], quiet(48, 32));
    let black = board.generate(Color::BLACK);
    assert_eq!(black.len(), 20);
}

#[test]
fn perft_start_depth_zero_counts_nothing() {
    let result = Board::default().perft(0);
    assert_eq!(result.nodes, 0);
    assert_eq!(result.captures, 0);
}

#[test]
fn perft_start_depth_one() {
    let result = Board::default().perft(1);
    assert_eq!(result.nodes, 20);
    assert_eq!(result.captures, 0);
    assert_eq!(result.promotions, 0);
    assert_eq!(result.checkmates, 0);
}

#[test]
fn perft_start_depth_two() {
    let board = Board::default();
    let one = board.perft(1);
    let two = board.perft(2);
    // the twenty root moves plus the four hundred replies
    assert_eq!(two.nodes, 420);
    assert_eq!(two.nodes - one.nodes, 400);
    assert_eq!(two.captures, 0);
}

#[test]
fn divide_matches_perft() {
    let board = Board::default();
    let (total, per_move) = board.divide(2);
    assert_eq!(total, board.perft(2));
    assert_eq!(per_move.len(), 20);
    let mut sum = 0;
    for (m, nodes) in per_move.iter() {
        assert_eq!(*nodes, 20);
        sum += 1 + nodes;
        assert_eq!(*nodes, board.apply(*m).perft(1).nodes);
    }
    assert_eq!(sum, total.nodes);
    assert_eq!(per_move[0].0.to_text(), "a2a3");
}

#[test]
fn divide_depth_three_matches_perft() {
    let board = Board::default();
    let (total, per_move) = board.divide(3);
    let perft = board.perft(3);
    assert_eq!(total, perft);
    let sum: usize = per_move.iter().map(|(_, n)| 1 + n).sum();
    assert_eq!(sum, perft.nodes);
}

#[test]
fn divide_depth_zero_lists_nothing() {
    let (total, per_move) = Board::default().divide(0);
    assert_eq!(total.nodes, 0);
    assert!(per_move.is_empty());
}

#[test]
fn white_pawn_promotes_four_ways() {
    let mut board = empty_board(Color::WHITE);
    // a7 is square 8, a8 is square 0
    place(&mut board, 8, Piece::PAWN, Color::WHITE);
    let moves = board.generate_pawn_moves(8, Color::WHITE);
    assert_eq!(moves.len(), 4);
    let kinds = [Piece::ROOK, Piece::BISHOP, Piece::KNIGHT, Piece::QUEEN];
    for (m, kind) in moves.iter().zip(kinds.iter()) {
        assert_eq!(*m, Move { from: 8, to: 0, promote_to: *kind, capture: Piece::EMPTY });
    }
}

#[test]
fn black_pawn_promotes_four_ways() {
    let mut board = empty_board(Color::BLACK);
    // d2 is square 51, d1 is square 59
    place(&mut board, 51, Piece::PAWN, Color::BLACK);
    let moves = board.generate_pawn_moves(51, Color::BLACK);
    assert_eq!(moves.len(), 4);
    assert!(moves.iter().all(|m| m.to == 59 && m.promote_to != Piece::EMPTY));
    assert_eq!(moves[3].promote_to, Piece::QUEEN);
}

#[test]
fn blocked_promotion_square_gives_no_move() {
    let mut board = empty_board(Color::WHITE);
    place(&mut board, 8, Piece::PAWN, Color::WHITE);
    place(&mut board, 0, Piece::ROOK, Color::BLACK);
    place(&mut board, 1, Piece::KNIGHT, Color::BLACK);
    let moves = board.generate_pawn_moves(8, Color::WHITE);
    assert_eq!(moves, vec![Move { from: 8, to: 1, promote_to: Piece::EMPTY, capture: Piece::KNIGHT }]);
}

#[test]
fn pawn_double_advance_needs_both_squares_empty() {
    let mut board = Board::default();
    // e2 pawn: e3 (44) and e4 (36)
    assert_eq!(board.generate_pawn_moves(52, Color::WHITE), vec![quiet(52, 44), quiet(52, 36)]);
    place(&mut board, 36, Piece::KNIGHT, Color::BLACK);
    assert_eq!(board.generate_pawn_moves(52, Color::WHITE), vec![quiet(52, 44)]);
    place(&mut board, 44, Piece::KNIGHT, Color::BLACK);
    assert!(board.generate_pawn_moves(52, Color::WHITE).is_empty());
}

#[test]
fn pawn_captures_diagonally() {
    let mut board = Board::default();
    // black knights on d3 (43) and f3 (45) in front of the e2 pawn
    place(&mut board, 43, Piece::KNIGHT, Color::BLACK);
    place(&mut board, 45, Piece::BISHOP, Color::BLACK);
    let moves = board.generate_pawn_moves(52, Color::WHITE);
    assert_eq!(
        moves,
        vec![
            quiet(52, 44),
            quiet(52, 36),
            Move { from: 52, to: 45, promote_to: Piece::EMPTY, capture: Piece::BISHOP },
            Move { from: 52, to: 43, promote_to: Piece::EMPTY, capture: Piece::KNIGHT },
        ]
    );
}

#[test]
fn rook_ray_stops_at_first_piece() {
    let mut board = empty_board(Color::WHITE);
    // rook on d4 (35), own pawn on d6 (19), black knight on f4 (37)
    place(&mut board, 35, Piece::ROOK, Color::WHITE);
    place(&mut board, 19, Piece::PAWN, Color::WHITE);
    place(&mut board, 37, Piece::KNIGHT, Color::BLACK);
    let moves = board.generate_rook_moves(35, Color::WHITE);
    assert_eq!(
        moves,
        vec![
            quiet(35, 27),
            quiet(35, 43),
            quiet(35, 51),
            quiet(35, 59),
            quiet(35, 36),
            Move { from: 35, to: 37, promote_to: Piece::EMPTY, capture: Piece::KNIGHT },
            quiet(35, 34),
            quiet(35, 33),
            quiet(35, 32),
        ]
    );
}

#[test]
fn bishop_ray_captures_once_and_stops() {
    let mut board = empty_board(Color::BLACK);
    // bishop on a8 (0), white pawn on c6 (18), white queen on d5 (27) behind it
    place(&mut board, 0, Piece::BISHOP, Color::BLACK);
    place(&mut board, 18, Piece::PAWN, Color::WHITE);
    place(&mut board, 27, Piece::QUEEN, Color::WHITE);
    let moves = board.generate_bishop_moves(0, Color::BLACK);
    assert_eq!(
        moves,
        vec![quiet(0, 9), Move { from: 0, to: 18, promote_to: Piece::EMPTY, capture: Piece::PAWN }]
    );
}

#[test]
fn queen_on_empty_board_reaches_twenty_seven_squares() {
    let mut board = empty_board(Color::WHITE);
    place(&mut board, 35, Piece::QUEEN, Color::WHITE);
    let moves = board.generate_queen_moves(35, Color::WHITE);
    assert_eq!(moves.len(), 27);
    let rook = board.generate_rook_moves(35, Color::WHITE);
    let bishop = board.generate_bishop_moves(35, Color::WHITE);
    assert_eq!(rook.len(), 14);
    assert_eq!(bishop.len(), 13);
    assert_eq!(moves[..14], rook[..]);
    assert_eq!(moves[14..], bishop[..]);
}

#[test]
fn knight_in_corner_skips_friendly_square() {
    let mut board = empty_board(Color::WHITE);
    place(&mut board, 56, Piece::KNIGHT, Color::WHITE);
    assert_eq!(board.generate_knight_moves(56, Color::WHITE), vec![quiet(56, 41), quiet(56, 50)]);
    place(&mut board, 50, Piece::PAWN, Color::WHITE);
    place(&mut board, 41, Piece::PAWN, Color::BLACK);
    assert_eq!(
        board.generate_knight_moves(56, Color::WHITE),
        vec![Move { from: 56, to: 41, promote_to: Piece::EMPTY, capture: Piece::PAWN }]
    );
}

#[test]
fn king_steps_to_neighbours() {
    let mut board = empty_board(Color::WHITE);
    place(&mut board, 60, Piece::KING, Color::WHITE);
    place(&mut board, 52, Piece::PAWN, Color::WHITE);
    place(&mut board, 53, Piece::ROOK, Color::BLACK);
    let moves = board.generate_king_moves(60, Color::WHITE);
    assert_eq!(
        moves,
        vec![
            quiet(60, 59),
            quiet(60, 61),
            quiet(60, 51),
            Move { from: 60, to: 53, promote_to: Piece::EMPTY, capture: Piece::ROOK },
        ]
    );
    for m in moves.iter() {
        assert!(m.to < 64);
        assert_ne!(board.colors[m.to], Color::WHITE);
    }
}

#[test]
fn apply_then_undo_restores_quiet_move() {
    let board = Board::default();
    let m = quiet(52, 36);
    let after = board.apply(m);
    assert_eq!(after.pieces[36], Piece::PAWN);
    assert_eq!(after.colors[36], Color::WHITE);
    assert_eq!(after.pieces[52], Piece::EMPTY);
    assert_eq!(after.colors[52], Color::NONE);
    assert_eq!(after.next, Color::BLACK);
    assert_eq!(after.fullmove_clock, 1);
    let back = after.undo(m);
    assert_eq!(back.pieces, board.pieces);
    assert_eq!(back.colors, board.colors);
    assert_eq!(back.next, board.next);
    assert_eq!(back.fullmove_clock, board.fullmove_clock);
}

#[test]
fn fullmove_counter_follows_black() {
    let board = Board::default().apply(quiet(52, 36));
    let reply = board.apply(quiet(12, 28));
    assert_eq!(reply.next, Color::WHITE);
    assert_eq!(reply.fullmove_clock, 2);
    let back = reply.undo(quiet(12, 28));
    assert_eq!(back.fullmove_clock, 1);
    assert_eq!(back.next, Color::BLACK);
}

#[test]
fn undo_of_capture_leaves_target_empty() {
    let mut board = empty_board(Color::WHITE);
    place(&mut board, 35, Piece::ROOK, Color::WHITE);
    place(&mut board, 37, Piece::KNIGHT, Color::BLACK);
    let m = Move { from: 35, to: 37, promote_to: Piece::EMPTY, capture: Piece::KNIGHT };
    let after = board.apply(m);
    assert_eq!(after.pieces[37], Piece::ROOK);
    let back = after.undo(m);
    assert_eq!(back.pieces[35], Piece::ROOK);
    assert_eq!(back.pieces[37], Piece::EMPTY);
    assert_eq!(back.colors[37], Color::NONE);
}

#[test]
fn perft_counts_captures() {
    let mut board = empty_board(Color::WHITE);
    place(&mut board, 35, Piece::ROOK, Color::WHITE);
    place(&mut board, 37, Piece::KNIGHT, Color::BLACK);
    let result = board.perft(1);
    // four up, three down, two to the right (the last a capture), three to the left
    assert_eq!(result.nodes, 12);
    assert_eq!(result.captures, 1);
}
