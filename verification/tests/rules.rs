use chess_engine::{
    as_coordinate, as_standard_notation, move_in_bounds, parse_coordinate, Color, Game, GameState,
    MoveError, Piece, PieceType,
};

#[test]
fn round_trip_all_squares() {
    for square in 0..64usize {
        let notation = as_standard_notation(&square);
        assert_eq!(as_coordinate(&notation), square);
    }
}

#[test]
fn round_trip_all_notations() {
    for file in ["A", "B", "C", "D", "E", "F", "G", "H"] {
        for rank in ["1", "2", "3", "4", "5", "6", "7", "8"] {
            let notation = format!("{}{}", file, rank);
            let square = as_coordinate(&notation);
            assert_eq!(as_standard_notation(&square), notation);
        }
    }
}

#[test]
fn notation_corner_values() {
    assert_eq!(as_standard_notation(&0), "A1".to_string());
    assert_eq!(as_standard_notation(&63), "H8".to_string());
    assert_eq!(as_coordinate(&"A1".to_string()), 0);
    assert_eq!(as_coordinate(&"H8".to_string()), 63);
    assert_eq!(as_coordinate(&"E2".to_string()), 12);
}

#[test]
fn parse_coordinate_rejects_garbage() {
    assert_eq!(parse_coordinate(&"B4".to_string()), Some(25));
    assert_eq!(parse_coordinate(&"b4".to_string()), None);
    assert_eq!(parse_coordinate(&"I1".to_string()), None);
    assert_eq!(parse_coordinate(&"A9".to_string()), None);
    assert_eq!(parse_coordinate(&"A".to_string()), None);
    assert_eq!(parse_coordinate(&"A12".to_string()), None);
    assert_eq!(parse_coordinate(&"".to_string()), None);
}

#[test]
fn move_in_bounds_formula() {
    assert!(move_in_bounds(0, 0, 0));
    assert!(move_in_bounds(63, 62, 1));
    assert!(!move_in_bounds(64, 62, 1));
    assert!(!move_in_bounds(-1, 8, 0));
    assert!(!move_in_bounds(15, 7, 1));
    assert!(!move_in_bounds(7, 0, -1));
}

#[test]
fn initial_position_composition() {
    let game = Game::new();
    let board = game.get_board();
    let mut pawns = 0;
    let mut rooks = 0;
    let mut knights = 0;
    let mut bishops = 0;
    let mut queens = 0;
    let mut kings = 0;
    let mut white = 0;
    let mut black = 0;
    for slot in board.iter() {
        if let Some(piece) = slot {
            match piece.title() {
                PieceType::Pawn => pawns += 1,
                PieceType::Rook => rooks += 1,
                PieceType::Knight => knights += 1,
                PieceType::Bishop => bishops += 1,
                PieceType::Queen => queens += 1,
                PieceType::King => kings += 1,
            }
            match piece.color() {
                Color::White => white += 1,
                Color::Black => black += 1,
            }
            assert!(!piece.has_moved());
        }
    }
    assert_eq!(pawns, 16);
    assert_eq!(rooks, 4);
    assert_eq!(knights, 4);
    assert_eq!(bishops, 4);
    assert_eq!(queens, 2);
    assert_eq!(kings, 2);
    assert_eq!(white, 16);
    assert_eq!(black, 16);
    assert_eq!(board[4].unwrap(), Piece::new(Color::White, PieceType::King, false));
    assert_eq!(board[3].unwrap(), Piece::new(Color::White, PieceType::Queen, false));
    assert_eq!(board[60].unwrap(), Piece::new(Color::Black, PieceType::King, false));
    assert_eq!(board[59].unwrap(), Piece::new(Color::Black, PieceType::Queen, false));
    for file in 0..8 {
        assert_eq!(board[8 + file].unwrap(), Piece::new(Color::White, PieceType::Pawn, false));
        assert_eq!(board[48 + file].unwrap(), Piece::new(Color::Black, PieceType::Pawn, false));
    }
    assert_eq!(game.active_color, Color::White);
    assert_eq!(game.get_game_state(), GameState::InProgress);
}

#[test]
fn pawn_capture_gives_check() {
    // A legal sequence culminating in the white pawn capturing F7 while the
    // black king still stands on E8: the capture gives check.
    let mut game = Game::new();
    assert_eq!(game.make_move("E2".to_string(), "E4".to_string()), Some(GameState::InProgress));
    assert_eq!(game.make_move("A7".to_string(), "A6".to_string()), Some(GameState::InProgress));
    assert_eq!(game.make_move("E4".to_string(), "E5".to_string()), Some(GameState::InProgress));
    assert_eq!(game.make_move("A6".to_string(), "A5".to_string()), Some(GameState::InProgress));
    assert_eq!(game.make_move("E5".to_string(), "E6".to_string()), Some(GameState::InProgress));
    assert_eq!(game.make_move("A5".to_string(), "A4".to_string()), Some(GameState::InProgress));
    assert_eq!(game.make_move("E6".to_string(), "F7".to_string()), Some(GameState::BlackCheck));
    // The capture removed the black pawn that stood on F7.
    assert_eq!(
        game.get_board()[53].unwrap(),
        Piece::new(Color::White, PieceType::Pawn, true)
    );
}

#[test]
fn pawn_diagonal_needs_enemy() {
    // With nothing to capture, a pawn has only its straight moves.
    let game = Game::new();
    let moves = game.get_possible_moves("E2".to_string()).unwrap();
    assert_eq!(moves, vec!["E3".to_string(), "E4".to_string()]);
}

#[test]
fn pinned_knight_has_no_moves() {
    // A knight shielding its own king from a rook may not move at all: every
    // candidate destination would expose the king and is filtered out of the
    // legal-move table.
    let mut board: Vec<Option<Piece>> = vec![None; 64];
    board[4] = Some(Piece::new(Color::White, PieceType::King, false));
    board[12] = Some(Piece::new(Color::White, PieceType::Knight, false));
    board[60] = Some(Piece::new(Color::Black, PieceType::Rook, false));
    board[56] = Some(Piece::new(Color::Black, PieceType::King, false));
    let game = Game::new_with_board(board);
    assert_eq!(game.get_game_state(), GameState::InProgress);
    assert_eq!(game.get_possible_moves("E2".to_string()), None);
}

#[test]
fn scholar_mate_leaves_no_king_entry() {
    let mut game = Game::new();
    game.make_move("E2".to_string(), "E3".to_string());
    game.make_move("A7".to_string(), "A5".to_string());
    game.make_move("D1".to_string(), "H5".to_string());
    game.make_move("A8".to_string(), "A7".to_string());
    game.make_move("F1".to_string(), "C4".to_string());
    game.make_move("B7".to_string(), "B6".to_string());
    assert_eq!(
        game.make_move("H5".to_string(), "F7".to_string()),
        Some(GameState::BlackCheckMate)
    );
    // The stored state carries the checkmate, the mated king has no
    // legal-move entry, and no further move is accepted.
    assert_eq!(game.get_game_state(), GameState::BlackCheckMate);
    assert_eq!(game.get_possible_moves("E8".to_string()), None);
    assert_eq!(game.make_move("A2".to_string(), "A3".to_string()), None);
}

#[test]
fn stalemate_is_classified_at_once() {
    // Only kings and one heavy piece, placed so that White to move has no
    // legal move and is not in check: a tie from the start.
    let mut board: Vec<Option<Piece>> = vec![None; 64];
    board[0] = Some(Piece::new(Color::White, PieceType::King, false));
    board[10] = Some(Piece::new(Color::Black, PieceType::Queen, false));
    board[17] = Some(Piece::new(Color::Black, PieceType::Rook, false));
    board[62] = Some(Piece::new(Color::Black, PieceType::King, false));
    let game = Game::new_with_board(board);
    assert_eq!(game.get_game_state(), GameState::Tie);
    assert_eq!(game.get_possible_moves("A1".to_string()), None);
}

#[test]
fn move_errors_are_distinguished() {
    let mut game = Game::new();
    // Garbage notation is told apart from a move the rules refuse.
    assert_eq!(
        game.try_move("Z9".to_string(), "E4".to_string()),
        Err(MoveError::InvalidNotation)
    );
    assert_eq!(
        game.try_move("E2".to_string(), "4E".to_string()),
        Err(MoveError::InvalidNotation)
    );
    // Empty origin square.
    assert_eq!(
        game.try_move("E3".to_string(), "E4".to_string()),
        Err(MoveError::IllegalMove)
    );
    // A piece of the side not to move.
    assert_eq!(
        game.try_move("E7".to_string(), "E6".to_string()),
        Err(MoveError::IllegalMove)
    );
    // A destination outside the piece's legal set.
    assert_eq!(
        game.try_move("E2".to_string(), "E5".to_string()),
        Err(MoveError::IllegalMove)
    );
    // Nothing changed; the move is still available and accepted.
    assert_eq!(game.get_game_state(), GameState::InProgress);
    assert_eq!(
        game.try_move("E2".to_string(), "E4".to_string()),
        Ok(GameState::InProgress)
    );
}

#[test]
fn rejected_moves_leave_state_unchanged() {
    let mut game = Game::new();
    assert_eq!(game.make_move("E4".to_string(), "E5".to_string()), None);
    assert_eq!(game.make_move("B1".to_string(), "D2".to_string()), None);
    assert_eq!(game.get_game_state(), GameState::InProgress);
    assert_eq!(game.active_color, Color::White);
    assert_eq!(
        game.get_board()[12].unwrap(),
        Piece::new(Color::White, PieceType::Pawn, false)
    );
}

#[test]
fn capture_relocates_and_marks_piece() {
    let mut game = Game::new();
    game.make_move("E2".to_string(), "E4".to_string());
    game.make_move("D7".to_string(), "D5".to_string());
    assert_eq!(game.make_move("E4".to_string(), "D5".to_string()), Some(GameState::InProgress));
    assert_eq!(
        game.get_board()[35].unwrap(),
        Piece::new(Color::White, PieceType::Pawn, true)
    );
    assert!(game.get_board()[28].is_none());
    assert_eq!(game.active_color, Color::Black);
}

#[test]
fn set_promotion_changes_nothing() {
    let mut game = Game::new();
    game.set_promotion("Queen".to_string());
    assert_eq!(game.get_game_state(), GameState::InProgress);
    assert_eq!(
        game.get_possible_moves("B1".to_string()).unwrap(),
        vec!["A3".to_string(), "C3".to_string()]
    );
}

#[test]
fn rook_ray_stops_at_blockers() {
    // An open rook ray runs to the board edge; a friendly piece stops it
    // before its square, an enemy piece stops it on its square.
    let mut board: Vec<Option<Piece>> = vec![None; 64];
    board[0] = Some(Piece::new(Color::White, PieceType::King, false));
    board[27] = Some(Piece::new(Color::White, PieceType::Rook, false));
    board[31] = Some(Piece::new(Color::White, PieceType::Pawn, false));
    board[51] = Some(Piece::new(Color::Black, PieceType::Pawn, false));
    board[63] = Some(Piece::new(Color::Black, PieceType::King, false));
    let game = Game::new_with_board(board);
    let moves = game.get_possible_moves("D4".to_string()).unwrap();
    // Directions in order: left, right, down, up; rays step outward.
    assert_eq!(
        moves,
        vec![
            "C4".to_string(),
            "B4".to_string(),
            "A4".to_string(),
            "E4".to_string(),
            "F4".to_string(),
            "G4".to_string(),
            "D3".to_string(),
            "D2".to_string(),
            "D1".to_string(),
            "D5".to_string(),
            "D6".to_string(),
            "D7".to_string(),
        ]
    );
}
