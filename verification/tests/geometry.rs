use chess_engine::{Color, Game, GameState, Piece, PieceType};

#[test]
fn color_forward_signs() {
    assert_eq!(Color::White.forward(), 1);
    assert_eq!(Color::Black.forward(), -1);
    assert_eq!(Color::White.opposite(), Color::Black);
    assert_eq!(Color::Black.opposite(), Color::White);
}

#[test]
fn piece_getters() {
    let piece = Piece::new(Color::Black, PieceType::Bishop, true);
    assert_eq!(piece.color(), Color::Black);
    assert_eq!(piece.title(), PieceType::Bishop);
    assert_eq!(*piece.get_title(), PieceType::Bishop);
    assert!(piece.has_moved());
    assert!(!Piece::new(Color::White, PieceType::Pawn, false).has_moved());
}

#[test]
fn direction_tables() {
    let queen = PieceType::Queen.directions();
    assert_eq!(queen.len(), 8);
    assert!(queen.iter().all(|d| d.2));
    let knight = PieceType::Knight.directions();
    assert_eq!(knight.len(), 8);
    assert!(knight.iter().all(|d| !d.2));
    assert_eq!(
        PieceType::Pawn.directions(),
        vec![(0, 1, false), (0, 2, false), (-1, 1, false), (1, 1, false)]
    );
    assert_eq!(
        PieceType::Bishop.directions(),
        vec![(-1, 1, true), (1, 1, true), (-1, -1, true), (1, -1, true)]
    );
}

#[test]
fn black_pawn_moves_toward_lower_ranks() {
    let mut game = Game::new();
    game.make_move("E2".to_string(), "E4".to_string());
    assert_eq!(
        game.get_possible_moves("E7".to_string()).unwrap(),
        vec!["E6".to_string(), "E5".to_string()]
    );
}

#[test]
fn knight_in_corner() {
    let mut board: Vec<Option<Piece>> = vec![None; 64];
    board[0] = Some(Piece::new(Color::White, PieceType::Knight, false));
    let game = Game::new_with_board(board);
    assert_eq!(
        game.get_possible_moves("A1".to_string()).unwrap(),
        vec!["B3".to_string(), "C2".to_string()]
    );
}

#[test]
fn check_must_be_answered() {
    // White is in check from the rook on the open E file; of all the queen's
    // geometric moves, only interposing on E2 survives the self-check filter.
    let mut board: Vec<Option<Piece>> = vec![None; 64];
    board[4] = Some(Piece::new(Color::White, PieceType::King, false));
    board[3] = Some(Piece::new(Color::White, PieceType::Queen, false));
    board[60] = Some(Piece::new(Color::Black, PieceType::Rook, false));
    board[62] = Some(Piece::new(Color::Black, PieceType::King, false));
    let game = Game::new_with_board(board);
    assert_eq!(game.get_game_state(), GameState::WhiteCheck);
    assert_eq!(
        game.get_possible_moves("D1".to_string()).unwrap(),
        vec!["E2".to_string()]
    );
}

#[test]
fn empty_square_has_no_moves() {
    let game = Game::new();
    assert_eq!(game.get_possible_moves("E4".to_string()), None);
    assert_eq!(game.get_possible_moves("E9".to_string()), None);
    assert_eq!(game.get_possible_moves("xx".to_string()), None);
}
