use chess_engine::{as_coordinate, as_standard_notation, Color, Game, GameState, Piece, PieceType};

fn board_text(game: &Game) -> String {
    let mut out = String::new();
    out.push_str("A  B  C  D  E  F  G  H \n");
    for rank in (0..8).rev() {
        for file in 0..8 {
            match game.get_board()[file + rank * 8] {
                Some(piece) => {
                    let glyph = match (piece.title(), piece.color()) {
                        (PieceType::King, Color::White) => "K  ",
                        (PieceType::King, Color::Black) => "k  ",
                        (PieceType::Queen, Color::White) => "Q  ",
                        (PieceType::Queen, Color::Black) => "q  ",
                        (PieceType::Bishop, Color::White) => "B  ",
                        (PieceType::Bishop, Color::Black) => "b  ",
                        (PieceType::Knight, Color::White) => "Kn ",
                        (PieceType::Knight, Color::Black) => "kn ",
                        (PieceType::Rook, Color::White) => "R  ",
                        (PieceType::Rook, Color::Black) => "r  ",
                        (PieceType::Pawn, Color::White) => "P  ",
                        (PieceType::Pawn, Color::Black) => "p  ",
                    };
                    out.push_str(glyph);
                }
                None => out.push_str("*  "),
            }
        }
        out.push_str(&format!("{} \n", rank + 1));
    }
    out
}

// check that game state is in progress after initialisation
#[test]
fn game_game_in_progress_after_init() {
    let game = Game::new();

    assert_eq!(game.get_game_state(), GameState::InProgress);
}

#[test]
fn lib_game_in_progress_after_init() {
    let game = Game::new();

    assert_eq!(game.get_game_state(), GameState::InProgress);
}

// Test if board has values that can be read
#[test]
fn game_readable_board_pieces_after_init() {
    let game = Game::new();

    assert_eq!(
        game.get_board()[0].unwrap(),
        Piece::new(Color::White, PieceType::Rook, false)
    );
}

#[test]
fn game_convert_input_to_coordinates() {
    assert_eq!(as_coordinate(&"B4".to_string()), 25)
}

#[test]
fn get_piece_directions_after_board_init() {
    let game = Game::new();

    assert_eq!(
        game.get_board()[0].unwrap().title().directions()[0],
        (-1, 0, true)
    );
}

#[test]
fn convert_coordinates_to_standard_notation() {
    assert_eq!(as_standard_notation(&(25 as usize)), "B4".to_string());
}

#[test]
fn get_possible_moves_from_board_init() {
    let game = Game::new();

    assert_eq!(
        game.get_possible_moves(String::from("B1")).unwrap(),
        vec![String::from("A3"), String::from("C3")]
    );
}

#[test]
fn get_pawn_possible_moves() {
    let game = Game::new();

    assert_eq!(
        game.get_possible_moves(String::from("B2")).unwrap(),
        vec![String::from("B3"), String::from("B4")]
    );
}

#[test]
fn printable_board() {
    let game = Game::new();

    println!("{}", board_text(&game));
}

#[test]
fn make_moves() {
    let mut game = Game::new();
    game.make_move(String::from("D2"), String::from("D3"));
    println!("{}", board_text(&game));
    game.make_move(String::from("D7"), String::from("D5"));
    println!("{}", board_text(&game));
    game.make_move(String::from("A2"), String::from("A3"));
    println!("{}", board_text(&game));
}

#[test]
fn check_mate_possible() {
    let mut game = Game::new();
    game.make_move(String::from("E2"), String::from("E3"));
    println!("{}", board_text(&game));
    game.make_move(String::from("A7"), String::from("A5"));
    println!("{}", board_text(&game));
    game.make_move(String::from("D1"), String::from("H5"));
    println!("{}", board_text(&game));
    game.make_move(String::from("A8"), String::from("A7"));
    println!("{}", board_text(&game));
    game.make_move(String::from("F1"), String::from("C4"));
    println!("{}", board_text(&game));
    game.make_move(String::from("B7"), String::from("B6"));
    println!("{}", board_text(&game));
    assert_eq!(
        game.make_move(String::from("H5"), String::from("F7")),
        Some(GameState::BlackCheckMate)
    );
    println!("{}", board_text(&game));
}

#[test]
fn pawns_cant_double_move_twice() {
    let mut game = Game::new();
    game.make_move(String::from("E2"), String::from("E4"));
    println!("{}", board_text(&game));
    game.make_move(String::from("A7"), String::from("A5"));
    println!("{}", board_text(&game));
    assert_eq!(game.make_move(String::from("E4"), String::from("E6")), None);
    println!("{}", board_text(&game));
}

#[test]
fn tie_is_possible() {
    let mut board: Vec<Option<Piece>> = vec![None; 64];
    board[0] = Some(Piece::new(Color::White, PieceType::King, false));
    board[10] = Some(Piece::new(Color::Black, PieceType::Queen, false));
    board[17] = Some(Piece::new(Color::Black, PieceType::Rook, false));
    board[62] = Some(Piece::new(Color::Black, PieceType::King, false));
    let mut game = Game::new_with_board(board);

    game.make_move(String::from("B3"), String::from("B2"));
    println!("{}", board_text(&game));
    assert_eq!(game.get_game_state(), GameState::Tie);
}
