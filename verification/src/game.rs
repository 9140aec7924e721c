//! The game state machine: it owns the board, the active color and the
//! memoized legal-move table, applies validated moves, and classifies the
//! position after every move as in progress, check, checkmate or stalemate.

use vstd::prelude::*;

use crate::board::{
    file_of, generate_board, init_piece, king_at, rank_of, ray_on_board, ray_sq, spec_apply_move,
    spec_init_board, square_at, wf_board,
};
use crate::check::{
    in_check, king_square_attacked, knight_threat_at, lemma_surrounded_king_safe, ndir, qdir,
};
use crate::codec::{
    as_standard_notation, notation_of, parse_coordinate, square_of, valid_notation,
};
use crate::moves::{
    calculate_all_possible_moves, capture_ok, contains_sq, legal_dest, moves_list, pawn_list,
    sound_dests, step_dest, step_item, step_list, table_ok, tdir,
};
use crate::piece::{Color, Piece, PieceType};

verus! {

/// The classified state of a game. The two checkmate variants and `Tie`
/// (stalemate) are terminal: no further move is accepted once one is
/// reached.
#[derive(Copy, Clone, Debug, PartialEq, Eq, Structural)]
pub enum GameState {
    InProgress,
    BlackCheck,
    WhiteCheck,
    BlackCheckMate,
    WhiteCheckMate,
    Tie,
}

/// Why a submitted move was refused: the notation was unparseable, or the
/// notation was fine but the rules refuse the move.
#[derive(Copy, Clone, Debug, PartialEq, Eq, Structural)]
pub enum MoveError {
    InvalidNotation,
    IllegalMove,
}

/// The check state belonging to a color.
pub open spec fn spec_color_check(color: Color) -> GameState {
    match color {
        Color::Black => GameState::BlackCheck,
        Color::White => GameState::WhiteCheck,
    }
}

/// The check state belonging to a color.
fn color_check(color: Color) -> (r: GameState)
    ensures
        r == spec_color_check(color),
{
    match color {
        Color::Black => GameState::BlackCheck,
        Color::White => GameState::WhiteCheck,
    }
}

/// The check classification of a board: the first attacked king decides,
/// White's examined first; `None` when neither king is attacked.
pub open spec fn spec_check_status(b: Seq<Option<Piece>>) -> Option<GameState> {
    if in_check(b, Color::White) {
        Some(GameState::WhiteCheck)
    } else if in_check(b, Color::Black) {
        Some(GameState::BlackCheck)
    } else {
        None
    }
}

/// Whether side `c` has any legal move with any of its pieces.
pub open spec fn has_any_move(b: Seq<Option<Piece>>, c: Color) -> bool {
    exists|src: int, d: int|
        0 <= src < 64 && (b[src] matches Some(p) && p.color == c) && #[trigger] legal_dest(
            b,
            src,
            d,
        )
}

/// The classified game state of a board with `active` to move: a check
/// escalates to checkmate when the checked side has no legal move at all;
/// with no check, a side to move without any legal move is stalemate.
pub open spec fn spec_classify(b: Seq<Option<Piece>>, active: Color) -> GameState {
    match spec_check_status(b) {
        Some(st) => {
            if st == GameState::WhiteCheck {
                if has_any_move(b, Color::White) {
                    GameState::WhiteCheck
                } else {
                    GameState::WhiteCheckMate
                }
            } else {
                if has_any_move(b, Color::Black) {
                    GameState::BlackCheck
                } else {
                    GameState::BlackCheckMate
                }
            }
        },
        None => {
            if has_any_move(b, active) {
                GameState::InProgress
            } else {
                GameState::Tie
            }
        },
    }
}

/// Whether a state admits no further moves.
pub open spec fn spec_terminal(s: GameState) -> bool {
    s == GameState::BlackCheckMate || s == GameState::WhiteCheckMate || s == GameState::Tie
}

/// The board after the piece on `from`, marked as having moved, is relocated
/// to `to`, capturing any occupant of `to`.
pub open spec fn spec_move_board(b: Seq<Option<Piece>>, from: int, to: int) -> Seq<
    Option<Piece>,
> {
    b.update(to, Some(Piece { has_moved: true, ..b[from]->0 })).update(from, None)
}

/// Which king is attacked, if any: the check detector applied to both
/// kings, White's first.
pub fn board_in_check(board: &Vec<Option<Piece>>) -> (r: Option<GameState>)
    requires
        wf_board(board@),
    ensures
        r == spec_check_status(board@),
{
    if crate::check::color_in_check(board, Color::White) {
        Some(color_check(Color::White))
    } else if crate::check::color_in_check(board, Color::Black) {
        Some(color_check(Color::Black))
    } else {
        None
    }
}

/// Whether side `c` has any legal move, read off the legal-move table.
fn has_move(board: &Vec<Option<Piece>>, table: &Vec<Vec<u8>>, c: Color) -> (r: bool)
    requires
        wf_board(board@),
        table_ok(board@, table@),
    ensures
        r == has_any_move(board@, c),
{
    let mut s: usize = 0;
    while s < 64
        invariant
            wf_board(board@),
            table_ok(board@, table@),
            s <= 64,
            forall|s2: int, d: int|
                0 <= s2 < s && (board@[s2] matches Some(p) && p.color == c) ==> !(
                #[trigger] legal_dest(board@, s2, d)),
        decreases 64 - s,
    {
        let has_piece = match board[s] {
            Some(p) => p.color() == c,
            None => false,
        };
        if has_piece {
            let entry = &table[s];
            if entry.len() > 0 {
                proof {
                    assert(legal_dest(board@, s as int, (table@[s as int]@[0]) as int));
                }
                return true;
            }
            proof {
                assert forall|d: int| !(#[trigger] legal_dest(board@, s as int, d)) by {
                    if 0 <= d < 64 && legal_dest(board@, s as int, d) {
                        assert(contains_sq(table@[s as int]@, d as u8));
                    }
                }
            }
        }
        s = s + 1;
    }
    proof {
        if has_any_move(board@, c) {
            let (src, d) = choose|src: int, d: int|
                0 <= src < 64 && (board@[src] matches Some(p) && p.color == c)
                    && #[trigger] legal_dest(board@, src, d);
            assert(!legal_dest(board@, src, d));
        }
    }
    false
}

/// Classifies a board from its legal-move table; see `spec_classify`.
fn classify(board: &Vec<Option<Piece>>, table: &Vec<Vec<u8>>, active: Color) -> (r: GameState)
    requires
        wf_board(board@),
        table_ok(board@, table@),
    ensures
        r == spec_classify(board@, active),
{
    match board_in_check(board) {
        Some(st) => {
            if st == GameState::WhiteCheck {
                if has_move(board, table, Color::White) {
                    GameState::WhiteCheck
                } else {
                    GameState::WhiteCheckMate
                }
            } else {
                if has_move(board, table, Color::Black) {
                    GameState::BlackCheck
                } else {
                    GameState::BlackCheckMate
                }
            }
        },
        None => {
            if has_move(board, table, active) {
                GameState::InProgress
            } else {
                GameState::Tie
            }
        },
    }
}

/// A game: the authoritative board, the side to move, the classified state,
/// and the legal-move table for the current board, rebuilt wholesale after
/// every accepted move. Treat the fields as read-only: the methods keep
/// `wf()`, and every method requires it.
pub struct Game {
    pub state: GameState,
    pub active_color: Color,
    pub board: Vec<Option<Piece>>,
    pub possible_moves: Vec<Vec<u8>>,
}

/// Whether a game would accept the move `from` -> `to`: the game is not
/// over, both notations are well formed, a piece of the active color stands
/// on the origin, and the destination is legal for it.
pub open spec fn spec_accepts(g: Game, from: Seq<char>, to: Seq<char>) -> bool {
    &&& valid_notation(from)
    &&& valid_notation(to)
    &&& !spec_terminal(g.state)
    &&& g.board@[square_of(from)] matches Some(p) && p.color == g.active_color
    &&& legal_dest(g.board@, square_of(from), square_of(to))
}

impl Game {
    /// The game's invariant: a well-formed board, a legal-move table that
    /// belongs to it, and the stored state being the board's classification.
    pub open spec fn wf(self) -> bool {
        &&& wf_board(self.board@)
        &&& table_ok(self.board@, self.possible_moves@)
        &&& self.state == spec_classify(self.board@, self.active_color)
    }

    /// A new game in the standard starting position, in progress and with
    /// White to move.
    pub fn new() -> (g: Game)
        ensures
            g.wf(),
            g.board@ == spec_init_board(),
            g.active_color == Color::White,
            g.state == GameState::InProgress,
    {
        proof {
            lemma_initial_position_in_progress();
        }
        Game::new_with_board(generate_board())
    }

    /// A game starting from the given position, White to move; the position
    /// is classified immediately, so a board that already admits no move for
    /// White is a stalemate from the start. The board must hold at most one
    /// king per color.
    pub fn new_with_board(board: Vec<Option<Piece>>) -> (g: Game)
        requires
            wf_board(board@),
        ensures
            g.wf(),
            g.board@ == board@,
            g.active_color == Color::White,
            g.state == spec_classify(board@, Color::White),
    {
        let possible_moves = calculate_all_possible_moves(&board);
        let state = classify(&board, &possible_moves, Color::White);
        Game { state, active_color: Color::White, board, possible_moves }
    }

    /// Submits the move `from` -> `to`, telling unparseable notation apart
    /// from a move the rules refuse. Only checkmate and stalemate end the
    /// game: a side in check may (and must) still move. On acceptance the
    /// piece is relocated and marked moved, the turn passes, the legal-move
    /// table is rebuilt, and the new position's classification is stored
    /// and returned; on refusal the game is unchanged.
    pub fn try_move(&mut self, from: String, to: String) -> (r: Result<GameState, MoveError>)
        requires
            old(self).wf(),
        ensures
            final(self).wf(),
            (!valid_notation(from@) || !valid_notation(to@)) ==> r == Err::<
                GameState,
                MoveError,
            >(MoveError::InvalidNotation) && *final(self) == *old(self),
            (valid_notation(from@) && valid_notation(to@) && !spec_accepts(
                *old(self),
                from@,
                to@,
            )) ==> r == Err::<GameState, MoveError>(MoveError::IllegalMove) && *final(self)
                == *old(self),
            spec_accepts(*old(self), from@, to@) ==> {
                &&& final(self).board@ == spec_move_board(
                    old(self).board@,
                    square_of(from@),
                    square_of(to@),
                )
                &&& final(self).active_color == old(self).active_color.spec_opposite()
                &&& final(self).state == spec_classify(
                    final(self).board@,
                    final(self).active_color,
                )
                &&& r == Ok::<GameState, MoveError>(final(self).state)
            },
    {
        let from_sq = match parse_coordinate(&from) {
            Some(i) => i,
            None => { return Err(MoveError::InvalidNotation) },
        };
        let to_sq = match parse_coordinate(&to) {
            Some(i) => i,
            None => { return Err(MoveError::InvalidNotation) },
        };
        let over = match self.state {
            GameState::BlackCheckMate | GameState::WhiteCheckMate | GameState::Tie => true,
            _ => false,
        };
        if over {
            return Err(MoveError::IllegalMove);
        }
        let piece = match self.board[from_sq] {
            Some(p) => p,
            None => { return Err(MoveError::IllegalMove) },
        };
        if piece.color() != self.active_color {
            return Err(MoveError::IllegalMove);
        }
        // The move is legal exactly when the table registers it.
        let entry = &self.possible_moves[from_sq];
        let mut found = false;
        let mut n: usize = 0;
        while n < entry.len()
            invariant
                entry == &self.possible_moves[from_sq as int],
                from_sq < 64,
                to_sq < 64,
                n <= entry@.len(),
                found == exists|m: int| 0 <= m < n && entry@[m] == to_sq as u8,
            decreases entry@.len() - n,
        {
            if entry[n] == to_sq as u8 {
                found = true;
            }
            n = n + 1;
        }
        if !found {
            proof {
                if legal_dest(self.board@, from_sq as int, to_sq as int) {
                    assert(contains_sq(self.possible_moves@[from_sq as int]@, to_sq as u8));
                }
            }
            return Err(MoveError::IllegalMove);
        }
        proof {
            assert(contains_sq(self.possible_moves@[from_sq as int]@, to_sq as u8));
            assert(sound_dests(self.board@, from_sq as int, self.possible_moves@[from_sq as int]@));
            assert(legal_dest(self.board@, from_sq as int, to_sq as int));
        }
        // Relocate the piece, marking it as having moved.
        let moved = piece.marked_moved();
        self.board[to_sq] = Some(moved);
        self.board[from_sq] = None;
        proof {
            assert(self.board@ == spec_move_board(old(self).board@, from_sq as int, to_sq as int));
            lemma_move_board_wf(old(self).board@, from_sq as int, to_sq as int);
        }
        // The move has been made; the turn passes to the other side.
        let next = self.active_color.opposite();
        self.active_color = next;
        // Rebuild the legal-move table for the new position and classify it.
        let table = calculate_all_possible_moves(&self.board);
        self.possible_moves = table;
        let state = classify(&self.board, &self.possible_moves, self.active_color);
        self.state = state;
        Ok(state)
    }

    /// Submits the move `from` -> `to`; `None` when it is refused for any
    /// reason. `try_move` reports why a move was refused.
    pub fn make_move(&mut self, from: String, to: String) -> (r: Option<GameState>)
        requires
            old(self).wf(),
        ensures
            final(self).wf(),
            !spec_accepts(*old(self), from@, to@) ==> r is None && *final(self) == *old(self),
            spec_accepts(*old(self), from@, to@) ==> {
                &&& final(self).board@ == spec_move_board(
                    old(self).board@,
                    square_of(from@),
                    square_of(to@),
                )
                &&& final(self).active_color == old(self).active_color.spec_opposite()
                &&& final(self).state == spec_classify(
                    final(self).board@,
                    final(self).active_color,
                )
                &&& r == Some(final(self).state)
            },
    {
        match self.try_move(from, to) {
            Ok(state) => Some(state),
            Err(_) => None,
        }
    }

    /// Sets the piece type a pawn becomes following a promotion. Promotion
    /// is out of scope, so nothing is recorded.
    pub fn set_promotion(&mut self, _piece: String)
        ensures
            *final(self) == *old(self),
    {
    }

    /// The current classified game state.
    pub fn get_game_state(&self) -> (r: GameState)
        ensures
            r == self.state,
    {
        self.state
    }

    /// The legal destinations registered for the piece on the given square,
    /// in standard notation; `None` when the notation is malformed, the
    /// square is empty, or its piece has no legal move.
    pub fn get_possible_moves(&self, position: String) -> (r: Option<Vec<String>>)
        requires
            self.wf(),
        ensures
            r is None ==> !valid_notation(position@) || self.possible_moves@[square_of(
                position@,
            )]@.len() == 0,
            r matches Some(v) ==> {
                &&& valid_notation(position@)
                &&& v@.len() == self.possible_moves@[square_of(position@)]@.len()
                &&& v@.len() > 0
                &&& forall|n: int|
                    0 <= n < v@.len() ==> (#[trigger] v@[n])@ == notation_of(
                        self.possible_moves@[square_of(position@)]@[n] as int,
                    )
            },
    {
        let src = match parse_coordinate(&position) {
            Some(i) => i,
            None => { return None },
        };
        let entry = &self.possible_moves[src];
        if entry.len() == 0 {
            return None;
        }
        let mut out: Vec<String> = Vec::new();
        let mut n: usize = 0;
        while n < entry.len()
            invariant
                entry == &self.possible_moves[src as int],
                src < 64,
                self.wf(),
                n <= entry@.len(),
                out@.len() == n,
                forall|m: int|
                    0 <= m < n ==> (#[trigger] out@[m])@ == notation_of(entry@[m] as int),
            decreases entry@.len() - n,
        {
            let d = entry[n];
            proof {
                assert(entry@[n as int] < 64);
            }
            out.push(as_standard_notation(&(d as usize)));
            n = n + 1;
        }
        Some(out)
    }

    /// The current board.
    pub fn get_board(&self) -> (r: &Vec<Option<Piece>>)
        ensures
            r == &self.board,
    {
        &self.board
    }
}

/// A position that still shows the starting board on every square a ray or
/// knight reaches first from E1 (the five on-board neighbors D1, F1, D2,
/// E2, F2 and the knight-reach squares C2, G2, D3, F3), and whose only
/// white king stands on E1, leaves White out of check.
proof fn lemma_white_king_shielded(b2: Seq<Option<Piece>>)
    requires
        b2[3] == init_piece(3),
        b2[5] == init_piece(5),
        b2[11] == init_piece(11),
        b2[12] == init_piece(12),
        b2[13] == init_piece(13),
        b2[10] == init_piece(10),
        b2[14] == init_piece(14),
        b2[19] == init_piece(19),
        b2[21] == init_piece(21),
        forall|k: int| #[trigger] king_at(b2, Color::White, k) ==> k == 4,
    ensures
        !in_check(b2, Color::White),
{
    assert forall|k: int|
        0 <= k < 8 implies (!ray_on_board(4, qdir(k).0, qdir(k).1, 1) || (b2[#[trigger] ray_sq(
        4,
        qdir(k).0,
        qdir(k).1,
        1,
    )] matches Some(p) && p.color == Color::White)) by {
        if k == 0 {
            assert(ray_sq(4, qdir(0).0, qdir(0).1, 1) == 11);
        } else if k == 1 {
            assert(ray_sq(4, qdir(1).0, qdir(1).1, 1) == 12);
        } else if k == 2 {
            assert(ray_sq(4, qdir(2).0, qdir(2).1, 1) == 5);
        } else if k == 3 {
            assert(ray_sq(4, qdir(3).0, qdir(3).1, 1) == 13);
        } else if k == 4 {
            assert(ray_sq(4, qdir(4).0, qdir(4).1, 1) == 3);
        } else if k == 5 {
            assert(!ray_on_board(4, qdir(5).0, qdir(5).1, 1));
        } else if k == 6 {
            assert(!ray_on_board(4, qdir(6).0, qdir(6).1, 1));
        } else {
            assert(!ray_on_board(4, qdir(7).0, qdir(7).1, 1));
        }
    }
    assert forall|k: int| 0 <= k < 8 implies !(#[trigger] knight_threat_at(
        b2,
        4,
        Color::White,
        k,
    )) by {
        if k == 0 {
            assert(ray_sq(4, ndir(0).0, ndir(0).1, 1) == 19);
        } else if k == 1 {
            assert(ray_sq(4, ndir(1).0, ndir(1).1, 1) == 21);
        } else if k == 2 {
            assert(ray_sq(4, ndir(2).0, ndir(2).1, 1) == 14);
        } else if k == 3 {
            assert(!ray_on_board(4, ndir(3).0, ndir(3).1, 1));
        } else if k == 4 {
            assert(!ray_on_board(4, ndir(4).0, ndir(4).1, 1));
        } else if k == 5 {
            assert(!ray_on_board(4, ndir(5).0, ndir(5).1, 1));
        } else if k == 6 {
            assert(ray_sq(4, ndir(6).0, ndir(6).1, 1) == 10);
        } else {
            assert(!ray_on_board(4, ndir(7).0, ndir(7).1, 1));
        }
    }
    lemma_surrounded_king_safe(b2, 4, Color::White);
}

/// The mirror of `lemma_white_king_shielded` for the black king on E8: its
/// on-board neighbors D8, F8, D7, E7, F7 and knight-reach squares C7, G7,
/// D6, F6 still show the starting board, and its only black king stands on
/// E8, so Black is out of check.
proof fn lemma_black_king_shielded(b2: Seq<Option<Piece>>)
    requires
        b2[59] == init_piece(59),
        b2[61] == init_piece(61),
        b2[51] == init_piece(51),
        b2[52] == init_piece(52),
        b2[53] == init_piece(53),
        b2[50] == init_piece(50),
        b2[54] == init_piece(54),
        b2[43] == init_piece(43),
        b2[45] == init_piece(45),
        forall|k: int| #[trigger] king_at(b2, Color::Black, k) ==> k == 60,
    ensures
        !in_check(b2, Color::Black),
{
    assert forall|k: int|
        0 <= k < 8 implies (!ray_on_board(60, qdir(k).0, qdir(k).1, 1) || (b2[#[trigger] ray_sq(
        60,
        qdir(k).0,
        qdir(k).1,
        1,
    )] matches Some(p) && p.color == Color::Black)) by {
        if k == 0 {
            assert(!ray_on_board(60, qdir(0).0, qdir(0).1, 1));
        } else if k == 1 {
            assert(!ray_on_board(60, qdir(1).0, qdir(1).1, 1));
        } else if k == 2 {
            assert(ray_sq(60, qdir(2).0, qdir(2).1, 1) == 61);
        } else if k == 3 {
            assert(!ray_on_board(60, qdir(3).0, qdir(3).1, 1));
        } else if k == 4 {
            assert(ray_sq(60, qdir(4).0, qdir(4).1, 1) == 59);
        } else if k == 5 {
            assert(ray_sq(60, qdir(5).0, qdir(5).1, 1) == 51);
        } else if k == 6 {
            assert(ray_sq(60, qdir(6).0, qdir(6).1, 1) == 52);
        } else {
            assert(ray_sq(60, qdir(7).0, qdir(7).1, 1) == 53);
        }
    }
    assert forall|k: int| 0 <= k < 8 implies !(#[trigger] knight_threat_at(
        b2,
        60,
        Color::Black,
        k,
    )) by {
        if k == 0 {
            assert(!ray_on_board(60, ndir(0).0, ndir(0).1, 1));
        } else if k == 1 {
            assert(!ray_on_board(60, ndir(1).0, ndir(1).1, 1));
        } else if k == 2 {
            assert(!ray_on_board(60, ndir(2).0, ndir(2).1, 1));
        } else if k == 3 {
            assert(ray_sq(60, ndir(3).0, ndir(3).1, 1) == 54);
        } else if k == 4 {
            assert(ray_sq(60, ndir(4).0, ndir(4).1, 1) == 43);
        } else if k == 5 {
            assert(ray_sq(60, ndir(5).0, ndir(5).1, 1) == 45);
        } else if k == 6 {
            assert(!ray_on_board(60, ndir(6).0, ndir(6).1, 1));
        } else {
            assert(ray_sq(60, ndir(7).0, ndir(7).1, 1) == 50);
        }
    }
    lemma_surrounded_king_safe(b2, 60, Color::Black);
}

/// On the starting position with one white pawn or minor piece moved off
/// its back two ranks' shield squares, White's king is only on E1.
proof fn lemma_white_king_only_e1(b2: Seq<Option<Piece>>, src: int, dest: int)
    requires
        b2 == spec_apply_move(spec_init_board(), src, dest),
        0 <= src < 64,
        0 <= dest < 64,
        src != dest,
        src != 4,
        spec_init_board()[src] matches Some(p) && p.title != PieceType::King,
    ensures
        forall|k: int| #[trigger] king_at(b2, Color::White, k) ==> k == 4,
        forall|k: int| #[trigger] king_at(b2, Color::Black, k) ==> k == 60,
{
    let b = spec_init_board();
    assert forall|k: int| #[trigger] king_at(b2, Color::White, k) implies k == 4 by {
        if k != src && k != dest {
            assert(b2[k] == init_piece(k));
        } else if k == dest {
            assert(b2[dest] == b[src]);
            assert(b[src] == init_piece(src));
        }
    }
    assert forall|k: int| #[trigger] king_at(b2, Color::Black, k) implies k == 60 by {
        if k != src && k != dest {
            assert(b2[k] == init_piece(k));
        } else if k == dest {
            assert(b2[dest] == b[src]);
            assert(b[src] == init_piece(src));
        }
    }
}

/// The starting position classifies as in progress: neither king is in
/// check, and White has a legal move (the queenside knight can develop).
pub proof fn lemma_initial_position_in_progress()
    ensures
        spec_classify(spec_init_board(), Color::White) == GameState::InProgress,
{
    let b = spec_init_board();
    assert forall|k: int| #[trigger] king_at(b, Color::White, k) implies k == 4 by {
        assert(b[k] == init_piece(k));
    }
    assert forall|k: int| #[trigger] king_at(b, Color::Black, k) implies k == 60 by {
        assert(b[k] == init_piece(k));
    }
    lemma_white_king_shielded(b);
    lemma_black_king_shielded(b);
    assert(b[1] == init_piece(1));
    assert(b[16] == init_piece(16));
    assert(tdir(PieceType::Knight, 0).0 == -1 && tdir(PieceType::Knight, 0).1 == 2);
    assert(ray_on_board(1, tdir(PieceType::Knight, 0).0, tdir(PieceType::Knight, 0).1, 1));
    assert(ray_sq(1, tdir(PieceType::Knight, 0).0, tdir(PieceType::Knight, 0).1, 1) == 16);
    assert(capture_ok(b, 16, Color::White));
    assert(step_dest(b, 1, Color::White, PieceType::Knight, 16));
    lemma_white_king_only_e1(spec_apply_move(b, 1, 16), 1, 16);
    lemma_white_king_shielded(spec_apply_move(b, 1, 16));
    assert(legal_dest(b, 1, 16));
    assert(has_any_move(b, Color::White));
}

/// On the starting board the queenside knight on B1 has exactly the legal
/// destinations A3 and C3, in that order: its other offsets leave the board
/// or land on the D2 pawn, and neither move exposes the white king.
pub proof fn lemma_initial_knight_moves()
    ensures
        moves_list(spec_init_board(), 1) == seq![16u8, 18u8],
{
    let b = spec_init_board();
    let c = Color::White;
    let t = PieceType::Knight;
    assert(b[1] == init_piece(1));
    assert(b[16] == init_piece(16));
    assert(b[18] == init_piece(18));
    assert(b[11] == init_piece(11));
    lemma_white_king_only_e1(spec_apply_move(b, 1, 16), 1, 16);
    lemma_white_king_shielded(spec_apply_move(b, 1, 16));
    lemma_white_king_only_e1(spec_apply_move(b, 1, 18), 1, 18);
    lemma_white_king_shielded(spec_apply_move(b, 1, 18));
    assert(step_item(b, 1, c, t, 0) =~= seq![16u8]) by {
        assert(ray_sq(1, tdir(t, 0).0, tdir(t, 0).1, 1) == 16);
        assert(ray_on_board(1, tdir(t, 0).0, tdir(t, 0).1, 1));
        assert(capture_ok(b, 16, c));
        assert(!in_check(spec_apply_move(b, 1, 16), c));
    }
    assert(step_item(b, 1, c, t, 1) =~= seq![18u8]) by {
        assert(ray_sq(1, tdir(t, 1).0, tdir(t, 1).1, 1) == 18);
        assert(ray_on_board(1, tdir(t, 1).0, tdir(t, 1).1, 1));
        assert(capture_ok(b, 18, c));
        assert(!in_check(spec_apply_move(b, 1, 18), c));
    }
    assert(step_item(b, 1, c, t, 2) =~= Seq::<u8>::empty()) by {
        assert(ray_sq(1, tdir(t, 2).0, tdir(t, 2).1, 1) == 11);
        assert(!capture_ok(b, 11, c));
    }
    assert(step_item(b, 1, c, t, 3) =~= Seq::<u8>::empty()) by {
        assert(!ray_on_board(1, tdir(t, 3).0, tdir(t, 3).1, 1));
    }
    assert(step_item(b, 1, c, t, 4) =~= Seq::<u8>::empty()) by {
        assert(!ray_on_board(1, tdir(t, 4).0, tdir(t, 4).1, 1));
    }
    assert(step_item(b, 1, c, t, 5) =~= Seq::<u8>::empty()) by {
        assert(!ray_on_board(1, tdir(t, 5).0, tdir(t, 5).1, 1));
    }
    assert(step_item(b, 1, c, t, 6) =~= Seq::<u8>::empty()) by {
        assert(!ray_on_board(1, tdir(t, 6).0, tdir(t, 6).1, 1));
    }
    assert(step_item(b, 1, c, t, 7) =~= Seq::<u8>::empty()) by {
        assert(!ray_on_board(1, tdir(t, 7).0, tdir(t, 7).1, 1));
    }
    assert(step_list(b, 1, c, t, 8) =~= Seq::<u8>::empty());
    assert(step_list(b, 1, c, t, 7) =~= Seq::<u8>::empty());
    assert(step_list(b, 1, c, t, 6) =~= Seq::<u8>::empty());
    assert(step_list(b, 1, c, t, 5) =~= Seq::<u8>::empty());
    assert(step_list(b, 1, c, t, 4) =~= Seq::<u8>::empty());
    assert(step_list(b, 1, c, t, 3) =~= Seq::<u8>::empty());
    assert(step_list(b, 1, c, t, 2) =~= Seq::<u8>::empty());
    assert(step_list(b, 1, c, t, 1) =~= seq![18u8]);
    assert(step_list(b, 1, c, t, 0) =~= seq![16u8, 18u8]);
    assert(moves_list(b, 1) == step_list(b, 1, c, t, 0));
}

/// On the starting board the pawn on B2 has exactly the legal destinations
/// B3 and B4, in that order: both forward squares are empty, it has never
/// moved, and there is nothing to capture diagonally.
pub proof fn lemma_initial_pawn_moves()
    ensures
        moves_list(spec_init_board(), 9) == seq![17u8, 25u8],
{
    let b = spec_init_board();
    assert(b[9] == init_piece(9));
    assert(b[16] == init_piece(16));
    assert(b[17] == init_piece(17));
    assert(b[18] == init_piece(18));
    assert(b[25] == init_piece(25));
    lemma_white_king_only_e1(spec_apply_move(b, 9, 17), 9, 17);
    lemma_white_king_shielded(spec_apply_move(b, 9, 17));
    lemma_white_king_only_e1(spec_apply_move(b, 9, 25), 9, 25);
    lemma_white_king_shielded(spec_apply_move(b, 9, 25));
    let p = b[9]->0;
    assert(pawn_list(b, 9, p) =~= seq![17u8, 25u8]) by {
        assert(file_of(9) == 1 && rank_of(9) == 1 && p.color.spec_forward() == 1);
        assert(square_at(1, 2) == 17 && square_at(1, 3) == 25 && square_at(0, 2) == 16
            && square_at(2, 2) == 18);
        assert(!in_check(spec_apply_move(b, 9, 17), p.color));
        assert(!in_check(spec_apply_move(b, 9, 25), p.color));
    }
    assert(moves_list(b, 9) == pawn_list(b, 9, p));
}

/// Making a move never clears a relocation flag: every piece of the new
/// board that is still unmoved stood untouched on the same square before.
/// Together with `crate::moves::lemma_double_step_forfeited` this is the
/// double-step forfeiture law: once a pawn has been relocated by `try_move`,
/// which marks it, no later position ever offers it a two-rank advance.
pub proof fn lemma_has_moved_monotone(b: Seq<Option<Piece>>, from: int, to: int)
    requires
        0 <= from < 64,
        0 <= to < 64,
        b.len() == 64,
    ensures
        forall|s: int|
            0 <= s < 64 && (#[trigger] spec_move_board(b, from, to)[s] matches Some(p)
                && !p.has_moved) ==> spec_move_board(b, from, to)[s] == b[s],
{
}

/// Relocating a piece (marked as moved) keeps the board well formed: no
/// piece is duplicated, so there is still at most one king of each color.
pub proof fn lemma_move_board_wf(b: Seq<Option<Piece>>, from: int, to: int)
    requires
        wf_board(b),
        0 <= from < 64,
        0 <= to < 64,
        b[from] is Some,
    ensures
        wf_board(spec_move_board(b, from, to)),
{
    let b2 = spec_move_board(b, from, to);
    assert forall|c: Color, i: int, j: int|
        #[trigger] crate::board::king_at(b2, c, i) && #[trigger] crate::board::king_at(
            b2,
            c,
            j,
        ) implies i == j by {
        if i != from && i == to {
            assert(crate::board::king_at(b, c, from));
        } else if i != from {
            assert(crate::board::king_at(b, c, i));
        }
        if j != from && j == to {
            assert(crate::board::king_at(b, c, from));
        } else if j != from {
            assert(crate::board::king_at(b, c, j));
        }
    }
}

} // verus!
