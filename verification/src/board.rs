//! The board model: a 64-slot array of optional pieces, square geometry,
//! the move-application primitive, king location, and the standard starting
//! position.

use vstd::prelude::*;

use crate::piece::{Color, Piece, PieceType};

verus! {

/// The file (column) of a square index.
pub open spec fn file_of(s: int) -> int {
    s % 8
}

/// The rank (row) of a square index.
pub open spec fn rank_of(s: int) -> int {
    s / 8
}

/// The square index of a file and rank.
pub open spec fn square_at(f: int, r: int) -> int {
    r * 8 + f
}

/// Whether a file and rank lie on the 8x8 board.
pub open spec fn on_board(f: int, r: int) -> bool {
    0 <= f < 8 && 0 <= r < 8
}

/// The square reached from `s` after `i` steps in direction (`df`, `dr`),
/// counted in files and ranks (so a step can never wrap around an edge).
pub open spec fn ray_sq(s: int, df: int, dr: int, i: int) -> int {
    square_at(file_of(s) + i * df, rank_of(s) + i * dr)
}

/// Whether the square `i` steps from `s` in direction (`df`, `dr`) lies on
/// the board.
pub open spec fn ray_on_board(s: int, df: int, dr: int, i: int) -> bool {
    on_board(file_of(s) + i * df, rank_of(s) + i * dr)
}

/// Whether every square strictly between `s` and its `i`-th step in
/// direction (`df`, `dr`) lies on the board and is empty.
pub open spec fn ray_clear(b: Seq<Option<Piece>>, s: int, df: int, dr: int, i: int) -> bool {
    forall|j: int|
        1 <= j < i ==> ray_on_board(s, df, dr, j) && b[#[trigger] ray_sq(s, df, dr, j)] is None
}

/// Distribution of one extra ray step over the multiplication in `ray_sq`.
pub proof fn lemma_mul_succ(i: int, d: int)
    ensures
        (i + 1) * d == i * d + d,
{
    assert((i + 1) * d == i * d + d) by (nonlinear_arith);
}

/// The value of a ray-step product for each unit delta.
pub proof fn lemma_mul_unit(i: int, d: int)
    ensures
        d == 1 ==> i * d == i,
        d == -1 ==> i * d == -i,
        d == 0 ==> i * d == 0,
{
    assert(d == 1 ==> i * d == i) by (nonlinear_arith);
    assert(d == -1 ==> i * d == -i) by (nonlinear_arith);
    assert(d == 0 ==> i * d == 0) by (nonlinear_arith);
}

/// Whether square `i` holds a king of color `c`.
pub open spec fn king_at(b: Seq<Option<Piece>>, c: Color, i: int) -> bool {
    &&& 0 <= i < 64
    &&& b[i] matches Some(p)
    &&& b[i]->0.title == PieceType::King
    &&& b[i]->0.color == c
}

/// A board the engine can work on: 64 slots, and at most one king per color.
/// (The rules assume each side actually has a king; a side without one is
/// simply never in check, which also covers hypothetical boards in which a
/// candidate move has just captured a king.)
pub open spec fn wf_board(b: Seq<Option<Piece>>) -> bool {
    &&& b.len() == 64
    &&& forall|c: Color, i: int, j: int|
        #[trigger] king_at(b, c, i) && #[trigger] king_at(b, c, j) ==> i == j
}

/// The board after relocating the piece on `from` to `to`, capturing any
/// occupant of `to`.
pub open spec fn spec_apply_move(b: Seq<Option<Piece>>, from: int, to: int) -> Seq<
    Option<Piece>,
> {
    b.update(to, b[from]).update(from, None)
}

/// Relocating a piece keeps the board well formed: no piece is duplicated,
/// so there is still at most one king of each color.
pub proof fn lemma_apply_move_wf(b: Seq<Option<Piece>>, from: int, to: int)
    requires
        wf_board(b),
        0 <= from < 64,
        0 <= to < 64,
        from != to,
    ensures
        wf_board(spec_apply_move(b, from, to)),
{
    let b2 = spec_apply_move(b, from, to);
    assert forall|c: Color, i: int, j: int|
        #[trigger] king_at(b2, c, i) && #[trigger] king_at(b2, c, j) implies i == j by {
        if i == to {
            assert(king_at(b, c, from));
        } else {
            assert(king_at(b, c, i));
        }
        if j == to {
            assert(king_at(b, c, from));
        } else {
            assert(king_at(b, c, j));
        }
    }
}

/// Returns a new board with the given move made on it.
pub fn board_from_move(board: Vec<Option<Piece>>, from: usize, to: usize) -> (r: Vec<
    Option<Piece>,
>)
    requires
        board@.len() == 64,
        from < 64,
        to < 64,
    ensures
        r@ == spec_apply_move(board@, from as int, to as int),
{
    let mut board = board;
    let piece = board[from];
    board[to] = piece;
    board[from] = None;
    board
}

/// The square of the king of color `color`, scanning the whole board and
/// keeping the last match, or `None` when the board has no such king.
pub fn find_king(board: &Vec<Option<Piece>>, color: Color) -> (r: Option<usize>)
    requires
        board@.len() == 64,
    ensures
        r matches Some(i) ==> king_at(board@, color, i as int) && (forall|j: int|
            i < j < 64 ==> !king_at(board@, color, j)),
        r is None ==> forall|j: int| 0 <= j < 64 ==> !king_at(board@, color, j),
{
    let mut found: Option<usize> = None;
    let mut square: usize = 0;
    while square < 64
        invariant
            board@.len() == 64,
            square <= 64,
            found matches Some(i) ==> king_at(board@, color, i as int) && (forall|j: int|
                i < j < square ==> !king_at(board@, color, j)),
            found is None ==> forall|j: int| 0 <= j < square ==> !king_at(board@, color, j),
        decreases 64 - square,
    {
        match board[square] {
            Some(piece) => {
                if piece.title() == PieceType::King && piece.color() == color {
                    found = Some(square);
                }
            },
            None => {},
        }
        square = square + 1;
    }
    found
}

/// The back-rank piece kind standing on file `f` in the starting position.
pub open spec fn back_rank_title(f: int) -> PieceType {
    if f == 0 || f == 7 {
        PieceType::Rook
    } else if f == 1 || f == 6 {
        PieceType::Knight
    } else if f == 2 || f == 5 {
        PieceType::Bishop
    } else if f == 3 {
        PieceType::Queen
    } else {
        PieceType::King
    }
}

/// The occupant of square `i` in the standard starting position.
pub open spec fn init_piece(i: int) -> Option<Piece> {
    if rank_of(i) == 0 {
        Some(Piece { color: Color::White, title: back_rank_title(file_of(i)), has_moved: false })
    } else if rank_of(i) == 1 {
        Some(Piece { color: Color::White, title: PieceType::Pawn, has_moved: false })
    } else if rank_of(i) == 6 {
        Some(Piece { color: Color::Black, title: PieceType::Pawn, has_moved: false })
    } else if rank_of(i) == 7 {
        Some(Piece { color: Color::Black, title: back_rank_title(file_of(i)), has_moved: false })
    } else {
        None
    }
}

/// The standard starting position.
pub open spec fn spec_init_board() -> Seq<Option<Piece>> {
    Seq::new(64, |i: int| init_piece(i))
}

/// The starting occupant of one square; see `init_piece`.
fn init_square(i: usize) -> (r: Option<Piece>)
    requires
        i < 64,
    ensures
        r == init_piece(i as int),
{
    let file = i % 8;
    let rank = i / 8;
    let back_rank = if file == 0 || file == 7 {
        PieceType::Rook
    } else if file == 1 || file == 6 {
        PieceType::Knight
    } else if file == 2 || file == 5 {
        PieceType::Bishop
    } else if file == 3 {
        PieceType::Queen
    } else {
        PieceType::King
    };
    if rank == 0 {
        Some(Piece::new(Color::White, back_rank, false))
    } else if rank == 1 {
        Some(Piece::new(Color::White, PieceType::Pawn, false))
    } else if rank == 6 {
        Some(Piece::new(Color::Black, PieceType::Pawn, false))
    } else if rank == 7 {
        Some(Piece::new(Color::Black, back_rank, false))
    } else {
        None
    }
}

/// Builds the standard starting position: White's back rank on rank 1, its
/// pawns on rank 2, Black's pawns on rank 7 and back rank on rank 8.
pub fn generate_board() -> (r: Vec<Option<Piece>>)
    ensures
        r@ == spec_init_board(),
        wf_board(r@),
{
    let mut board: Vec<Option<Piece>> = Vec::new();
    let mut i: usize = 0;
    while i < 64
        invariant
            i <= 64,
            board@.len() == i,
            forall|j: int| 0 <= j < i ==> board@[j] == init_piece(j),
        decreases 64 - i,
    {
        board.push(init_square(i));
        i = i + 1;
    }
    proof {
        assert(board@ =~= spec_init_board());
        assert forall|c: Color, i2: int, j2: int|
            #[trigger] king_at(board@, c, i2) && #[trigger] king_at(board@, c, j2) implies i2
            == j2 by {
            assert(rank_of(i2) == i2 / 8);
        }
    }
    board
}

} // verus!
