//! The piece model: colors, piece kinds, and each kind's raw movement
//! geometry as an ordered list of (file delta, rank delta, repeating) triples.

use vstd::prelude::*;

verus! {

/// The two sides. A color fixes the forward direction of its pawns:
/// White advances toward increasing ranks, Black toward decreasing ranks.
#[derive(Copy, Clone, Debug, PartialEq, Eq, Structural)]
pub enum Color {
    Black,
    White,
}

impl Color {
    /// The rank-increasing sign of this color's pawn advance.
    pub open spec fn spec_forward(self) -> int {
        if self == Color::White {
            1
        } else {
            -1
        }
    }

    /// The other side.
    pub open spec fn spec_opposite(self) -> Color {
        if self == Color::White {
            Color::Black
        } else {
            Color::White
        }
    }

    /// The rank direction this color's pawns move in: +1 for White, -1 for Black.
    pub fn forward(&self) -> (r: i32)
        ensures
            r == self.spec_forward(),
    {
        if *self == Color::White {
            1
        } else {
            -1
        }
    }

    /// The other side.
    pub fn opposite(&self) -> (r: Color)
        ensures
            r == self.spec_opposite(),
    {
        match *self {
            Color::Black => Color::White,
            Color::White => Color::Black,
        }
    }
}

/// The six piece kinds.
#[derive(Copy, Clone, Debug, PartialEq, Eq, Structural)]
pub enum PieceType {
    King,
    Queen,
    Bishop,
    Knight,
    Rook,
    Pawn,
}

/// A piece: its side, its kind, and whether it has ever been relocated.
/// The `has_moved` flag only gates the pawn double-step.
#[derive(Copy, Clone, Debug, PartialEq, Eq, Structural)]
pub struct Piece {
    pub color: Color,
    pub title: PieceType,
    pub has_moved: bool,
}

impl Piece {
    pub fn new(color: Color, title: PieceType, has_moved: bool) -> (r: Piece)
        ensures
            r == (Piece { color, title, has_moved }),
    {
        Piece { color, title, has_moved }
    }

    /// The piece's kind.
    pub fn title(&self) -> (r: PieceType)
        ensures
            r == self.title,
    {
        self.title
    }

    /// The piece's kind, by reference.
    pub fn get_title(&self) -> (r: &PieceType)
        ensures
            *r == self.title,
    {
        &self.title
    }

    /// The piece's side.
    pub fn color(&self) -> (r: Color)
        ensures
            r == self.color,
    {
        self.color
    }

    /// Whether the piece has ever been relocated.
    pub fn has_moved(&self) -> (r: bool)
        ensures
            r == self.has_moved,
    {
        self.has_moved
    }

    /// The same piece with its relocation flag set.
    pub fn marked_moved(&self) -> (r: Piece)
        ensures
            r == (Piece { has_moved: true, ..*self }),
    {
        Piece { color: self.color, title: self.title, has_moved: true }
    }
}

impl PieceType {
    /// The movement geometry of each kind, in generation order: a sequence of
    /// (file delta, rank delta, repeating) triples. A repeating direction is a
    /// ray cast until blocked; a non-repeating one is a single step. Pawn
    /// entries encode forward-one, forward-two and the two diagonal captures,
    /// with the rank delta still to be scaled by the color's forward sign.
    pub open spec fn spec_directions(self) -> Seq<(i32, i32, bool)> {
        match self {
            PieceType::King => seq![
                (-1i32, 1i32, false),
                (0i32, 1i32, false),
                (1i32, 0i32, false),
                (1i32, 1i32, false),
                (-1i32, 0i32, false),
                (-1i32, -1i32, false),
                (0i32, -1i32, false),
                (1i32, -1i32, false),
            ],
            PieceType::Queen => seq![
                (-1i32, 1i32, true),
                (0i32, 1i32, true),
                (1i32, 0i32, true),
                (1i32, 1i32, true),
                (-1i32, 0i32, true),
                (-1i32, -1i32, true),
                (0i32, -1i32, true),
                (1i32, -1i32, true),
            ],
            PieceType::Bishop => seq![(-1i32, 1i32, true), (1i32, 1i32, true), (-1i32, -1i32, true), (1i32, -1i32, true)],
            PieceType::Knight => seq![
                (-1i32, 2i32, false),
                (1i32, 2i32, false),
                (2i32, 1i32, false),
                (2i32, -1i32, false),
                (-1i32, -2i32, false),
                (1i32, -2i32, false),
                (-2i32, 1i32, false),
                (-2i32, -1i32, false),
            ],
            PieceType::Rook => seq![(-1i32, 0i32, true), (1i32, 0i32, true), (0i32, -1i32, true), (0i32, 1i32, true)],
            PieceType::Pawn => seq![(0i32, 1i32, false), (0i32, 2i32, false), (-1i32, 1i32, false), (1i32, 1i32, false)],
        }
    }

    /// The movement geometry of this kind as a vector; see `spec_directions`.
    pub fn directions(&self) -> (r: Vec<(i32, i32, bool)>)
        ensures
            r@ == self.spec_directions(),
    {
        match *self {
            PieceType::King => vec![
                (-1, 1, false),
                (0, 1, false),
                (1, 0, false),
                (1, 1, false),
                (-1, 0, false),
                (-1, -1, false),
                (0, -1, false),
                (1, -1, false),
            ],
            PieceType::Queen => vec![
                (-1, 1, true),
                (0, 1, true),
                (1, 0, true),
                (1, 1, true),
                (-1, 0, true),
                (-1, -1, true),
                (0, -1, true),
                (1, -1, true),
            ],
            PieceType::Bishop => vec![(-1, 1, true), (1, 1, true), (-1, -1, true), (1, -1, true)],
            PieceType::Knight => vec![
                (-1, 2, false),
                (1, 2, false),
                (2, 1, false),
                (2, -1, false),
                (-1, -2, false),
                (1, -2, false),
                (-2, 1, false),
                (-2, -1, false),
            ],
            PieceType::Rook => vec![(-1, 0, true), (1, 0, true), (0, -1, true), (0, 1, true)],
            PieceType::Pawn => vec![(0, 1, false), (0, 2, false), (-1, 1, false), (1, 1, false)],
        }
    }
}

} // verus!
