//! The vocabulary of the game: sides, piece kinds, and square contents.

use vstd::prelude::*;

verus! {

/// The two sides of a chess game.
#[derive(Clone, Copy, PartialEq, Eq, Structural, Debug)]
pub enum Color {
    White,
    Black,
}

/// The six kinds of chess pieces.
#[derive(Clone, Copy, PartialEq, Eq, Structural, Debug)]
pub enum PieceKind {
    King,
    Queen,
    Rook,
    Bishop,
    Knight,
    Pawn,
}

/// The contents of one board square: empty, or a piece of some color.
#[derive(Clone, Copy, PartialEq, Eq, Structural, Debug)]
pub enum Piece {
    Empty,
    Occupied(Color, PieceKind),
}

impl Color {
    /// The opposing side.
    pub open spec fn spec_opposite(self) -> Color {
        match self {
            Color::White => Color::Black,
            Color::Black => Color::White,
        }
    }

    #[verifier::when_used_as_spec(spec_opposite)]
    pub fn opposite(self) -> (r: Color)
        ensures
            r == self.spec_opposite(),
    {
        match self {
            Color::White => Color::Black,
            Color::Black => Color::White,
        }
    }
}

impl Piece {
    /// The color of the piece on the square, if any.
    pub open spec fn spec_color(self) -> Option<Color> {
        match self {
            Piece::Empty => None,
            Piece::Occupied(c, _) => Some(c),
        }
    }

    #[verifier::when_used_as_spec(spec_color)]
    pub fn color(self) -> (r: Option<Color>)
        ensures
            r == self.spec_color(),
    {
        match self {
            Piece::Empty => None,
            Piece::Occupied(c, _) => Some(c),
        }
    }

    /// The kind of the piece on the square, if any.
    pub open spec fn spec_kind(self) -> Option<PieceKind> {
        match self {
            Piece::Empty => None,
            Piece::Occupied(_, k) => Some(k),
        }
    }

    #[verifier::when_used_as_spec(spec_kind)]
    pub fn kind(self) -> (r: Option<PieceKind>)
        ensures
            r == self.spec_kind(),
    {
        match self {
            Piece::Empty => None,
            Piece::Occupied(_, k) => Some(k),
        }
    }

    /// Whether the square holds a piece of color `c`.
    pub open spec fn spec_has_color(self, c: Color) -> bool {
        self.spec_color() == Some(c)
    }

    #[verifier::when_used_as_spec(spec_has_color)]
    pub fn has_color(self, c: Color) -> (r: bool)
        ensures
            r == self.spec_has_color(c),
    {
        self.color() == Some(c)
    }
}

} // verus!
