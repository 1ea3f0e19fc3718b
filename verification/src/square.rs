//! Squares, colors, roles and pieces: the plain chess values the widget
//! renders and reacts to. Chess semantics (legality, check) are supplied by
//! the host; these types only carry its answers.

use vstd::prelude::*;

verus! {

/// Side color, also used for board orientation.
#[derive(Clone, Copy, Debug, PartialEq, Eq, Structural, Hash)]
pub enum Color {
    White,
    Black,
}

impl Color {
    /// The opposite color.
    pub fn other(self) -> (r: Color)
        ensures
            r == self.flip(),
    {
        match self {
            Color::White => Color::Black,
            Color::Black => Color::White,
        }
    }

    pub open spec fn flip(self) -> Color {
        match self {
            Color::White => Color::Black,
            Color::Black => Color::White,
        }
    }
}

/// Piece kind.
#[derive(Clone, Copy, Debug, PartialEq, Eq, Structural, Hash)]
pub enum Role {
    Pawn,
    Knight,
    Bishop,
    Rook,
    Queen,
    King,
}

/// A piece: role and color.
#[derive(Clone, Copy, Debug, PartialEq, Eq, Structural, Hash)]
pub struct Piece {
    pub color: Color,
    pub role: Role,
}

/// A board square: file 0..8 (a..h) and rank 0..8 (1..8).
#[derive(Clone, Copy, Debug, PartialEq, Eq, Structural, Hash)]
pub struct Square {
    pub file: u8,
    pub rank: u8,
}

impl Square {
    /// Both coordinates on the board.
    pub open spec fn wf(self) -> bool {
        self.file < 8 && self.rank < 8
    }

    /// Index in square order a1, b1, ..., h8.
    pub open spec fn index(self) -> int {
        self.file + 8 * self.rank
    }

    pub fn new(file: u8, rank: u8) -> (sq: Square)
        requires
            file < 8,
            rank < 8,
        ensures
            sq == (Square { file, rank }),
            sq.wf(),
    {
        Square { file, rank }
    }

    /// Chebyshev (king-move) distance between two squares, the metric of the
    /// animation match heuristic.
    pub open spec fn distance_spec(self, other: Square) -> int {
        let df = if self.file >= other.file {
            self.file - other.file
        } else {
            other.file - self.file
        };
        let dr = if self.rank >= other.rank {
            self.rank - other.rank
        } else {
            other.rank - self.rank
        };
        if df >= dr {
            df
        } else {
            dr
        }
    }

    pub fn distance(self, other: Square) -> (d: u8)
        ensures
            d == self.distance_spec(other),
    {
        let df: u8 = if self.file >= other.file {
            self.file - other.file
        } else {
            other.file - self.file
        };
        let dr: u8 = if self.rank >= other.rank {
            self.rank - other.rank
        } else {
            other.rank - self.rank
        };
        if df >= dr {
            df
        } else {
            dr
        }
    }
}

/// The square with a given index in square order a1, b1, ..., h8.
pub open spec fn square_of_index(idx: int) -> Square {
    Square { file: (idx % 8) as u8, rank: (idx / 8) as u8 }
}

/// A candidate or legal move: origin, destination and an optional promotion
/// role, exactly as the host's legal-move list carries them.
#[derive(Clone, Copy, Debug, PartialEq, Eq, Structural, Hash)]
pub struct Move {
    pub from: Square,
    pub to: Square,
    pub promotion: Option<Role>,
}

} // verus!
