//! The piece placement: which piece, if any, stands on each square. The
//! placement is a plain value handed in by the host whenever the position
//! changes; the widget never mutates chess state on its own.

use vstd::prelude::*;

use crate::square::{Color, Piece, Role, Square};

verus! {

/// A full piece placement, one optional piece per square, indexed in square
/// order a1, b1, ..., h8.
#[derive(Clone, Debug)]
pub struct Board {
    squares: Vec<Option<Piece>>,
}

/// The back-rank role of the starting position at a file.
pub open spec fn starting_rank_role(file: int) -> Role {
    if file == 0 || file == 7 {
        Role::Rook
    } else if file == 1 || file == 6 {
        Role::Knight
    } else if file == 2 || file == 5 {
        Role::Bishop
    } else if file == 3 {
        Role::Queen
    } else {
        Role::King
    }
}

/// The occupant of a square index in the standard starting position.
pub open spec fn starting_piece(idx: int) -> Option<Piece> {
    let file = idx % 8;
    let rank = idx / 8;
    if rank == 0 {
        Some(Piece { color: Color::White, role: starting_rank_role(file) })
    } else if rank == 1 {
        Some(Piece { color: Color::White, role: Role::Pawn })
    } else if rank == 6 {
        Some(Piece { color: Color::Black, role: Role::Pawn })
    } else if rank == 7 {
        Some(Piece { color: Color::Black, role: starting_rank_role(file) })
    } else {
        None
    }
}

/// The standard starting placement as a sequence.
pub open spec fn starting_board() -> Seq<Option<Piece>> {
    Seq::new(64, |i: int| starting_piece(i))
}

impl View for Board {
    type V = Seq<Option<Piece>>;

    closed spec fn view(&self) -> Seq<Option<Piece>> {
        self.squares@
    }
}

impl Board {
    /// Sixty-four squares.
    pub open spec fn wf(self) -> bool {
        self@.len() == 64
    }

    /// The occupant of a square.
    pub open spec fn piece_on(self, sq: Square) -> Option<Piece> {
        self@[sq.index()]
    }

    /// An empty board.
    pub fn empty() -> (b: Board)
        ensures
            b.wf(),
            forall|i: int| 0 <= i < 64 ==> b@[i] is None,
    {
        let mut squares: Vec<Option<Piece>> = Vec::new();
        let mut i: usize = 0;
        while i < 64
            invariant
                i <= 64,
                squares@.len() == i,
                forall|j: int| 0 <= j < i ==> squares@[j] is None,
            decreases 64 - i,
        {
            squares.push(None);
            i = i + 1;
        }
        Board { squares }
    }

    /// The standard starting position.
    pub fn starting() -> (b: Board)
        ensures
            b.wf(),
            b@ == starting_board(),
            forall|i: int| 0 <= i < 64 ==> b@[i] == starting_piece(i),
    {
        let mut squares: Vec<Option<Piece>> = Vec::new();
        let mut i: usize = 0;
        while i < 64
            invariant
                i <= 64,
                squares@.len() == i,
                forall|j: int| 0 <= j < i ==> squares@[j] == starting_piece(j),
            decreases 64 - i,
        {
            let file: usize = i % 8;
            let rank: usize = i / 8;
            let back: Role = if file == 0 || file == 7 {
                Role::Rook
            } else if file == 1 || file == 6 {
                Role::Knight
            } else if file == 2 || file == 5 {
                Role::Bishop
            } else if file == 3 {
                Role::Queen
            } else {
                Role::King
            };
            let piece: Option<Piece> = if rank == 0 {
                Some(Piece { color: Color::White, role: back })
            } else if rank == 1 {
                Some(Piece { color: Color::White, role: Role::Pawn })
            } else if rank == 6 {
                Some(Piece { color: Color::Black, role: Role::Pawn })
            } else if rank == 7 {
                Some(Piece { color: Color::Black, role: back })
            } else {
                None
            };
            squares.push(piece);
            i = i + 1;
        }
        proof {
            assert(squares@ =~= starting_board());
        }
        Board { squares }
    }

    /// The occupant of a square.
    pub fn piece_at(&self, sq: Square) -> (r: Option<Piece>)
        requires
            self.wf(),
            sq.wf(),
        ensures
            r == self.piece_on(sq),
    {
        self.squares[(sq.file as usize) + 8 * (sq.rank as usize)]
    }

    /// Put a piece on a square, or clear it.
    pub fn set_piece_at(&mut self, sq: Square, piece: Option<Piece>)
        requires
            old(self).wf(),
            sq.wf(),
        ensures
            final(self)@ == old(self)@.update(sq.index(), piece),
            final(self).wf(),
    {
        self.squares[(sq.file as usize) + 8 * (sq.rank as usize)] = piece;
    }
}

} // verus!
