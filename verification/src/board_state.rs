//! Static board state: orientation, the legal-move list and the highlight
//! hints (check square, last move, side to move). The legal-move list is
//! taken verbatim from the host's rules engine; this module only consults it.

use vstd::prelude::*;

use crate::square::{Color, Move, Role, Square};

verus! {

/// Some legal move goes from `orig` to `dest`.
pub open spec fn has_move(legals: Seq<Move>, orig: Square, dest: Square) -> bool {
    exists|i: int| 0 <= i < legals.len() && legals[i].from == orig && legals[i].to == dest
}

/// Some legal move goes from `orig` to `dest` and carries a promotion role.
pub open spec fn has_promotion(legals: Seq<Move>, orig: Square, dest: Square) -> bool {
    exists|i: int|
        0 <= i < legals.len() && legals[i].from == orig && legals[i].to == dest
            && legals[i].promotion is Some
}

/// The exact move is legal.
pub open spec fn has_exact_move(
    legals: Seq<Move>,
    orig: Square,
    dest: Square,
    promotion: Option<Role>,
) -> bool {
    exists|i: int|
        0 <= i < legals.len() && legals[i] == (Move { from: orig, to: dest, promotion })
}

/// Whether some legal move goes from `orig` to `dest`.
pub fn any_move(legals: &Vec<Move>, orig: Square, dest: Square) -> (b: bool)
    ensures
        b == has_move(legals@, orig, dest),
{
    let mut i: usize = 0;
    while i < legals.len()
        invariant
            i <= legals@.len(),
            forall|j: int|
                0 <= j < i ==> !(legals@[j].from == orig && legals@[j].to == dest),
        decreases legals@.len() - i,
    {
        if legals[i].from == orig && legals[i].to == dest {
            return true;
        }
        i = i + 1;
    }
    false
}

/// Whether some legal move from `orig` to `dest` carries a promotion role.
pub fn any_promotion(legals: &Vec<Move>, orig: Square, dest: Square) -> (b: bool)
    ensures
        b == has_promotion(legals@, orig, dest),
{
    let mut i: usize = 0;
    while i < legals.len()
        invariant
            i <= legals@.len(),
            forall|j: int|
                0 <= j < i ==> !(legals@[j].from == orig && legals@[j].to == dest
                    && legals@[j].promotion is Some),
        decreases legals@.len() - i,
    {
        if legals[i].from == orig && legals[i].to == dest && legals[i].promotion.is_some() {
            return true;
        }
        i = i + 1;
    }
    false
}

/// Whether the exact move is in the legal-move list.
pub fn exact_move(legals: &Vec<Move>, orig: Square, dest: Square, promotion: Option<Role>) -> (b:
    bool)
    ensures
        b == has_exact_move(legals@, orig, dest, promotion),
{
    let mut i: usize = 0;
    while i < legals.len()
        invariant
            i <= legals@.len(),
            forall|j: int|
                0 <= j < i ==> legals@[j] != (Move { from: orig, to: dest, promotion }),
        decreases legals@.len() - i,
    {
        if legals[i].from == orig && legals[i].to == dest && legals[i].promotion == promotion {
            return true;
        }
        i = i + 1;
    }
    false
}

/// Orientation, highlights and the legal-move list of the current position.
#[derive(Clone, Debug)]
pub struct BoardState {
    pub orientation: Color,
    pub check: Option<Square>,
    pub last_move: Option<(Square, Square)>,
    pub turn: Option<Color>,
    pub legals: Vec<Move>,
}

impl BoardState {
    /// A fresh state oriented for White, with no hints and no legal moves.
    pub fn new() -> (s: BoardState)
        ensures
            s.orientation == Color::White,
            s.check is None,
            s.last_move is None,
            s.turn is None,
            s.legals@ == Seq::<Move>::empty(),
    {
        BoardState {
            orientation: Color::White,
            check: None,
            last_move: None,
            turn: None,
            legals: Vec::new(),
        }
    }

    pub fn set_last_move(&mut self, m: Option<(Square, Square)>)
        ensures
            *final(self) == (BoardState { last_move: m, ..*old(self) }),
    {
        self.last_move = m;
    }

    pub fn set_check(&mut self, king: Option<Square>)
        ensures
            *final(self) == (BoardState { check: king, ..*old(self) }),
    {
        self.check = king;
    }

    pub fn set_turn(&mut self, turn: Option<Color>)
        ensures
            *final(self) == (BoardState { turn, ..*old(self) }),
    {
        self.turn = turn;
    }

    pub fn turn(&self) -> (t: Option<Color>)
        ensures
            t == self.turn,
    {
        self.turn
    }

    pub fn set_orientation(&mut self, orientation: Color)
        ensures
            *final(self) == (BoardState { orientation, ..*old(self) }),
    {
        self.orientation = orientation;
    }

    pub fn orientation(&self) -> (o: Color)
        ensures
            o == self.orientation,
    {
        self.orientation
    }

    /// Replace the legal-move list.
    pub fn set_legals(&mut self, legals: Vec<Move>)
        ensures
            final(self).legals == legals,
            *final(self) == (BoardState { legals, ..*old(self) }),
    {
        self.legals = legals;
    }

    pub fn legals(&self) -> (r: &Vec<Move>)
        ensures
            r == &self.legals,
    {
        &self.legals
    }

    /// The distinct destination squares of legal moves leaving `orig`, in
    /// first-occurrence order.
    pub fn move_targets(&self, orig: Square) -> (targets: Vec<Square>)
        ensures
            forall|sq: Square| #[trigger]
                targets@.contains(sq) == has_move(self.legals@, orig, sq),
            forall|i: int, j: int|
                0 <= i < j < targets@.len() ==> targets@[i] != targets@[j],
    {
        let mut targets: Vec<Square> = Vec::new();
        let mut i: usize = 0;
        while i < self.legals.len()
            invariant
                i <= self.legals@.len(),
                forall|sq: Square| #[trigger]
                    targets@.contains(sq) == has_move(self.legals@.subrange(0, i as int), orig, sq),
                forall|k: int, j: int|
                    0 <= k < j < targets@.len() ==> targets@[k] != targets@[j],
            decreases self.legals@.len() - i,
        {
            let ghost pre = targets@;
            let ghost prefix = self.legals@.subrange(0, i as int);
            let m = self.legals[i];
            if m.from == orig && !contains_square(&targets, m.to) {
                targets.push(m.to);
            }
            proof {
                assert(self.legals@.subrange(0, i + 1) =~= prefix.push(self.legals@[i as int]));
                assert forall|sq: Square| #[trigger]
                    targets@.contains(sq) == has_move(
                        self.legals@.subrange(0, i + 1),
                        orig,
                        sq,
                    ) by {
                    let next = self.legals@.subrange(0, i + 1);
                    if targets@.contains(sq) {
                        let k = choose|k: int| 0 <= k < targets@.len() && targets@[k] == sq;
                        if k < pre.len() {
                            assert(pre.contains(sq));
                            let j = choose|j: int|
                                0 <= j < prefix.len() && prefix[j].from == orig && prefix[j].to
                                    == sq;
                            assert(next[j].from == orig && next[j].to == sq);
                        } else {
                            assert(sq == self.legals@[i as int].to);
                            assert(next[i as int].from == orig && next[i as int].to == sq);
                        }
                    }
                    if has_move(next, orig, sq) {
                        let j = choose|j: int|
                            0 <= j < next.len() && next[j].from == orig && next[j].to == sq;
                        if j < i {
                            assert(prefix[j].from == orig && prefix[j].to == sq);
                            assert(pre.contains(sq));
                            let k = choose|k: int| 0 <= k < pre.len() && pre[k] == sq;
                            assert(targets@[k] == sq);
                        } else {
                            assert(sq == m.to);
                            if !pre.contains(sq) {
                                assert(targets@[targets@.len() - 1] == sq);
                            } else {
                                let k = choose|k: int| 0 <= k < pre.len() && pre[k] == sq;
                                assert(targets@[k] == sq);
                            }
                        }
                    }
                }
            }
            i = i + 1;
        }
        proof {
            assert(self.legals@.subrange(0, self.legals@.len() as int) =~= self.legals@);
        }
        targets
    }

    /// Whether some legal move goes from `orig` to `dest`.
    pub fn valid_move(&self, orig: Square, dest: Square) -> (b: bool)
        ensures
            b == has_move(self.legals@, orig, dest),
    {
        any_move(&self.legals, orig, dest)
    }

    /// Whether the exact move, promotion role included, is legal.
    pub fn legal_move(&self, orig: Square, dest: Square, promotion: Option<Role>) -> (b: bool)
        ensures
            b == has_exact_move(self.legals@, orig, dest, promotion),
    {
        exact_move(&self.legals, orig, dest, promotion)
    }
}

/// Whether a square list contains a square.
pub fn contains_square(squares: &Vec<Square>, sq: Square) -> (b: bool)
    ensures
        b == squares@.contains(sq),
{
    let mut i: usize = 0;
    while i < squares.len()
        invariant
            i <= squares@.len(),
            forall|j: int| 0 <= j < i ==> squares@[j] != sq,
        decreases squares@.len() - i,
    {
        if squares[i] == sq {
            assert(squares@[i as int] == sq);
            return true;
        }
        i = i + 1;
    }
    false
}

} // verus!
