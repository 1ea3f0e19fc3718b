//! The promotion chooser: when a candidate move needs a promotion role,
//! a radial menu of the actually-legal roles opens at the destination
//! square, stacked from there toward the board edge the pawn promotes away
//! from. Picking a cell emits the fully specified move; clicking anywhere
//! else cancels and glides the piece back to its origin.

use vstd::prelude::*;

use crate::board_state::{any_promotion, exact_move, has_exact_move, has_promotion};
use crate::geom::{square_rect_spec, square_to_pos, BoardRect};
use crate::pieces::{live_at, live_index, Figurine, Pieces};
use crate::square::{Color, Move, Role, Square};

verus! {

/// The hover entrance animation runs this many milliseconds.
pub const HOVER_MS: u64 = 1000;

/// The hovered chooser cell with its entrance-animation clock.
#[derive(Clone, Copy, Debug)]
pub struct Hover {
    pub square: Square,
    /// When the hover began, host milliseconds.
    pub since: u64,
    /// Entrance progress, per mille.
    pub elapsed: u32,
}

/// An active promotion choice.
#[derive(Clone, Copy, Debug)]
pub struct Promoting {
    /// Color of the promoting pawn.
    pub color: Color,
    pub orig: Square,
    pub dest: Square,
    pub hover: Option<Hover>,
}

impl Promoting {
    pub open spec fn wf(self) -> bool {
        &&& self.orig.wf()
        &&& self.dest.wf()
        &&& match self.hover {
            Some(h) => h.square.wf() && h.elapsed <= 1000,
            None => true,
        }
    }

    pub open spec fn times_le(self, now: u64) -> bool {
        match self.hover {
            Some(h) => h.since <= now,
            None => true,
        }
    }
}

/// The side a promotion on `dest` belongs to, by board half: chooser cells
/// stack away from the promotion rank so they never leave the board.
pub open spec fn promote_side(dest: Square) -> Color {
    if dest.rank >= 4 {
        Color::White
    } else {
        Color::Black
    }
}

/// The rank of chooser cell `k`, counting from the destination square
/// toward the middle of the board.
pub open spec fn cell_rank(dest: Square, k: int) -> int {
    if promote_side(dest) == Color::White {
        dest.rank - k
    } else {
        dest.rank + k
    }
}

/// The chooser's roles for a move, in the fixed order queen, rook, bishop,
/// knight, king, pawn, keeping exactly the roles the legal-move list
/// offers for this origin and destination.
pub open spec fn promotion_roles(legals: Seq<Move>, orig: Square, dest: Square) -> Seq<Role> {
    let s0 = Seq::<Role>::empty();
    let s1 = if has_exact_move(legals, orig, dest, Some(Role::Queen)) {
        s0.push(Role::Queen)
    } else {
        s0
    };
    let s2 = if has_exact_move(legals, orig, dest, Some(Role::Rook)) {
        s1.push(Role::Rook)
    } else {
        s1
    };
    let s3 = if has_exact_move(legals, orig, dest, Some(Role::Bishop)) {
        s2.push(Role::Bishop)
    } else {
        s2
    };
    let s4 = if has_exact_move(legals, orig, dest, Some(Role::Knight)) {
        s3.push(Role::Knight)
    } else {
        s3
    };
    let s5 = if has_exact_move(legals, orig, dest, Some(Role::King)) {
        s4.push(Role::King)
    } else {
        s4
    };
    if has_exact_move(legals, orig, dest, Some(Role::Pawn)) {
        s5.push(Role::Pawn)
    } else {
        s5
    }
}

/// The role of the chooser cell a click landed on, scanning the stacked
/// cells from the destination square outward; None if the click is on the
/// destination file but outside every cell.
pub open spec fn cell_hit_from(roles: Seq<Role>, dest: Square, sq: Square, k: int) -> Option<
    Role,
>
    decreases roles.len() - k,
{
    if k < 0 || k >= roles.len() {
        None
    } else if sq.rank == cell_rank(dest, k) {
        Some(roles[k])
    } else {
        cell_hit_from(roles, dest, sq, k + 1)
    }
}

/// The role picked by a click: the clicked square must share the
/// destination's file and lie on one of the stacked cells.
pub open spec fn cell_hit(roles: Seq<Role>, dest: Square, sq: Square) -> Option<Role> {
    if sq.file == dest.file {
        cell_hit_from(roles, dest, sq, 0)
    } else {
        None
    }
}

/// The chooser's roles for a move, as a vector.
pub fn promotion_roles_vec(legals: &Vec<Move>, orig: Square, dest: Square) -> (roles: Vec<Role>)
    ensures
        roles@ == promotion_roles(legals@, orig, dest),
        forall|k: int|
            0 <= k < roles@.len() ==> has_exact_move(legals@, orig, dest, Some(#[trigger] roles@[k])),
        roles@.len() <= 6,
{
    let mut roles: Vec<Role> = Vec::new();
    if exact_move(legals, orig, dest, Some(Role::Queen)) {
        roles.push(Role::Queen);
    }
    if exact_move(legals, orig, dest, Some(Role::Rook)) {
        roles.push(Role::Rook);
    }
    if exact_move(legals, orig, dest, Some(Role::Bishop)) {
        roles.push(Role::Bishop);
    }
    if exact_move(legals, orig, dest, Some(Role::Knight)) {
        roles.push(Role::Knight);
    }
    if exact_move(legals, orig, dest, Some(Role::King)) {
        roles.push(Role::King);
    }
    if exact_move(legals, orig, dest, Some(Role::Pawn)) {
        roles.push(Role::Pawn);
    }
    roles
}

/// Stepping the cell scan over cells the click missed changes nothing.
proof fn lemma_cell_hit_step(roles: Seq<Role>, dest: Square, sq: Square, k: int)
    requires
        0 <= k <= roles.len(),
        forall|kk: int| 0 <= kk < k ==> sq.rank != cell_rank(dest, kk),
    ensures
        cell_hit_from(roles, dest, sq, 0) == cell_hit_from(roles, dest, sq, k),
    decreases k,
{
    if k > 0 {
        lemma_cell_hit_step(roles, dest, sq, k - 1);
    }
}

/// The radius of a hovered chooser cell in milli board units: it eases
/// from half a square to the half diagonal (707 milli) over the one-second
/// entrance.
pub fn hover_radius(elapsed: u32) -> (r: i64)
    ensures
        r == crate::geom::ease_spec(500, 707, elapsed as int),
        elapsed == 0 ==> r == 500,
        elapsed >= 1000 ==> r == 707,
{
    proof {
        crate::geom::lemma_ease_range(500, 707, elapsed as int);
    }
    crate::geom::ease(500, 707, elapsed)
}

/// The fill color of a hovered chooser cell, per-mille RGB: it eases from
/// neutral gray to highlight orange over the entrance.
pub fn hover_color(elapsed: u32) -> (rgb: (i64, i64, i64))
    ensures
        rgb.0 == crate::geom::ease_spec(690, 1000, elapsed as int),
        rgb.1 == crate::geom::ease_spec(690, 650, elapsed as int),
        rgb.2 == crate::geom::ease_spec(690, 0, elapsed as int),
{
    (
        crate::geom::ease(690, 1000, elapsed),
        crate::geom::ease(690, 650, elapsed),
        crate::geom::ease(690, 0, elapsed),
    )
}

/// The in-board promotion chooser.
#[derive(Clone, Copy, Debug)]
pub struct Promotable {
    pub promoting: Option<Promoting>,
}

impl Promotable {
    pub open spec fn wf(self) -> bool {
        match self.promoting {
            Some(p) => p.wf(),
            None => true,
        }
    }

    pub open spec fn times_le(self, now: u64) -> bool {
        match self.promoting {
            Some(p) => p.times_le(now),
            None => true,
        }
    }

    /// An idle chooser.
    pub fn new() -> (r: Promotable)
        ensures
            r.promoting is None,
            r.wf(),
    {
        Promotable { promoting: None }
    }

    /// Open the chooser for a move, with the destination cell hovered.
    pub fn start(&mut self, color: Color, orig: Square, dest: Square, now: u64)
        requires
            orig.wf(),
            dest.wf(),
        ensures
            *final(self) == (Promotable {
                promoting: Some(
                    Promoting {
                        color,
                        orig,
                        dest,
                        hover: Some(Hover { square: dest, since: now, elapsed: 0 }),
                    },
                ),
            }),
            final(self).wf(),
    {
        self.promoting = Some(
            Promoting {
                color,
                orig,
                dest,
                hover: Some(Hover { square: dest, since: now, elapsed: 0 }),
            },
        );
    }

    /// Drop any pending choice.
    pub fn cancel(&mut self)
        ensures
            final(self).promoting is None,
            final(self).wf(),
    {
        self.promoting = None;
    }

    /// Force-cancel a pending choice that the new legal-move list no longer
    /// supports (the host replaced or rejected the position).
    pub fn update(&mut self, legals: &Vec<Move>)
        requires
            old(self).wf(),
        ensures
            final(self).wf(),
            final(self).promoting == (match old(self).promoting {
                Some(p) => if has_promotion(legals@, p.orig, p.dest) {
                    Some(p)
                } else {
                    None::<Promoting>
                },
                None => None::<Promoting>,
            }),
            forall|now: u64| old(self).times_le(now) ==> final(self).times_le(now),
    {
        let p = match self.promoting {
            Some(p) => p,
            None => { return ; },
        };
        if !any_promotion(legals, p.orig, p.dest) {
            self.promoting = None;
        }
    }

    /// Whether a pending choice anchors at this origin square (its figurine
    /// is hidden while the chooser substitutes for it).
    pub fn is_promoting(&self, orig: Square) -> (b: bool)
        ensures
            b == match self.promoting {
                Some(p) => p.orig == orig,
                None => false,
            },
    {
        match self.promoting {
            Some(p) => p.orig == orig,
            None => false,
        }
    }

    /// Advance the hover entrance animation to `now`; returns the hovered
    /// cell to redraw while the entrance is still running.
    pub fn queue_animation(&mut self, now: u64) -> (inval: Option<BoardRect>)
        requires
            old(self).wf(),
            old(self).times_le(now),
        ensures
            final(self).wf(),
            final(self).times_le(now),
            match old(self).promoting {
                Some(p) => match p.hover {
                    Some(h) => final(self).promoting == Some(
                        Promoting {
                            hover: Some(
                                Hover {
                                    elapsed: if now - h.since >= HOVER_MS {
                                        1000
                                    } else {
                                        (now - h.since) as u32
                                    },
                                    ..h
                                },
                            ),
                            ..p
                        },
                    ) && inval == (if h.elapsed < 1000 {
                        Some(square_rect_spec(h.square))
                    } else {
                        None::<BoardRect>
                    }),
                    None => *final(self) == *old(self) && inval is None,
                },
                None => *final(self) == *old(self) && inval is None,
            },
    {
        let p = match self.promoting {
            Some(p) => p,
            None => { return None; },
        };
        let h = match p.hover {
            Some(h) => h,
            None => { return None; },
        };
        let d: u64 = now - h.since;
        let elapsed: u32 = if d >= HOVER_MS {
            1000
        } else {
            d as u32
        };
        self.promoting = Some(Promoting { hover: Some(Hover { elapsed, ..h }), ..p });
        if h.elapsed < 1000 {
            Some(crate::geom::square_rect(h.square))
        } else {
            None
        }
    }

    /// Track pointer motion while choosing: a square on the destination
    /// file becomes the hovered cell with a fresh entrance clock; anything
    /// else clears the hover. Returns the cells to redraw (old and new
    /// hover) when the hover changed.
    pub fn mouse_move(&mut self, square: Option<Square>, now: u64) -> (redraw: Option<
        (Option<Square>, Option<Square>),
    >)
        requires
            old(self).wf(),
            match square {
                Some(sq) => sq.wf(),
                None => true,
            },
        ensures
            final(self).wf(),
            forall|n2: u64|
                old(self).times_le(n2) && now <= n2 ==> final(self).times_le(n2),
            match old(self).promoting {
                None => *final(self) == *old(self) && redraw is None,
                Some(p) => {
                    let on_file = match square {
                        Some(sq) => if sq.file == p.dest.file {
                            Some(sq)
                        } else {
                            None::<Square>
                        },
                        None => None::<Square>,
                    };
                    let prev = match p.hover {
                        Some(h) => Some(h.square),
                        None => None::<Square>,
                    };
                    if on_file == prev {
                        *final(self) == *old(self) && redraw is None
                    } else {
                        final(self).promoting == Some(
                            Promoting {
                                hover: match on_file {
                                    Some(sq) => Some(
                                        Hover { square: sq, since: now, elapsed: 0 },
                                    ),
                                    None => None::<Hover>,
                                },
                                ..p
                            },
                        ) && redraw == Some((prev, on_file))
                    }
                },
            },
    {
        let p = match self.promoting {
            Some(p) => p,
            None => { return None; },
        };
        let on_file = match square {
            Some(sq) => if sq.file == p.dest.file {
                Some(sq)
            } else {
                None
            },
            None => None,
        };
        let prev = match p.hover {
            Some(h) => Some(h.square),
            None => None,
        };
        if on_file == prev {
            return None;
        }
        self.promoting = Some(
            Promoting {
                hover: match on_file {
                    Some(sq) => Some(Hover { square: sq, since: now, elapsed: 0 }),
                    None => None,
                },
                ..p
            },
        );
        Some((prev, on_file))
    }

    /// Handle a button press while a choice is pending. The chooser always
    /// closes and the promoting piece's figurine glides back toward its own
    /// square from the destination. A click on a stacked cell resolves to
    /// the cell's role and consumes the press; any other click cancels and
    /// lets the press fall through.
    pub fn mouse_down(
        &mut self,
        pieces: &mut Pieces,
        square: Option<Square>,
        legals: &Vec<Move>,
        now: u64,
    ) -> (r: (bool, Option<(Square, Square, Role)>))
        requires
            old(self).wf(),
            old(pieces).wf(),
        ensures
            final(self).promoting is None,
            final(self).wf(),
            final(pieces).wf(),
            final(pieces).selected == old(pieces).selected,
            final(pieces).drag == old(pieces).drag,
            final(pieces).past == old(pieces).past,
            forall|n2: u64|
                old(pieces).times_le(n2) && now <= n2 ==> final(pieces).times_le(n2),
            match old(self).promoting {
                None => r == (false, None::<(Square, Square, Role)>) && *final(pieces) == *old(
                    pieces,
                ),
                Some(p) => {
                    let hit = match square {
                        Some(sq) => cell_hit(promotion_roles(legals@, p.orig, p.dest), p.dest, sq),
                        None => None::<Role>,
                    };
                    &&& (if live_at(old(pieces).figurines@, p.orig) {
                        final(pieces).figurines@ == old(pieces).figurines@.update(
                            live_index(old(pieces).figurines@, p.orig),
                            Figurine {
                                start: crate::geom::square_center(p.dest),
                                elapsed: 0,
                                time: now,
                                ..old(pieces).figurines@[live_index(
                                    old(pieces).figurines@,
                                    p.orig,
                                )]
                            },
                        )
                    } else {
                        *final(pieces) == *old(pieces)
                    })
                    &&& r == (match hit {
                        Some(role) => (true, Some((p.orig, p.dest, role))),
                        None => (false, None::<(Square, Square, Role)>),
                    })
                    &&& (r.1 matches Some((o, d, role)) ==> has_exact_move(
                        legals@,
                        o,
                        d,
                        Some(role),
                    ))
                },
            },
    {
        let p = match self.promoting {
            Some(p) => p,
            None => { return (false, None); },
        };
        self.promoting = None;
        // glide the promoting piece back onto the board from the chooser
        pieces.figurine_set_pos(p.orig, square_to_pos(p.dest), now);
        let sq = match square {
            Some(sq) => sq,
            None => { return (false, None); },
        };
        if sq.file != p.dest.file {
            return (false, None);
        }
        let roles = promotion_roles_vec(legals, p.orig, p.dest);
        let side_white: bool = p.dest.rank >= 4;
        let mut k: usize = 0;
        while k < roles.len()
            invariant
                k <= roles@.len(),
                roles@ == promotion_roles(legals@, p.orig, p.dest),
                forall|j: int|
                    0 <= j < roles@.len() ==> has_exact_move(
                        legals@,
                        p.orig,
                        p.dest,
                        Some(#[trigger] roles@[j]),
                    ),
                side_white == (promote_side(p.dest) == Color::White),
                square == Some(sq),
                sq.file == p.dest.file,
                forall|kk: int| 0 <= kk < k ==> sq.rank != cell_rank(p.dest, kk),
                self.promoting is None,
                old(self).promoting == Some(p),
                pieces.wf(),
                pieces.selected == old(pieces).selected,
                pieces.drag == old(pieces).drag,
                pieces.past == old(pieces).past,
                forall|n2: u64|
                    old(pieces).times_le(n2) && now <= n2 ==> pieces.times_le(n2),
                if live_at(old(pieces).figurines@, p.orig) {
                    pieces.figurines@ == old(pieces).figurines@.update(
                        live_index(old(pieces).figurines@, p.orig),
                        Figurine {
                            start: crate::geom::square_center(p.dest),
                            elapsed: 0,
                            time: now,
                            ..old(pieces).figurines@[live_index(old(pieces).figurines@, p.orig)]
                        },
                    )
                } else {
                    *pieces == *old(pieces)
                },
            decreases roles@.len() - k,
        {
            let r: i32 = if side_white {
                p.dest.rank as i32 - k as i32
            } else {
                p.dest.rank as i32 + k as i32
            };
            if sq.rank as i32 == r {
                proof {
                    lemma_cell_hit_step(roles@, p.dest, sq, k as int);
                    assert(sq.rank == cell_rank(p.dest, k as int));
                    assert(cell_hit_from(roles@, p.dest, sq, k as int) == Some(roles@[k as int]));
                    assert(cell_hit(promotion_roles(legals@, p.orig, p.dest), p.dest, sq) == Some(
                        roles@[k as int],
                    ));
                }
                return (true, Some((p.orig, p.dest, roles[k])));
            }
            k = k + 1;
        }
        proof {
            lemma_cell_hit_step(roles@, p.dest, sq, roles@.len() as int);
        }
        (false, None)
    }
}

} // verus!
