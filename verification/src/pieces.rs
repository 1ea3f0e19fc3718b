//! The piece animation layer: the set of on-board sprites ("figurines"),
//! the diff of successive placements into per-piece move and fade
//! animations, and the live drag gesture.
//!
//! Every mutation is specified by a functional model over the figurine
//! sequence, so the diff-matching, fade and gesture laws can be stated and
//! proved about the model (see the `laws` module).

use vstd::prelude::*;

use crate::board::Board;
use crate::geom::{
    cell_around_spec, ease, ease_spec, lemma_ease_range, square_center, square_to_pos,
    threshold_crossed, threshold_crossed_spec, BoardPos, BoardRect,
};
use crate::square::{Piece, Square};

verus! {

/// Move and fade animations run this many milliseconds.
pub const ANIM_MS: u64 = 200;

/// A figurine dropped by a drag this recently snaps to its square instead of
/// animating from where the drop left it.
pub const DRAG_SNAP_MS: u64 = 200;

/// An animated on-board sprite for one piece instance.
///
/// While live (`fading == false`) it renders at the eased interpolation from
/// `start` toward the center of `square`; once captured it keeps its last
/// position and fades out instead, to half opacity first if the square was
/// reoccupied (`replaced`), else from full opacity straight to zero.
#[derive(Clone, Copy, Debug)]
pub struct Figurine {
    pub square: Square,
    pub piece: Piece,
    /// Animation start point, milli board units.
    pub start: BoardPos,
    /// Animation progress, per mille of the animation duration.
    pub elapsed: u32,
    /// When the current animation started, host milliseconds.
    pub time: u64,
    /// When this figurine was last dropped from a drag, host milliseconds.
    pub last_drag: u64,
    pub fading: bool,
    pub replaced: bool,
    pub dragging: bool,
}

impl Figurine {
    pub open spec fn wf(self) -> bool {
        &&& self.square.wf()
        &&& self.elapsed <= 1000
        &&& self.start.on_board()
        &&& (self.replaced ==> self.fading)
    }

    /// On the board and interactive, as opposed to fading out.
    pub open spec fn live(self) -> bool {
        !self.fading
    }

    /// Timestamps not in the future of `now`.
    pub open spec fn times_le(self, now: u64) -> bool {
        self.time <= now && self.last_drag <= now
    }

    /// The rendered position: frozen for a fading figurine, otherwise the
    /// eased interpolation from `start` to the center of `square`.
    pub open spec fn pos_spec(self) -> BoardPos {
        if self.fading {
            self.start
        } else {
            BoardPos {
                x: ease_spec(
                    self.start.x as int,
                    square_center(self.square).x as int,
                    self.elapsed as int,
                ) as i64,
                y: ease_spec(
                    self.start.y as int,
                    square_center(self.square).y as int,
                    self.elapsed as int,
                ) as i64,
            }
        }
    }

    /// The rendered opacity in per mille: full for a live figurine, easing
    /// to zero from half (captured and replaced) or from full (captured,
    /// square left empty).
    pub open spec fn alpha_spec(self) -> int {
        if self.replaced {
            ease_spec(500, 0, self.elapsed as int)
        } else if self.fading {
            ease_spec(1000, 0, self.elapsed as int)
        } else {
            1000
        }
    }

    /// The rendered position.
    pub fn pos(&self) -> (p: BoardPos)
        requires
            self.wf(),
        ensures
            p == self.pos_spec(),
            p.on_board(),
    {
        if self.fading {
            self.start
        } else {
            let c = square_to_pos(self.square);
            proof {
                lemma_ease_range(self.start.x as int, c.x as int, self.elapsed as int);
                lemma_ease_range(self.start.y as int, c.y as int, self.elapsed as int);
            }
            BoardPos {
                x: ease(self.start.x, c.x, self.elapsed),
                y: ease(self.start.y, c.y, self.elapsed),
            }
        }
    }

    /// The rendered opacity in per mille.
    pub fn alpha(&self) -> (a: u32)
        ensures
            a == self.alpha_spec(),
            a <= 1000,
    {
        if self.replaced {
            proof {
                lemma_ease_range(500, 0, self.elapsed as int);
            }
            ease(500, 0, self.elapsed) as u32
        } else if self.fading {
            proof {
                lemma_ease_range(1000, 0, self.elapsed as int);
            }
            ease(1000, 0, self.elapsed) as u32
        } else {
            1000
        }
    }

    pub fn piece(&self) -> (p: Piece)
        ensures
            p == self.piece,
    {
        self.piece
    }

    /// Restart the animation from a given point.
    pub fn set_pos(&mut self, pos: BoardPos, now: u64)
        requires
            pos.on_board(),
        ensures
            *final(self) == (Figurine { start: pos, elapsed: 0, time: now, ..*old(self) }),
    {
        self.start = pos;
        self.elapsed = 0;
        self.time = now;
    }

    /// Animation progress at time `now`, capped at completion.
    pub open spec fn tick_elapsed(time: u64, now: u64) -> u32 {
        if now - time >= ANIM_MS {
            1000
        } else {
            ((now - time) * 5) as u32
        }
    }

    /// Advance the animation clock to `now`. Returns the two cells to
    /// redraw (around the old and the new rendered position), or nothing if
    /// the animation had already completed.
    pub fn queue_animation(&mut self, now: u64) -> (inval: Option<(BoardRect, BoardRect)>)
        requires
            old(self).wf(),
            old(self).times_le(now),
        ensures
            old(self).elapsed >= 1000 ==> *final(self) == *old(self) && inval is None,
            old(self).elapsed < 1000 ==> *final(self) == (Figurine {
                elapsed: Figurine::tick_elapsed(old(self).time, now),
                ..*old(self)
            }) && inval == Some(
                (
                    cell_around_spec(old(self).pos_spec()),
                    cell_around_spec(final(self).pos_spec()),
                ),
            ),
            final(self).wf(),
            final(self).times_le(now),
    {
        if self.elapsed < 1000 {
            let before = self.pos();
            let d: u64 = now - self.time;
            self.elapsed = if d >= ANIM_MS {
                1000
            } else {
                (d * 5) as u32
            };
            let after = self.pos();
            Some(
                (
                    BoardRect { x: before.x - 500, y: before.y - 500, w: 1000, h: 1000 },
                    BoardRect { x: after.x - 500, y: after.y - 500, w: 1000, h: 1000 },
                ),
            )
        } else {
            None
        }
    }
}

/// The in-flight drag gesture.
#[derive(Clone, Copy, Debug)]
pub struct Drag {
    /// The square the drag started on.
    pub square: Square,
    pub piece: Piece,
    /// Pointer position at the press, milli board units.
    pub start: BoardPos,
    /// Current pointer position, milli board units.
    pub pos: BoardPos,
    /// Whether the pointer has traveled far enough to count as a drag
    /// rather than a click.
    pub threshold: bool,
}

impl Drag {
    pub open spec fn wf(self) -> bool {
        self.square.wf() && self.start.bounded() && self.pos.bounded()
    }
}

/// Some figurine of the sequence is live with this square and piece.
pub open spec fn live_match_at(figs: Seq<Figurine>, sq: Square, p: Piece) -> bool {
    exists|i: int|
        0 <= i < figs.len() && figs[i].live() && figs[i].square == sq && figs[i].piece == p
}

/// Some figurine of the sequence is live on this square.
pub open spec fn live_at(figs: Seq<Figurine>, sq: Square) -> bool {
    exists|i: int| 0 <= i < figs.len() && figs[i].live() && figs[i].square == sq
}

/// All figurines well formed.
pub open spec fn figs_wf(figs: Seq<Figurine>) -> bool {
    forall|i: int| 0 <= i < figs.len() ==> (#[trigger] figs[i]).wf()
}

/// No two live figurines share a square.
pub open spec fn figs_distinct(figs: Seq<Figurine>) -> bool {
    forall|i: int, j: int|
        0 <= i < j < figs.len() && (#[trigger] figs[i]).live() && (#[trigger] figs[j]).live()
            ==> figs[i].square != figs[j].square
}

/// At most one figurine is being dragged.
pub open spec fn figs_one_drag(figs: Seq<Figurine>) -> bool {
    forall|i: int, j: int|
        0 <= i < j < figs.len() ==> !((#[trigger] figs[i]).dragging && (
        #[trigger] figs[j]).dragging)
}

/// No timestamp in the future of `now`.
pub open spec fn figs_times_le(figs: Seq<Figurine>, now: u64) -> bool {
    forall|i: int| 0 <= i < figs.len() ==> (#[trigger] figs[i]).times_le(now)
}

/// The live figurines represent the placement exactly: every live figurine
/// stands on a square the placement fills with its piece, and every filled
/// square has a live figurine of that piece.
pub open spec fn synced(figs: Seq<Figurine>, b: Seq<Option<Piece>>) -> bool {
    &&& forall|i: int|
        0 <= i < figs.len() && (#[trigger] figs[i]).live() ==> b[figs[i].square.index()] == Some(
            figs[i].piece,
        )
    &&& forall|sq: Square|
        sq.wf() && b[sq.index()] is Some ==> live_match_at(figs, sq, (#[trigger] b[sq.index()]).unwrap())
}

/// The animated figurine set together with the selection and drag state.
#[derive(Clone, Debug)]
pub struct Pieces {
    pub figurines: Vec<Figurine>,
    /// The selected origin square for click-to-move.
    pub selected: Option<Square>,
    /// The in-flight drag gesture.
    pub drag: Option<Drag>,
    /// Construction time, host milliseconds; fresh figurines inherit it as
    /// their `last_drag` so they never snap-on-drop.
    pub past: u64,
}

impl Pieces {
    pub open spec fn wf(self) -> bool {
        &&& figs_wf(self.figurines@)
        &&& figs_distinct(self.figurines@)
        &&& figs_one_drag(self.figurines@)
        &&& match self.selected {
            Some(sq) => sq.wf(),
            None => true,
        }
        &&& match self.drag {
            Some(d) => d.wf() && exists|i: int|
                0 <= i < self.figurines@.len() && (#[trigger] self.figurines@[i]).dragging
                    && self.figurines@[i].live() && self.figurines@[i].square == d.square
                    && self.figurines@[i].piece == d.piece,
            None => true,
        }
        &&& forall|i: int|
            0 <= i < self.figurines@.len() && (#[trigger] self.figurines@[i]).dragging
                ==> self.drag is Some
    }

    pub open spec fn times_le(self, now: u64) -> bool {
        self.past <= now && figs_times_le(self.figurines@, now)
    }

    /// Figurines for the standard starting position.
    pub fn new(now: u64) -> (p: Pieces)
        ensures
            p.wf(),
            p.times_le(now),
            p.selected is None,
            p.drag is None,
            p.past == now,
            synced(p.figurines@, crate::board::starting_board()),
    {
        let b = Board::starting();
        Pieces::new_from_board(&b, now)
    }

    /// Figurines for a given placement: one live figurine per occupied
    /// square, resting at its square center.
    pub fn new_from_board(board: &Board, now: u64) -> (p: Pieces)
        requires
            board.wf(),
        ensures
            p.wf(),
            p.times_le(now),
            p.selected is None,
            p.drag is None,
            p.past == now,
            synced(p.figurines@, board@),
            forall|i: int|
                0 <= i < p.figurines@.len() ==> (#[trigger] p.figurines@[i]).live() && !p.figurines@[i].dragging,
    {
        let mut figurines: Vec<Figurine> = Vec::new();
        let mut idx: usize = 0;
        while idx < 64
            invariant
                idx <= 64,
                board.wf(),
                forall|k: int|
                    0 <= k < figurines@.len() ==> {
                        let f = #[trigger] figurines@[k];
                        &&& f.wf()
                        &&& f.live()
                        &&& !f.dragging
                        &&& f.times_le(now)
                        &&& f.square.index() < idx
                        &&& board@[f.square.index()] == Some(f.piece)
                    },
                forall|k1: int, k2: int|
                    0 <= k1 < k2 < figurines@.len() ==> (#[trigger] figurines@[k1]).square.index()
                        < (#[trigger] figurines@[k2]).square.index(),
                forall|sq: Square|
                    sq.wf() && sq.index() < idx && #[trigger] board@[sq.index()] is Some
                        ==> live_match_at(figurines@, sq, board@[sq.index()].unwrap()),
            decreases 64 - idx,
        {
            proof {
                lemma_square_of_index(idx as int);
            }
            let ghost pre = figurines@;
            let sq = Square { file: (idx % 8) as u8, rank: (idx / 8) as u8 };
            if let Some(piece) = board.piece_at(sq) {
                figurines.push(
                    Figurine {
                        square: sq,
                        piece,
                        start: square_to_pos(sq),
                        elapsed: 0,
                        time: now,
                        last_drag: now,
                        fading: false,
                        replaced: false,
                        dragging: false,
                    },
                );
            }
            proof {
                assert forall|s2: Square|
                    s2.wf() && s2.index() < idx + 1 && #[trigger] board@[s2.index()] is Some implies live_match_at(
                    figurines@,
                    s2,
                    board@[s2.index()].unwrap(),
                ) by {
                    if s2.index() == idx {
                        lemma_index_unique(s2, sq);
                        let w = figurines@.len() - 1;
                        assert(figurines@[w].live() && figurines@[w].square == s2
                            && figurines@[w].piece == board@[s2.index()].unwrap());
                    } else {
                        assert(live_match_at(pre, s2, board@[s2.index()].unwrap()));
                        let i = choose|i: int|
                            0 <= i < pre.len() && pre[i].live() && pre[i].square == s2 && pre[i].piece
                                == board@[s2.index()].unwrap();
                        assert(figurines@[i].live() && figurines@[i].square == s2 && figurines@[i].piece
                            == board@[s2.index()].unwrap());
                    }
                }
            }
            idx = idx + 1;
        }
        Pieces { figurines, selected: None, drag: None, past: now }
    }

    /// Whether a live figurine occupies the square.
    pub fn occupied(&self, sq: Square) -> (b: bool)
        ensures
            b == live_at(self.figurines@, sq),
    {
        match live_index_at(&self.figurines, sq) {
            Some(k) => {
                proof {
                    assert(self.figurines@[k as int].live() && self.figurines@[k as int].square
                        == sq);
                }
                true
            },
            None => false,
        }
    }

    /// The live figurine on the square, if any.
    pub fn figurine_at(&self, sq: Square) -> (r: Option<Figurine>)
        ensures
            match r {
                Some(f) => f.live() && f.square == sq && self.figurines@.contains(f),
                None => !live_at(self.figurines@, sq),
            },
            (r is Some) == live_at(self.figurines@, sq),
    {
        match live_index_at(&self.figurines, sq) {
            Some(k) => {
                let f = self.figurines[k];
                proof {
                    assert(self.figurines@[k as int] == f);
                }
                Some(f)
            },
            None => None,
        }
    }

    /// The figurine currently under a drag, if any.
    pub fn dragging(&self) -> (r: Option<Figurine>)
        ensures
            match r {
                Some(f) => f.dragging && self.figurines@.contains(f),
                None => forall|k: int|
                    0 <= k < self.figurines@.len() ==> !(#[trigger] self.figurines@[k]).dragging,
            },
    {
        match dragging_index(&self.figurines) {
            Some(k) => {
                let f = self.figurines[k];
                proof {
                    assert(self.figurines@[k as int] == f);
                }
                Some(f)
            },
            None => None,
        }
    }

    /// Handle a button press for click-to-move selection. The first click
    /// on an occupied square selects it; a click with a selection in hand
    /// yields the candidate move (selection, clicked square) and clears the
    /// selection; clicking the selected square again just deselects.
    pub fn selection_mouse_down(&mut self, button: u8, square: Option<Square>) -> (candidate:
        Option<(Square, Square)>)
        requires
            old(self).wf(),
            match square {
                Some(sq) => sq.wf(),
                None => true,
            },
        ensures
            final(self).figurines == old(self).figurines,
            final(self).drag == old(self).drag,
            final(self).past == old(self).past,
            final(self).wf(),
            button != 1 ==> final(self).selected is None && candidate is None,
            button == 1 ==> match (old(self).selected, square) {
                (Some(orig), Some(dest)) => final(self).selected is None && candidate == (if orig
                    != dest {
                    Some((orig, dest))
                } else {
                    None::<(Square, Square)>
                }),
                _ => candidate is None && final(self).selected == (match square {
                    Some(sq) => if live_at(old(self).figurines@, sq) {
                        Some(sq)
                    } else {
                        None::<Square>
                    },
                    None => None::<Square>,
                }),
            },
    {
        let orig = self.selected.take();
        if button == 1 {
            self.selected = match square {
                Some(sq) => if self.occupied(sq) {
                    Some(sq)
                } else {
                    None
                },
                None => None,
            };
            if let (Some(o), Some(d)) = (orig, square) {
                self.selected = None;
                if o != d {
                    return Some((o, d));
                }
            }
        }
        None
    }

    /// Begin a drag on a button-1 press over a live figurine, unless a drag
    /// is already in flight.
    pub fn drag_mouse_down(&mut self, button: u8, square: Option<Square>, pos: BoardPos)
        requires
            old(self).wf(),
            pos.bounded(),
            match square {
                Some(sq) => sq.wf(),
                None => true,
            },
        ensures
            final(self).selected == old(self).selected,
            final(self).past == old(self).past,
            final(self).wf(),
            ({
                let begins = button == 1 && old(self).drag is None && square is Some && live_at(
                    old(self).figurines@,
                    square.unwrap(),
                );
                if begins {
                    let sq = square.unwrap();
                    let k = live_index(old(self).figurines@, sq);
                    &&& final(self).figurines@ == old(self).figurines@.update(
                        k,
                        Figurine { dragging: true, ..old(self).figurines@[k] },
                    )
                    &&& final(self).drag == Some(
                        Drag {
                            square: sq,
                            piece: old(self).figurines@[k].piece,
                            start: pos,
                            pos: pos,
                            threshold: false,
                        },
                    )
                } else {
                    *final(self) == *old(self)
                }
            }),
            forall|now: u64| old(self).times_le(now) ==> final(self).times_le(now),
    {
        if button != 1 || self.drag.is_some() {
            return ;
        }
        let sq = match square {
            Some(sq) => sq,
            None => { return ; },
        };
        let k = match live_index_at(&self.figurines, sq) {
            Some(k) => k,
            None => {
                proof {
                    assert(!live_at(self.figurines@, sq));
                }
                return ;
            },
        };
        proof {
            assert(live_at(self.figurines@, sq)) by {
                assert(self.figurines@[k as int].live() && self.figurines@[k as int].square == sq);
            }
            lemma_live_index_unique(self.figurines@, sq, k as int);
        }
        let f = self.figurines[k];
        self.figurines[k] = Figurine { dragging: true, ..f };
        self.drag = Some(Drag { square: sq, piece: f.piece, start: pos, pos, threshold: false });
        proof {
            let figs = self.figurines@;
            assert(figs[k as int].dragging);
            assert forall|i: int, j: int| 0 <= i < j < figs.len() implies !((
            #[trigger] figs[i]).dragging && (#[trigger] figs[j]).dragging) by {
                if i != k as int && j != k as int {
                    assert(figs[i] == old(self).figurines@[i]);
                    assert(figs[j] == old(self).figurines@[j]);
                    assert(old(self).figurines@[i].dragging ==> old(self).drag is Some);
                }
            }
        }
    }

    /// Track pointer motion during a drag: update the pointer position,
    /// latch the movement threshold once crossed, and from then on keep the
    /// drag origin selected. Returns the previous and new pointer position
    /// for invalidation, if a drag is in flight.
    pub fn drag_mouse_move(&mut self, pos: BoardPos, size: u32) -> (moved: Option<
        (BoardPos, BoardPos),
    >)
        requires
            old(self).wf(),
            pos.bounded(),
        ensures
            final(self).figurines == old(self).figurines,
            final(self).past == old(self).past,
            final(self).wf(),
            match old(self).drag {
                None => *final(self) == *old(self) && moved is None,
                Some(d) => {
                    let thr = d.threshold || threshold_crossed_spec(d.start, pos, size as int);
                    &&& final(self).drag == Some(Drag { pos, threshold: thr, ..d })
                    &&& final(self).selected == (if thr {
                        Some(d.square)
                    } else {
                        old(self).selected
                    })
                    &&& moved == Some((d.pos, pos))
                },
            },
            forall|now: u64| old(self).times_le(now) ==> final(self).times_le(now),
    {
        let d = match self.drag {
            Some(d) => d,
            None => { return None; },
        };
        let thr = d.threshold || threshold_crossed(d.start, pos, size);
        self.drag = Some(Drag { pos, threshold: thr, ..d });
        if thr {
            self.selected = Some(d.square);
        }
        Some((d.pos, pos))
    }

    /// Finish a drag on button release. Dropping on a different square
    /// yields the candidate move (origin, drop square) and clears the
    /// selection; dropping back on the origin, or with no resolvable
    /// square, cancels silently. The dropped figurine remembers the drop
    /// time so an immediately following placement update snaps it.
    pub fn drag_mouse_up(&mut self, square: Option<Square>, now: u64) -> (candidate: Option<
        (Square, Square),
    >)
        requires
            old(self).wf(),
            old(self).times_le(now),
        ensures
            final(self).past == old(self).past,
            final(self).wf(),
            final(self).times_le(now),
            match old(self).drag {
                None => *final(self) == *old(self) && candidate is None,
                Some(d) => {
                    let k = dragging_idx(old(self).figurines@);
                    let dest = match square {
                        Some(sq) => sq,
                        None => d.square,
                    };
                    &&& final(self).drag is None
                    &&& final(self).figurines@ == old(self).figurines@.update(
                        k,
                        Figurine {
                            dragging: false,
                            last_drag: now,
                            ..old(self).figurines@[k]
                        },
                    )
                    &&& candidate == (if dest != d.square {
                        Some((d.square, dest))
                    } else {
                        None::<(Square, Square)>
                    })
                    &&& final(self).selected == (if dest != d.square {
                        None::<Square>
                    } else {
                        old(self).selected
                    })
                },
            },
    {
        let d = match self.drag {
            Some(d) => d,
            None => { return None; },
        };
        self.drag = None;
        let k = match dragging_index(&self.figurines) {
            Some(k) => k,
            None => {
                proof {
                    assert(false);
                }
                return None;
            },
        };
        proof {
            lemma_dragging_idx_unique(old(self).figurines@, k as int);
        }
        let f = self.figurines[k];
        self.figurines[k] = Figurine { dragging: false, last_drag: now, ..f };
        let dest = match square {
            Some(sq) => sq,
            None => d.square,
        };
        if dest != d.square {
            self.selected = None;
            Some((d.square, dest))
        } else {
            None
        }
    }

    /// Restart the live figurine on `sq` from the given point, if there is
    /// one: the promotion chooser uses this to glide a piece back on cancel.
    pub fn figurine_set_pos(&mut self, sq: Square, pos: BoardPos, now: u64)
        requires
            old(self).wf(),
            pos.on_board(),
        ensures
            final(self).selected == old(self).selected,
            final(self).drag == old(self).drag,
            final(self).past == old(self).past,
            final(self).wf(),
            if live_at(old(self).figurines@, sq) {
                final(self).figurines@ == old(self).figurines@.update(
                    live_index(old(self).figurines@, sq),
                    Figurine {
                        start: pos,
                        elapsed: 0,
                        time: now,
                        ..old(self).figurines@[live_index(old(self).figurines@, sq)]
                    },
                )
            } else {
                *final(self) == *old(self)
            },
            forall|n2: u64| old(self).times_le(n2) && now <= n2 ==> final(self).times_le(n2),
    {
        let k = match live_index_at(&self.figurines, sq) {
            Some(k) => k,
            None => { return ; },
        };
        proof {
            assert(live_at(self.figurines@, sq)) by {
                assert(self.figurines@[k as int].live() && self.figurines@[k as int].square == sq);
            }
            lemma_live_index_unique(self.figurines@, sq, k as int);
        }
        let f = self.figurines[k];
        self.figurines[k] = Figurine { start: pos, elapsed: 0, time: now, ..f };
        proof {
            let figs = self.figurines@;
            let olds = old(self).figurines@;
            let ki = k as int;
            assert forall|i: int, j: int|
                0 <= i < j < figs.len() && (#[trigger] figs[i]).live() && (
                #[trigger] figs[j]).live() implies figs[i].square != figs[j].square by {
                assert(olds[i].live() == figs[i].live() && olds[i].square == figs[i].square);
                assert(olds[j].live() == figs[j].live() && olds[j].square == figs[j].square);
            }
            assert forall|i: int, j: int| 0 <= i < j < figs.len() implies !((
            #[trigger] figs[i]).dragging && (#[trigger] figs[j]).dragging) by {
                assert(olds[i].dragging == figs[i].dragging);
                assert(olds[j].dragging == figs[j].dragging);
            }
            match self.drag {
                Some(d) => {
                    let m = choose|m: int|
                        0 <= m < olds.len() && (#[trigger] olds[m]).dragging && olds[m].live()
                            && olds[m].square == d.square && olds[m].piece == d.piece;
                    assert(figs[m].dragging && figs[m].live() && figs[m].square == d.square
                        && figs[m].piece == d.piece);
                },
                None => {},
            }
            assert forall|n2: u64| old(self).times_le(n2) && now <= n2 implies self.times_le(
                n2,
            ) by {
                assert forall|i: int| 0 <= i < figs.len() implies (#[trigger] figs[i]).times_le(
                    n2,
                ) by {
                    assert(olds[i].times_le(n2));
                }
            }
        }
    }

    /// Advance every figurine's animation clock to `now`, collecting the
    /// cells to redraw: for each figurine still animating, the cell around
    /// its old and around its new rendered position.
    pub fn queue_animation(&mut self, now: u64) -> (inval: Vec<BoardRect>)
        requires
            old(self).wf(),
            old(self).times_le(now),
        ensures
            final(self).selected == old(self).selected,
            final(self).drag == old(self).drag,
            final(self).past == old(self).past,
            final(self).wf(),
            final(self).times_le(now),
            final(self).figurines@.len() == old(self).figurines@.len(),
            forall|k: int|
                0 <= k < final(self).figurines@.len() ==> {
                    let f0 = old(self).figurines@[k];
                    #[trigger] final(self).figurines@[k] == (if f0.elapsed >= 1000 {
                        f0
                    } else {
                        Figurine { elapsed: Figurine::tick_elapsed(f0.time, now), ..f0 }
                    })
                },
            inval@ == anim_rects(old(self).figurines@, now),
            forall|j: int| 0 <= j < inval@.len() ==> (#[trigger] inval@[j]).bounded(),
    {
        let mut inval: Vec<BoardRect> = Vec::new();
        let mut i: usize = 0;
        while i < self.figurines.len()
            invariant
                i <= self.figurines@.len(),
                self.figurines@.len() == old(self).figurines@.len(),
                figs_wf(self.figurines@),
                figs_times_le(self.figurines@, now),
                self.selected == old(self).selected,
                self.drag == old(self).drag,
                self.past == old(self).past,
                forall|k: int| i <= k < self.figurines@.len() ==> #[trigger] self.figurines@[k]
                    == old(self).figurines@[k],
                forall|k: int|
                    0 <= k < i ==> {
                        let f0 = old(self).figurines@[k];
                        #[trigger] self.figurines@[k] == (if f0.elapsed >= 1000 {
                            f0
                        } else {
                            Figurine { elapsed: Figurine::tick_elapsed(f0.time, now), ..f0 }
                        })
                    },
                forall|k1: int, k2: int|
                    0 <= k1 < k2 < self.figurines@.len() ==> ((#[trigger] self.figurines@[k1]).live()
                        && (#[trigger] self.figurines@[k2]).live()
                        ==> self.figurines@[k1].square != self.figurines@[k2].square)
                        && !(self.figurines@[k1].dragging && self.figurines@[k2].dragging),
                forall|j: int| 0 <= j < inval@.len() ==> (#[trigger] inval@[j]).bounded(),
                inval@ == anim_rects(old(self).figurines@.subrange(0, i as int), now),
            decreases self.figurines@.len() - i,
        {
            let ghost figs0 = old(self).figurines@;
            let mut f = self.figurines[i];
            let r = f.queue_animation(now);
            self.figurines[i] = f;
            proof {
                assert(figs0.subrange(0, i + 1).drop_last() =~= figs0.subrange(0, i as int));
                assert(figs0.subrange(0, i + 1).last() == figs0[i as int]);
                lemma_pos_spec_on_board(figs0[i as int]);
            }
            if let Some((before, after)) = r {
                inval.push(before);
                inval.push(after);
                proof {
                    lemma_pos_spec_on_board(self.figurines@[i as int]);
                    assert(inval@ =~= anim_rects(figs0.subrange(0, i + 1), now));
                }
            } else {
                proof {
                    assert(inval@ =~= anim_rects(figs0.subrange(0, i + 1), now));
                }
            }
            i = i + 1;
        }
        proof {
            assert(old(self).figurines@.subrange(0, old(self).figurines@.len() as int) =~= old(
                self,
            ).figurines@);
            assert forall|i1: int, j1: int| 0 <= i1 < j1 < self.figurines@.len() implies !((
            #[trigger] self.figurines@[i1]).dragging && (#[trigger] self.figurines@[j1]).dragging)
                by {}
            match self.drag {
                Some(d) => {
                    let k = choose|k: int|
                        0 <= k < old(self).figurines@.len() && (
                        #[trigger] old(self).figurines@[k]).dragging && old(self).figurines@[k].live()
                            && old(self).figurines@[k].square == d.square
                            && old(self).figurines@[k].piece == d.piece;
                    assert(self.figurines@[k].dragging && self.figurines@[k].live()
                        && self.figurines@[k].square == d.square && self.figurines@[k].piece
                        == d.piece);
                },
                None => {},
            }
        }
        inval
    }

    /// The piece to render floating under the pointer, once the gesture
    /// counts as a drag: the dragged piece at the pointer position. The
    /// figurine on the origin square is rendered ghosted meanwhile.
    pub fn drag_ghost(&self) -> (r: Option<(Piece, BoardPos)>)
        ensures
            r == (match self.drag {
                Some(d) => if d.threshold {
                    Some((d.piece, d.pos))
                } else {
                    None::<(Piece, BoardPos)>
                },
                None => None::<(Piece, BoardPos)>,
            }),
    {
        match self.drag {
            Some(d) => if d.threshold {
                Some((d.piece, d.pos))
            } else {
                None
            },
            None => None,
        }
    }

    /// Feed a new placement: collect completed fades, diff the live
    /// figurines against the placement, move the matched ones, fade the
    /// captured ones, create the rest, and cancel a drag whose figurine
    /// vanished.
    pub fn set_board(&mut self, board: &Board, now: u64)
        requires
            old(self).wf(),
            old(self).times_le(now),
            board.wf(),
        ensures
            final(self).figurines@ == set_board_figs(
                old(self).figurines@,
                board@,
                now,
                old(self).past,
            ),
            final(self).drag == (if set_board_cancels_drag(old(self).figurines@, board@, now) {
                None::<Drag>
            } else {
                old(self).drag
            }),
            final(self).selected == old(self).selected,
            final(self).past == old(self).past,
            final(self).wf(),
            final(self).times_le(now),
            synced(final(self).figurines@, board@),
    {
        let ghost figs0 = self.figurines@;
        let ghost bview = board@;
        let ghost past0 = self.past;
        // collect the figurines whose fade-out has completed
        let mut kept: Vec<Figurine> = Vec::new();
        let mut i: usize = 0;
        while i < self.figurines.len()
            invariant
                i <= self.figurines@.len(),
                self.figurines@ == figs0,
                kept@ == gc_model(figs0.subrange(0, i as int)),
            decreases self.figurines@.len() - i,
        {
            let f = self.figurines[i];
            proof {
                assert(figs0.subrange(0, i + 1).drop_last() =~= figs0.subrange(0, i as int));
                assert(figs0.subrange(0, i + 1).last() == figs0[i as int]);
            }
            if !f.fading || f.alpha() > 0 {
                kept.push(f);
            }
            i = i + 1;
        }
        proof {
            assert(figs0.subrange(0, figs0.len() as int) =~= figs0);
        }
        self.figurines = kept;
        let ghost g = self.figurines@;
        proof {
            lemma_gc_model(figs0, now);
        }
        // the (square, piece) pairs of the placement not yet represented
        let mut added: Vec<(Square, Piece)> = Vec::new();
        let mut idx: usize = 0;
        while idx < 64
            invariant
                idx <= 64,
                board.wf(),
                board@ == bview,
                self.figurines@ == g,
                figs_wf(g),
                figs_distinct(g),
                added@ == added_upto(bview, g, idx as int),
                self.past == past0,
                self.drag == old(self).drag,
                self.selected == old(self).selected,
            decreases 64 - idx,
        {
            proof {
                lemma_square_of_index(idx as int);
            }
            let sq = Square { file: (idx % 8) as u8, rank: (idx / 8) as u8 };
            if let Some(p) = board.piece_at(sq) {
                let covered: bool = match live_index_at(&self.figurines, sq) {
                    Some(k) => self.figurines[k].piece == p,
                    None => false,
                };
                proof {
                    if covered {
                        let k = choose|k: int|
                            0 <= k < g.len() && g[k].live() && g[k].square == sq && g[k].piece == p;
                        assert(live_match_at(g, sq, p));
                    } else {
                        if live_match_at(g, sq, p) {
                            let m = choose|m: int|
                                0 <= m < g.len() && g[m].live() && g[m].square == sq && g[m].piece
                                    == p;
                            assert(live_at(g, sq));
                            assert(false);
                        }
                    }
                }
                if !covered {
                    added.push((sq, p));
                }
            }
            idx = idx + 1;
        }
        let ghost a0 = added@;
        let ghost full = diff_from(g, a0, bview, now, 0);
        proof {
            lemma_added_upto(bview, g, 64);
        }
        // diff pass: freeze, match or fade each removed figurine
        let mut cancel: bool = false;
        let mut fi: usize = 0;
        while fi < self.figurines.len()
            invariant
                fi <= self.figurines@.len(),
                self.figurines@.len() == g.len(),
                board.wf(),
                board@ == bview,
                figs_wf(self.figurines@),
                figs_times_le(self.figurines@, now),
                forall|j: int| 0 <= j < added@.len() ==> (#[trigger] added@[j]).0.wf(),
                diff_from(self.figurines@, added@, bview, now, fi as int).0 == full.0,
                diff_from(self.figurines@, added@, bview, now, fi as int).1 == full.1,
                (cancel || diff_from(self.figurines@, added@, bview, now, fi as int).2) == full.2,
                self.past == past0,
                self.drag == old(self).drag,
                self.selected == old(self).selected,
            decreases self.figurines@.len() - fi,
        {
            let ghost figs_pre = self.figurines@;
            let ghost added_pre = added@;
            let ghost cancel_pre = cancel;
            let f = self.figurines[fi];
            let removed: bool = !f.fading && (match board.piece_at(f.square) {
                Some(p) => p != f.piece,
                None => true,
            });
            proof {
                assert(removed == diff_removed(f, bview));
            }
            if removed {
                let chk = f.pos();
                if f.dragging {
                    cancel = true;
                }
                // nearest added square holding the same piece, earliest wins
                let mut best: Option<usize> = None;
                let mut k: usize = 0;
                while k < added.len()
                    invariant
                        k <= added@.len(),
                        added@ == added_pre,
                        match best {
                            Some(bk) => bk < k,
                            None => true,
                        },
                        best_match_from(
                            added_pre,
                            f.piece,
                            f.square,
                            k as int,
                            match best {
                                Some(bk) => Some(bk as int),
                                None => None::<int>,
                            },
                        ) == best_match(added_pre, f.piece, f.square),
                    decreases added@.len() - k,
                {
                    let better: bool = added[k].1 == f.piece && (match best {
                        Some(bk) => f.square.distance(added[k].0) < f.square.distance(
                            added[bk].0,
                        ),
                        None => true,
                    });
                    if better {
                        best = Some(k);
                    }
                    k = k + 1;
                }
                let f2: Figurine = match best {
                    Some(bk) => {
                        let dest = added[bk].0;
                        let snap: bool = now - f.last_drag < DRAG_SNAP_MS;
                        let nf = Figurine {
                            square: dest,
                            piece: f.piece,
                            start: if snap {
                                square_to_pos(dest)
                            } else {
                                chk
                            },
                            elapsed: 0,
                            time: now,
                            last_drag: f.last_drag,
                            fading: f.fading,
                            replaced: f.replaced,
                            dragging: false,
                        };
                        added.remove(bk);
                        proof {
                            assert forall|j: int| 0 <= j < added@.len() implies (
                            #[trigger] added@[j]).0.wf() by {
                                lemma_remove_entries(added_pre, bk as int, j);
                            }
                        }
                        nf
                    },
                    None => Figurine {
                        square: f.square,
                        piece: f.piece,
                        start: chk,
                        elapsed: 0,
                        time: now,
                        last_drag: f.last_drag,
                        fading: true,
                        replaced: board.piece_at(f.square).is_some(),
                        dragging: false,
                    },
                };
                self.figurines[fi] = f2;
                proof {
                    let f1s = checkpoint(f, now);
                    match best_match(added_pre, f.piece, f.square) {
                        Some(j) => {
                            lemma_best_match_in_range(added_pre, f.piece, f.square);
                            assert(best == Some(j as usize));
                            let dsq = added_pre[j].0;
                            let f2s = Figurine {
                                square: dsq,
                                start: if now - f.last_drag < DRAG_SNAP_MS {
                                    square_center(dsq)
                                } else {
                                    f1s.start
                                },
                                ..f1s
                            };
                            assert(f2 == f2s);
                            assert(self.figurines@ == figs_pre.update(fi as int, f2s));
                            assert(added@ == added_pre.remove(j));
                        },
                        None => {
                            let f2s = Figurine {
                                fading: true,
                                replaced: bview[f.square.index()] is Some,
                                ..f1s
                            };
                            assert(f2 == f2s);
                            assert(self.figurines@ == figs_pre.update(fi as int, f2s));
                        },
                    }
                    assert(diff_from(figs_pre, added_pre, bview, now, fi as int).0 == diff_from(
                        self.figurines@,
                        added@,
                        bview,
                        now,
                        fi + 1,
                    ).0);
                    assert(diff_from(figs_pre, added_pre, bview, now, fi as int).1 == diff_from(
                        self.figurines@,
                        added@,
                        bview,
                        now,
                        fi + 1,
                    ).1);
                    assert(diff_from(figs_pre, added_pre, bview, now, fi as int).2 == (f.dragging
                        || diff_from(self.figurines@, added@, bview, now, fi + 1).2));
                }
            }
            fi = fi + 1;
        }
        // create figurines for the added squares nothing matched
        let ghost drem = added@;
        proof {
            assert(self.figurines@ == full.0);
            assert(drem == full.1);
            assert(cancel == full.2);
        }
        let mut k2: usize = 0;
        while k2 < added.len()
            invariant
                k2 <= added@.len(),
                added@ == drem,
                forall|j: int| 0 <= j < added@.len() ==> (#[trigger] added@[j]).0.wf(),
                self.figurines@ == full.0 + appended(
                    drem.subrange(0, k2 as int),
                    now,
                    past0,
                ),
                self.past == past0,
                self.drag == old(self).drag,
                self.selected == old(self).selected,
            decreases added@.len() - k2,
        {
            let e = added[k2];
            self.figurines.push(
                Figurine {
                    square: e.0,
                    piece: e.1,
                    start: square_to_pos(e.0),
                    elapsed: 0,
                    time: now,
                    last_drag: self.past,
                    fading: false,
                    replaced: false,
                    dragging: false,
                },
            );
            proof {
                assert(appended(drem.subrange(0, k2 + 1), now, past0) =~= appended(
                    drem.subrange(0, k2 as int),
                    now,
                    past0,
                ).push(fresh_figurine(drem[k2 as int].0, drem[k2 as int].1, now, past0)));
            }
            k2 = k2 + 1;
        }
        if cancel {
            self.drag = None;
        }
        proof {
            assert(drem.subrange(0, drem.len() as int) =~= drem);
            assert(self.figurines@ == set_board_figs(figs0, bview, now, past0));
            assert(cancel == set_board_cancels_drag(figs0, bview, now));
            lemma_set_board_model(figs0, bview, now, past0);
            let r = self.figurines@;
            // the drag record still points at a live dragged figurine
            match self.drag {
                Some(d) => {
                    let m0 = choose|m0: int|
                        0 <= m0 < figs0.len() && (#[trigger] figs0[m0]).dragging && figs0[m0].live()
                            && figs0[m0].square == d.square && figs0[m0].piece == d.piece;
                    assert(figs0.contains(figs0[m0]));
                    assert(r.contains(figs0[m0]));
                    let m = choose|m: int| 0 <= m < r.len() && r[m] == figs0[m0];
                    assert(r[m].dragging && r[m].live() && r[m].square == d.square && r[m].piece
                        == d.piece);
                },
                None => {
                    if !cancel {
                        assert forall|k3: int| 0 <= k3 < r.len() implies !(
                        #[trigger] r[k3]).dragging by {
                            if r[k3].dragging {
                                let m = choose|m: int|
                                    0 <= m < figs0.len() && (#[trigger] figs0[m]).dragging;
                                assert(old(self).drag is Some);
                            }
                        }
                    }
                },
            }
        }
    }
}

/// The index of the live figurine on a square (meaningful when one exists;
/// unique under `figs_distinct`).
pub open spec fn live_index(figs: Seq<Figurine>, sq: Square) -> int {
    choose|i: int| 0 <= i < figs.len() && (#[trigger] figs[i]).live() && figs[i].square == sq
}

/// The index of the dragged figurine (meaningful when one exists; unique
/// under `figs_one_drag`).
pub open spec fn dragging_idx(figs: Seq<Figurine>) -> int {
    choose|i: int| 0 <= i < figs.len() && (#[trigger] figs[i]).dragging
}

/// Under distinctness, any live figurine on a square sits at `live_index`.
pub proof fn lemma_live_index_unique(figs: Seq<Figurine>, sq: Square, k: int)
    requires
        figs_distinct(figs),
        0 <= k < figs.len(),
        figs[k].live(),
        figs[k].square == sq,
    ensures
        live_index(figs, sq) == k,
        live_at(figs, sq),
{
    assert(0 <= k < figs.len() && (#[trigger] figs[k]).live() && figs[k].square == sq);
    let i = live_index(figs, sq);
    assert(0 <= i < figs.len() && figs[i].live() && figs[i].square == sq);
}

/// Under the single-drag invariant, any dragged figurine sits at
/// `dragging_idx`.
pub proof fn lemma_dragging_idx_unique(figs: Seq<Figurine>, k: int)
    requires
        figs_one_drag(figs),
        0 <= k < figs.len(),
        figs[k].dragging,
    ensures
        dragging_idx(figs) == k,
{
    assert(0 <= k < figs.len() && (#[trigger] figs[k]).dragging);
    let i = dragging_idx(figs);
    assert(0 <= i < figs.len() && figs[i].dragging);
}

/// The first live figurine on a square, by index.
fn live_index_at(figs: &Vec<Figurine>, sq: Square) -> (r: Option<usize>)
    ensures
        match r {
            Some(k) => k < figs@.len() && figs@[k as int].live() && figs@[k as int].square == sq,
            None => !live_at(figs@, sq),
        },
{
    let mut i: usize = 0;
    while i < figs.len()
        invariant
            i <= figs@.len(),
            forall|j: int| 0 <= j < i ==> !((#[trigger] figs@[j]).live() && figs@[j].square == sq),
        decreases figs@.len() - i,
    {
        if !figs[i].fading && figs[i].square == sq {
            return Some(i);
        }
        i = i + 1;
    }
    None
}

/// The first dragged figurine, by index.
fn dragging_index(figs: &Vec<Figurine>) -> (r: Option<usize>)
    ensures
        match r {
            Some(k) => k < figs@.len() && figs@[k as int].dragging,
            None => forall|j: int| 0 <= j < figs@.len() ==> !(#[trigger] figs@[j]).dragging,
        },
{
    let mut i: usize = 0;
    while i < figs.len()
        invariant
            i <= figs@.len(),
            forall|j: int| 0 <= j < i ==> !(#[trigger] figs@[j]).dragging,
        decreases figs@.len() - i,
    {
        if figs[i].dragging {
            return Some(i);
        }
        i = i + 1;
    }
    None
}

// ---------------------------------------------------------------------------
// The placement diff: functional model.
// ---------------------------------------------------------------------------

/// A fading figurine is kept only while still visible.
pub open spec fn gc_keep(f: Figurine) -> bool {
    !f.fading || f.alpha_spec() > 0
}

/// Collect figurines whose fade-out has completed.
pub open spec fn gc_model(figs: Seq<Figurine>) -> Seq<Figurine>
    decreases figs.len(),
{
    if figs.len() == 0 {
        Seq::empty()
    } else {
        let rest = gc_model(figs.drop_last());
        if gc_keep(figs.last()) {
            rest.push(figs.last())
        } else {
            rest
        }
    }
}

/// The cells to redraw for one animation tick at `now`: for every
/// figurine whose animation is still running, the cell around its current
/// rendered position and the cell around its position after the tick.
pub open spec fn anim_rects(figs: Seq<Figurine>, now: u64) -> Seq<BoardRect>
    decreases figs.len(),
{
    if figs.len() == 0 {
        Seq::empty()
    } else {
        let rest = anim_rects(figs.drop_last(), now);
        let f = figs.last();
        if f.elapsed >= 1000 {
            rest
        } else {
            let ticked = Figurine { elapsed: Figurine::tick_elapsed(f.time, now), ..f };
            rest + seq![
                cell_around_spec(f.pos_spec()),
                cell_around_spec(ticked.pos_spec()),
            ]
        }
    }
}

/// The (square, piece) pairs of the first `n` square indices that the new
/// placement fills but no live figurine already represents, in square order.
pub open spec fn added_upto(b: Seq<Option<Piece>>, figs: Seq<Figurine>, n: int) -> Seq<
    (Square, Piece),
>
    decreases n,
{
    if n <= 0 {
        Seq::empty()
    } else {
        let prev = added_upto(b, figs, n - 1);
        let sq = crate::square::square_of_index(n - 1);
        match b[n - 1] {
            Some(p) => if !live_match_at(figs, sq, p) {
                prev.push((sq, p))
            } else {
                prev
            },
            None => prev,
        }
    }
}

/// The first entry of `added` from position `i` on holding piece `p` at
/// minimal Chebyshev distance from `from`, folded over the best entry seen
/// so far; ties keep the earlier entry.
pub open spec fn best_match_from(
    added: Seq<(Square, Piece)>,
    p: Piece,
    from: Square,
    i: int,
    cur: Option<int>,
) -> Option<int>
    decreases added.len() - i,
{
    if i < 0 || i >= added.len() {
        cur
    } else {
        let better = added[i].1 == p && (cur is None || from.distance_spec(added[i].0)
            < from.distance_spec(added[cur.unwrap()].0));
        best_match_from(
            added,
            p,
            from,
            i + 1,
            if better {
                Some(i)
            } else {
                cur
            },
        )
    }
}

/// The best match of `added` for a piece vanished from `from`.
pub open spec fn best_match(added: Seq<(Square, Piece)>, p: Piece, from: Square) -> Option<int> {
    best_match_from(added, p, from, 0, None)
}

/// Freeze a figurine's in-flight animation at its current rendered position
/// and restart its clock; a removed figurine also stops being dragged.
pub open spec fn checkpoint(f: Figurine, now: u64) -> Figurine {
    Figurine { start: f.pos_spec(), elapsed: 0, time: now, dragging: false, ..f }
}

/// The new placement no longer shows this live figurine's piece on its
/// square.
pub open spec fn diff_removed(f: Figurine, b: Seq<Option<Piece>>) -> bool {
    f.live() && b[f.square.index()] != Some(f.piece)
}

/// One pass over the figurines from index `i` on: each removed figurine is
/// frozen, then either reassigned to the nearest added square holding its
/// piece (consuming that entry) or marked fading. Returns the new figurines,
/// the added entries left over, and whether a dragged figurine was removed.
pub open spec fn diff_from(
    figs: Seq<Figurine>,
    added: Seq<(Square, Piece)>,
    b: Seq<Option<Piece>>,
    now: u64,
    i: int,
) -> (Seq<Figurine>, Seq<(Square, Piece)>, bool)
    decreases figs.len() - i,
{
    if i < 0 || i >= figs.len() {
        (figs, added, false)
    } else {
        let f = figs[i];
        if !diff_removed(f, b) {
            diff_from(figs, added, b, now, i + 1)
        } else {
            let f1 = checkpoint(f, now);
            match best_match(added, f.piece, f.square) {
                Some(j) => {
                    let dest = added[j].0;
                    let f2 = Figurine {
                        square: dest,
                        start: if now - f.last_drag < DRAG_SNAP_MS {
                            square_center(dest)
                        } else {
                            f1.start
                        },
                        ..f1
                    };
                    let r = diff_from(figs.update(i, f2), added.remove(j), b, now, i + 1);
                    (r.0, r.1, f.dragging || r.2)
                },
                None => {
                    let f2 = Figurine {
                        fading: true,
                        replaced: b[f.square.index()] is Some,
                        ..f1
                    };
                    let r = diff_from(figs.update(i, f2), added, b, now, i + 1);
                    (r.0, r.1, f.dragging || r.2)
                },
            }
        }
    }
}

/// A brand-new figurine resting at its square center, fully opaque.
pub open spec fn fresh_figurine(sq: Square, p: Piece, now: u64, past: u64) -> Figurine {
    Figurine {
        square: sq,
        piece: p,
        start: square_center(sq),
        elapsed: 0,
        time: now,
        last_drag: past,
        fading: false,
        replaced: false,
        dragging: false,
    }
}

/// Fresh figurines for the added entries nothing matched.
pub open spec fn appended(added: Seq<(Square, Piece)>, now: u64, past: u64) -> Seq<Figurine> {
    added.map(|j: int, e: (Square, Piece)| fresh_figurine(e.0, e.1, now, past))
}

/// The figurines after a placement update: collect completed fades, diff
/// against the new placement, then create figurines for what is left.
pub open spec fn set_board_figs(
    figs: Seq<Figurine>,
    b: Seq<Option<Piece>>,
    now: u64,
    past: u64,
) -> Seq<Figurine> {
    let g = gc_model(figs);
    let a = added_upto(b, g, 64);
    let d = diff_from(g, a, b, now, 0);
    d.0 + appended(d.1, now, past)
}

/// Whether a placement update removes the figurine under an active drag.
pub open spec fn set_board_cancels_drag(
    figs: Seq<Figurine>,
    b: Seq<Option<Piece>>,
    now: u64,
) -> bool {
    let g = gc_model(figs);
    diff_from(g, added_upto(b, g, 64), b, now, 0).2
}

// ---------------------------------------------------------------------------
// The placement diff: lemmas.
// ---------------------------------------------------------------------------

/// A well-formed figurine renders within the playing field.
pub proof fn lemma_pos_spec_on_board(f: Figurine)
    requires
        f.wf(),
    ensures
        f.pos_spec().on_board(),
{
    crate::geom::lemma_ease_range(
        f.start.x as int,
        square_center(f.square).x as int,
        f.elapsed as int,
    );
    crate::geom::lemma_ease_range(
        f.start.y as int,
        square_center(f.square).y as int,
        f.elapsed as int,
    );
}

/// Garbage collection keeps every live figurine, touches none, and
/// preserves well-formedness.
pub proof fn lemma_gc_model(figs: Seq<Figurine>, now: u64)
    ensures
        figs_wf(figs) ==> figs_wf(gc_model(figs)),
        figs_distinct(figs) ==> figs_distinct(gc_model(figs)),
        figs_one_drag(figs) ==> figs_one_drag(gc_model(figs)),
        figs_times_le(figs, now) ==> figs_times_le(gc_model(figs), now),
        forall|k: int|
            0 <= k < gc_model(figs).len() ==> figs.contains(#[trigger] gc_model(figs)[k]),
        forall|f: Figurine| #[trigger]
            figs.contains(f) && f.live() ==> gc_model(figs).contains(f),
        forall|sq: Square, p: Piece|
            live_match_at(gc_model(figs), sq, p) == #[trigger] live_match_at(figs, sq, p),
        forall|sq: Square| live_at(gc_model(figs), sq) == #[trigger] live_at(figs, sq),
    decreases figs.len(),
{
    let g = gc_model(figs);
    if figs.len() == 0 {
        assert forall|sq: Square, p: Piece| #[trigger]
            live_match_at(figs, sq, p) == live_match_at(g, sq, p) by {
            assert(!live_match_at(figs, sq, p));
            assert(!live_match_at(g, sq, p));
        }
        assert forall|sq: Square| #[trigger] live_at(figs, sq) == live_at(g, sq) by {
            assert(!live_at(figs, sq));
            assert(!live_at(g, sq));
        }
    } else {
        let pre = figs.drop_last();
        let last = figs.last();
        lemma_gc_model(pre, now);
        let gp = gc_model(pre);
        // every element of `figs` is in `pre` or is `last`
        assert forall|f: Figurine| #[trigger] figs.contains(f) && f.live() implies g.contains(
            f,
        ) by {
            let m = choose|m: int| 0 <= m < figs.len() && figs[m] == f;
            if m < figs.len() - 1 {
                assert(pre[m] == f);
                assert(pre.contains(f));
                let m2 = choose|m2: int| 0 <= m2 < gp.len() && gp[m2] == f;
                if gc_keep(last) {
                    assert(g[m2] == f);
                } else {
                    assert(g[m2] == f);
                }
            } else {
                assert(f == last);
                assert(gc_keep(last));
                assert(g.last() == f);
            }
        }
        assert forall|k: int| 0 <= k < g.len() implies figs.contains(#[trigger] g[k]) by {
            if k < gp.len() {
                assert(gp[k] == g[k]);
                assert(pre.contains(gp[k]));
                let m = choose|m: int| 0 <= m < pre.len() && pre[m] == gp[k];
                assert(figs[m] == gp[k]);
            } else {
                assert(g[k] == last);
                assert(figs[figs.len() - 1] == last);
            }
        }
        if figs_wf(figs) {
            assert(figs_wf(pre));
        }
        if figs_times_le(figs, now) {
            assert(figs_times_le(pre, now));
        }
        if figs_distinct(figs) {
            assert(figs_distinct(pre));
            assert forall|i: int, j: int|
                0 <= i < j < g.len() && (#[trigger] g[i]).live() && (#[trigger] g[j]).live()
                    implies g[i].square != g[j].square by {
                if j < gp.len() {
                } else {
                    // g[j] is `last`; g[i] is a live element of `pre`
                    assert(g[j] == last);
                    assert(gp[i] == g[i]);
                    assert(pre.contains(g[i]));
                    let m = choose|m: int| 0 <= m < pre.len() && pre[m] == g[i];
                    assert(figs[m] == g[i]);
                    assert(figs[figs.len() - 1] == last);
                }
            }
        }
        if figs_one_drag(figs) {
            assert(figs_one_drag(pre));
            assert forall|i: int, j: int| 0 <= i < j < g.len() implies !((#[trigger] g[i]).dragging
                && (#[trigger] g[j]).dragging) by {
                if j < gp.len() {
                } else {
                    assert(g[j] == last);
                    assert(gp[i] == g[i]);
                    assert(pre.contains(g[i]));
                    let m = choose|m: int| 0 <= m < pre.len() && pre[m] == g[i];
                    assert(figs[m] == g[i]);
                    assert(figs[figs.len() - 1] == last);
                }
            }
        }
        assert forall|sq: Square, p: Piece| #[trigger]
            live_match_at(figs, sq, p) == live_match_at(g, sq, p) by {
            if live_match_at(figs, sq, p) {
                let m = choose|m: int|
                    0 <= m < figs.len() && figs[m].live() && figs[m].square == sq && figs[m].piece
                        == p;
                assert(figs.contains(figs[m]));
                assert(g.contains(figs[m]));
                let k = choose|k: int| 0 <= k < g.len() && g[k] == figs[m];
                assert(g[k].live() && g[k].square == sq && g[k].piece == p);
            }
            if live_match_at(g, sq, p) {
                let k = choose|k: int|
                    0 <= k < g.len() && g[k].live() && g[k].square == sq && g[k].piece == p;
                assert(figs.contains(g[k]));
                let m = choose|m: int| 0 <= m < figs.len() && figs[m] == g[k];
                assert(figs[m].live() && figs[m].square == sq && figs[m].piece == p);
            }
        }
        assert forall|sq: Square| #[trigger] live_at(figs, sq) == live_at(g, sq) by {
            if live_at(figs, sq) {
                let m = choose|m: int| 0 <= m < figs.len() && figs[m].live() && figs[m].square == sq;
                assert(figs.contains(figs[m]));
                assert(g.contains(figs[m]));
                let k = choose|k: int| 0 <= k < g.len() && g[k] == figs[m];
                assert(g[k].live() && g[k].square == sq);
            }
            if live_at(g, sq) {
                let k = choose|k: int| 0 <= k < g.len() && g[k].live() && g[k].square == sq;
                assert(figs.contains(g[k]));
                let m = choose|m: int| 0 <= m < figs.len() && figs[m] == g[k];
                assert(figs[m].live() && figs[m].square == sq);
            }
        }
    }
}

/// The added list collects exactly the filled squares no live figurine
/// represents, in square order, each at most once.
pub proof fn lemma_added_upto(b: Seq<Option<Piece>>, figs: Seq<Figurine>, n: int)
    requires
        b.len() == 64,
        0 <= n <= 64,
    ensures
        forall|j: int|
            0 <= j < added_upto(b, figs, n).len() ==> {
                let e = #[trigger] added_upto(b, figs, n)[j];
                &&& e.0.wf()
                &&& e.0.index() < n
                &&& b[e.0.index()] == Some(e.1)
                &&& !live_match_at(figs, e.0, e.1)
            },
        forall|j1: int, j2: int|
            0 <= j1 < j2 < added_upto(b, figs, n).len() ==> (#[trigger] added_upto(b, figs, n)[j1]).0.index()
                < (#[trigger] added_upto(b, figs, n)[j2]).0.index(),
        forall|sq: Square|
            sq.wf() && sq.index() < n && #[trigger] b[sq.index()] is Some && !live_match_at(
                figs,
                sq,
                b[sq.index()].unwrap(),
            ) ==> added_upto(b, figs, n).contains((sq, b[sq.index()].unwrap())),
    decreases n,
{
    if n > 0 {
        lemma_added_upto(b, figs, n - 1);
        lemma_square_of_index(n - 1);
        let prev = added_upto(b, figs, n - 1);
        let a = added_upto(b, figs, n);
        assert forall|sq: Square|
            sq.wf() && sq.index() < n && #[trigger] b[sq.index()] is Some && !live_match_at(
                figs,
                sq,
                b[sq.index()].unwrap(),
            ) implies a.contains((sq, b[sq.index()].unwrap())) by {
            let e = (sq, b[sq.index()].unwrap());
            if sq.index() < n - 1 {
                assert(prev.contains(e));
                let j = choose|j: int| 0 <= j < prev.len() && prev[j] == e;
                assert(a[j] == e);
            } else {
                lemma_index_unique(sq, crate::square::square_of_index(n - 1));
                assert(a[a.len() - 1] == e);
            }
        }
    }
}

/// Live figurines on one square, with the figurines yet to be processed
/// that the new placement removes set aside: what remains distinct during
/// the diff pass. A matched figurine may land on a square whose wrong-piece
/// occupant has not been processed yet; that occupant is removed later.
pub open spec fn diff_distinct(figs: Seq<Figurine>, b: Seq<Option<Piece>>, i: int) -> bool {
    forall|k1: int, k2: int|
        0 <= k1 < k2 < figs.len() && (#[trigger] figs[k1]).live() && (#[trigger] figs[k2]).live()
            && figs[k1].square == figs[k2].square ==> ((k1 >= i && diff_removed(figs[k1], b)) || (
        k2 >= i && diff_removed(figs[k2], b)))
}

/// The diff pass from index `i`: every removed figurine fades or moves to an
/// added square, everything else stays untouched, well-formedness and the
/// gesture bookkeeping survive, and every added entry ends up represented by
/// a live figurine or left over for creation.
pub proof fn lemma_diff_from(
    figs: Seq<Figurine>,
    added: Seq<(Square, Piece)>,
    b: Seq<Option<Piece>>,
    now: u64,
    i: int,
)
    requires
        b.len() == 64,
        0 <= i <= figs.len(),
        figs_wf(figs),
        figs_one_drag(figs),
        figs_times_le(figs, now),
        diff_distinct(figs, b, i),
        forall|j1: int, j2: int|
            0 <= j1 < j2 < added.len() ==> (#[trigger] added[j1]).0 != (#[trigger] added[j2]).0,
        forall|j: int|
            0 <= j < added.len() ==> {
                let e = #[trigger] added[j];
                e.0.wf() && b[e.0.index()] == Some(e.1) && !live_match_at(figs, e.0, e.1)
            },
        forall|k: int|
            0 <= k < i && (#[trigger] figs[k]).live() ==> b[figs[k].square.index()] == Some(
                figs[k].piece,
            ),
    ensures
        ({
            let r = diff_from(figs, added, b, now, i);
            &&& r.0.len() == figs.len()
            &&& forall|k: int| 0 <= k < i ==> r.0[k] == figs[k]
            &&& forall|k: int|
                0 <= k < figs.len() && !(#[trigger] figs[k]).live() ==> r.0[k] == figs[k]
            &&& forall|k: int|
                0 <= k < figs.len() && (#[trigger] figs[k]).live() && b[figs[k].square.index()]
                    == Some(figs[k].piece) ==> r.0[k] == figs[k]
            &&& figs_wf(r.0)
            &&& figs_distinct(r.0)
            &&& figs_one_drag(r.0)
            &&& figs_times_le(r.0, now)
            &&& forall|k: int|
                0 <= k < r.0.len() && (#[trigger] r.0[k]).live() ==> b[r.0[k].square.index()]
                    == Some(r.0[k].piece)
            &&& forall|k: int|
                0 <= k < r.0.len() && (#[trigger] r.0[k]).dragging ==> figs[k].dragging && r.0[k]
                    == figs[k]
            &&& (!r.2 ==> forall|k: int|
                0 <= k < r.0.len() ==> (#[trigger] r.0[k]).dragging == figs[k].dragging)
            &&& (r.2 ==> forall|k: int| 0 <= k < r.0.len() ==> !(#[trigger] r.0[k]).dragging)
            &&& forall|j: int|
                0 <= j < r.1.len() ==> added.contains(#[trigger] r.1[j])
            &&& forall|j: int|
                0 <= j < r.1.len() ==> {
                    let e = #[trigger] r.1[j];
                    e.0.wf() && b[e.0.index()] == Some(e.1) && !live_match_at(r.0, e.0, e.1)
                }
            &&& forall|j1: int, j2: int|
                0 <= j1 < j2 < r.1.len() ==> (#[trigger] r.1[j1]).0 != (#[trigger] r.1[j2]).0
            &&& forall|e: (Square, Piece)| #[trigger]
                added.contains(e) ==> live_match_at(r.0, e.0, e.1) || r.1.contains(e)
        }),
    decreases figs.len() - i,
{
    let r = diff_from(figs, added, b, now, i);
    if i >= figs.len() {
        assert(figs_distinct(figs)) by {
            assert forall|k1: int, k2: int|
                0 <= k1 < k2 < figs.len() && (#[trigger] figs[k1]).live() && (
                #[trigger] figs[k2]).live() implies figs[k1].square != figs[k2].square by {
                if figs[k1].square == figs[k2].square {
                    assert((k1 >= i && diff_removed(figs[k1], b)) || (k2 >= i && diff_removed(
                        figs[k2],
                        b,
                    )));
                }
            }
        }
    } else {
        let f = figs[i];
        if !diff_removed(f, b) {
            // this figurine stays; if live it matches the placement
            lemma_diff_from(figs, added, b, now, i + 1);
        } else {
            let f1 = checkpoint(f, now);
            lemma_pos_spec_on_board(f);
            match best_match(added, f.piece, f.square) {
                Some(j) => {
                    lemma_best_match_in_range(added, f.piece, f.square);
                    let dest = added[j].0;
                    let f2 = Figurine {
                        square: dest,
                        start: if now - f.last_drag < DRAG_SNAP_MS {
                            square_center(dest)
                        } else {
                            f1.start
                        },
                        ..f1
                    };
                    let figs2 = figs.update(i, f2);
                    let added2 = added.remove(j);
                    // premises of the recursive call
                    assert(figs_wf(figs2));
                    assert(diff_distinct(figs2, b, i + 1)) by {
                        assert forall|k1: int, k2: int|
                            0 <= k1 < k2 < figs2.len() && (#[trigger] figs2[k1]).live() && (
                            #[trigger] figs2[k2]).live() && figs2[k1].square == figs2[k2].square implies ((
                        k1 >= i + 1 && diff_removed(figs2[k1], b)) || (k2 >= i + 1 && diff_removed(
                            figs2[k2],
                            b,
                        ))) by {
                            if k1 == i {
                                // f2 sits on dest where the placement shows its piece;
                                // a colliding live figurine holds a different piece
                                assert(figs2[k2] == figs[k2]);
                                assert(figs[k2].piece != f2.piece) by {
                                    if figs[k2].piece == f2.piece {
                                        assert(live_match_at(figs, dest, added[j].1));
                                    }
                                }
                                assert(diff_removed(figs2[k2], b));
                            } else if k2 == i {
                                assert(figs2[k1] == figs[k1]);
                                assert(figs[k1].piece != f2.piece) by {
                                    if figs[k1].piece == f2.piece {
                                        assert(live_match_at(figs, dest, added[j].1));
                                    }
                                }
                                if k1 < i {
                                    assert(b[figs[k1].square.index()] == Some(figs[k1].piece));
                                    assert(false);
                                } else {
                                    assert(diff_removed(figs2[k1], b));
                                }
                            } else {
                                assert(figs2[k1] == figs[k1] && figs2[k2] == figs[k2]);
                            }
                        }
                    }
                    assert forall|j1: int, j2: int| 0 <= j1 < j2 < added2.len() implies (
                    #[trigger] added2[j1]).0 != (#[trigger] added2[j2]).0 by {
                        lemma_remove_entries(added, j, j1);
                        lemma_remove_entries(added, j, j2);
                    }
                    assert forall|j2: int| 0 <= j2 < added2.len() implies {
                        let e = #[trigger] added2[j2];
                        e.0.wf() && b[e.0.index()] == Some(e.1) && !live_match_at(figs2, e.0, e.1)
                    } by {
                        lemma_remove_entries(added, j, j2);
                        let e = added2[j2];
                        assert(e.0 != dest);
                        if live_match_at(figs2, e.0, e.1) {
                            let m = choose|m: int|
                                0 <= m < figs2.len() && figs2[m].live() && figs2[m].square == e.0
                                    && figs2[m].piece == e.1;
                            assert(m != i);
                            assert(figs[m] == figs2[m]);
                            assert(live_match_at(figs, e.0, e.1));
                        }
                    }
                    lemma_diff_from(figs2, added2, b, now, i + 1);
                    let r2 = diff_from(figs2, added2, b, now, i + 1);
                    assert(r == (r2.0, r2.1, f.dragging || r2.2));
                    // carry the added coverage across the removed entry
                    assert forall|e: (Square, Piece)| #[trigger] added.contains(e) implies live_match_at(
                        r.0,
                        e.0,
                        e.1,
                    ) || r.1.contains(e) by {
                        let j2 = choose|j2: int| 0 <= j2 < added.len() && added[j2] == e;
                        if j2 == j {
                            assert(r.0[i] == figs2[i]);
                            assert(r.0[i] == f2);
                            assert(live_match_at(r.0, e.0, e.1));
                        } else {
                            let j3: int = if j2 < j {
                                j2
                            } else {
                                j2 - 1
                            };
                            lemma_remove_entries(added, j, j3);
                            assert(added2[j3] == e);
                            assert(added2.contains(e));
                        }
                    }
                    // a dragged figurine was cleared: nothing else was dragging
                    if f.dragging {
                        assert forall|k: int| 0 <= k < r.0.len() implies !(
                        #[trigger] r.0[k]).dragging by {
                            assert(!figs2[k].dragging);
                        }
                    }
                },
                None => {
                    let f2 = Figurine { fading: true, replaced: b[f.square.index()] is Some, ..f1 };
                    let figs2 = figs.update(i, f2);
                    assert(figs_wf(figs2));
                    assert(diff_distinct(figs2, b, i + 1)) by {
                        assert forall|k1: int, k2: int|
                            0 <= k1 < k2 < figs2.len() && (#[trigger] figs2[k1]).live() && (
                            #[trigger] figs2[k2]).live() && figs2[k1].square == figs2[k2].square implies ((
                        k1 >= i + 1 && diff_removed(figs2[k1], b)) || (k2 >= i + 1 && diff_removed(
                            figs2[k2],
                            b,
                        ))) by {
                            assert(k1 != i && k2 != i);
                            assert(figs2[k1] == figs[k1] && figs2[k2] == figs[k2]);
                        }
                    }
                    assert forall|j2: int| 0 <= j2 < added.len() implies {
                        let e = #[trigger] added[j2];
                        e.0.wf() && b[e.0.index()] == Some(e.1) && !live_match_at(figs2, e.0, e.1)
                    } by {
                        let e = added[j2];
                        if live_match_at(figs2, e.0, e.1) {
                            let m = choose|m: int|
                                0 <= m < figs2.len() && figs2[m].live() && figs2[m].square == e.0
                                    && figs2[m].piece == e.1;
                            assert(m != i);
                            assert(figs[m] == figs2[m]);
                            assert(live_match_at(figs, e.0, e.1));
                        }
                    }
                    lemma_diff_from(figs2, added, b, now, i + 1);
                    let r2 = diff_from(figs2, added, b, now, i + 1);
                    assert(r == (r2.0, r2.1, f.dragging || r2.2));
                    if f.dragging {
                        assert forall|k: int| 0 <= k < r.0.len() implies !(
                        #[trigger] r.0[k]).dragging by {
                            assert(!figs2[k].dragging);
                        }
                    }
                },
            }
        }
    }
}

/// The surviving best-match accumulator stays inside the list.
pub proof fn lemma_best_match_in_range(added: Seq<(Square, Piece)>, p: Piece, from: Square)
    ensures
        match best_match(added, p, from) {
            Some(j) => 0 <= j < added.len() && added[j].1 == p,
            None => true,
        },
{
    lemma_best_match_from_in_range(added, p, from, 0, None);
}

proof fn lemma_best_match_from_in_range(
    added: Seq<(Square, Piece)>,
    p: Piece,
    from: Square,
    i: int,
    cur: Option<int>,
)
    requires
        match cur {
            Some(c) => 0 <= c < added.len() && added[c].1 == p,
            None => true,
        },
    ensures
        match best_match_from(added, p, from, i, cur) {
            Some(j) => 0 <= j < added.len() && added[j].1 == p,
            None => true,
        },
    decreases added.len() - i,
{
    if 0 <= i < added.len() {
        let better = added[i].1 == p && (cur is None || from.distance_spec(added[i].0)
            < from.distance_spec(added[cur.unwrap()].0));
        lemma_best_match_from_in_range(
            added,
            p,
            from,
            i + 1,
            if better {
                Some(i)
            } else {
                cur
            },
        );
    }
}

/// What remains after removing one entry: the earlier entries keep their
/// index, the later ones move down one.
pub proof fn lemma_remove_entries(added: Seq<(Square, Piece)>, j: int, k: int)
    requires
        0 <= j < added.len(),
        0 <= k < added.len() - 1,
    ensures
        added.remove(j)[k] == (if k < j {
            added[k]
        } else {
            added[k + 1]
        }),
{
}

/// A placement update leaves the figurines well formed and in sync with the
/// new placement, and handles the drag bookkeeping: a cancelled drag leaves
/// no figurine dragging, an uncancelled one leaves the dragged figurine
/// untouched.
pub proof fn lemma_set_board_model(
    figs: Seq<Figurine>,
    b: Seq<Option<Piece>>,
    now: u64,
    past: u64,
)
    requires
        b.len() == 64,
        figs_wf(figs),
        figs_distinct(figs),
        figs_one_drag(figs),
        figs_times_le(figs, now),
        past <= now,
    ensures
        ({
            let r = set_board_figs(figs, b, now, past);
            let c = set_board_cancels_drag(figs, b, now);
            &&& figs_wf(r)
            &&& figs_distinct(r)
            &&& figs_one_drag(r)
            &&& figs_times_le(r, now)
            &&& synced(r, b)
            &&& (c ==> forall|k: int| 0 <= k < r.len() ==> !(#[trigger] r[k]).dragging)
            &&& (forall|k: int|
                0 <= k < r.len() && (#[trigger] r[k]).dragging ==> exists|m: int|
                    0 <= m < figs.len() && (#[trigger] figs[m]).dragging)
            &&& (!c ==> forall|f: Figurine| #[trigger]
                figs.contains(f) && f.live() && f.dragging ==> r.contains(f))
        }),
{
    let g = gc_model(figs);
    lemma_gc_model(figs, now);
    let a = added_upto(b, g, 64);
    lemma_added_upto(b, g, 64);
    assert forall|j1: int, j2: int| 0 <= j1 < j2 < a.len() implies (#[trigger] a[j1]).0 != (
    #[trigger] a[j2]).0 by {
        if a[j1].0 == a[j2].0 {
            assert(a[j1].0.index() < a[j2].0.index());
        }
    }
    lemma_diff_from(g, a, b, now, 0);
    let d = diff_from(g, a, b, now, 0);
    let ap = appended(d.1, now, past);
    let r = d.0 + ap;
    let c = d.2;
    assert(set_board_figs(figs, b, now, past) == r);
    assert(set_board_cancels_drag(figs, b, now) == c);
    assert forall|k: int| 0 <= k < ap.len() implies {
        let f = #[trigger] ap[k];
        &&& f == fresh_figurine(d.1[k].0, d.1[k].1, now, past)
        &&& f.wf()
        &&& f.live()
        &&& !f.dragging
        &&& f.times_le(now)
        &&& f.square == d.1[k].0
        &&& f.piece == d.1[k].1
        &&& b[f.square.index()] == Some(f.piece)
    } by {
        assert(d.1[k].0.wf());
    }
    assert forall|k: int| 0 <= k < r.len() implies r[k] == (if k < d.0.len() {
        d.0[k]
    } else {
        ap[k - d.0.len()]
    }) by {}
    // well-formedness of the concatenation
    assert(figs_wf(r));
    assert(figs_times_le(r, now));
    assert(figs_one_drag(r));
    assert(figs_distinct(r)) by {
        assert forall|k1: int, k2: int|
            0 <= k1 < k2 < r.len() && (#[trigger] r[k1]).live() && (#[trigger] r[k2]).live()
                && r[k1].square == r[k2].square implies false by {
            if k1 < d.0.len() && k2 >= d.0.len() {
                let e = d.1[k2 - d.0.len()];
                assert(b[r[k1].square.index()] == Some(r[k1].piece));
                assert(b[e.0.index()] == Some(e.1));
                assert(r[k1].piece == e.1);
                assert(live_match_at(d.0, e.0, e.1));
            } else if k1 >= d.0.len() {
                let j1 = k1 - d.0.len();
                let j2 = k2 - d.0.len();
                assert(d.1[j1].0 != d.1[j2].0);
            }
        }
    }
    // the live figurines now mirror the placement
    assert(synced(r, b)) by {
        assert forall|sq: Square|
            sq.wf() && #[trigger] b[sq.index()] is Some implies live_match_at(
            r,
            sq,
            b[sq.index()].unwrap(),
        ) by {
            let p = b[sq.index()].unwrap();
            if live_match_at(g, sq, p) {
                let m = choose|m: int|
                    0 <= m < g.len() && g[m].live() && g[m].square == sq && g[m].piece == p;
                assert(d.0[m] == g[m]);
                assert(r[m] == g[m]);
            } else {
                assert(a.contains((sq, p)));
                if live_match_at(d.0, sq, p) {
                    let m = choose|m: int|
                        0 <= m < d.0.len() && d.0[m].live() && d.0[m].square == sq && d.0[m].piece
                            == p;
                    assert(r[m] == d.0[m]);
                } else {
                    assert(d.1.contains((sq, p)));
                    let j = choose|j: int| 0 <= j < d.1.len() && d.1[j] == (sq, p);
                    assert(r[d.0.len() + j] == ap[j]);
                    assert(ap[j].live() && ap[j].square == sq && ap[j].piece == p);
                }
            }
        }
    }
    // drag bookkeeping
    assert forall|k: int| 0 <= k < r.len() && (#[trigger] r[k]).dragging implies exists|m: int|
        0 <= m < figs.len() && (#[trigger] figs[m]).dragging by {
        assert(k < d.0.len());
        assert(g[k].dragging);
        assert(figs.contains(g[k]));
        let m = choose|m: int| 0 <= m < figs.len() && figs[m] == g[k];
        assert(figs[m].dragging);
    }
    if !c {
        assert forall|f: Figurine| #[trigger]
            figs.contains(f) && f.live() && f.dragging implies r.contains(f) by {
            assert(g.contains(f));
            let m = choose|m: int| 0 <= m < g.len() && g[m] == f;
            assert(d.0[m].dragging == g[m].dragging);
            assert(d.0[m] == g[m]);
            assert(r[m] == f);
        }
    }
}

/// Two well-formed squares with the same index are the same square.
pub proof fn lemma_index_unique(a: Square, b: Square)
    requires
        a.wf(),
        b.wf(),
        a.index() == b.index(),
    ensures
        a == b,
{
    vstd::arithmetic::div_mod::lemma_fundamental_div_mod_converse(
        a.index(),
        8,
        a.rank as int,
        a.file as int,
    );
    vstd::arithmetic::div_mod::lemma_fundamental_div_mod_converse(
        b.index(),
        8,
        b.rank as int,
        b.file as int,
    );
}

/// For a well-formed square, recomposing it from its index gives it back.
pub proof fn lemma_square_of_index(idx: int)
    requires
        0 <= idx < 64,
    ensures
        0 <= idx % 8 < 8,
        0 <= idx / 8 < 8,
        crate::square::square_of_index(idx).index() == idx,
        crate::square::square_of_index(idx).wf(),
        crate::square::square_of_index(idx) == (Square {
            file: (idx % 8) as u8,
            rank: (idx / 8) as u8,
        }),
{
    vstd::arithmetic::div_mod::lemma_fundamental_div_mod(idx, 8);
}

} // verus!
