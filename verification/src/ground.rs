//! The board interaction controller: it owns the board state, the piece
//! animation layer, the annotation layer and the promotion chooser, routes
//! pointer events to them in priority order, validates completed gestures
//! against the legal-move list, and yields the user-move and shape events
//! the host consumes.

use vstd::prelude::*;

use crate::board::Board;
use crate::board_state::{any_move, any_promotion, has_exact_move, has_move, has_promotion, BoardState};
use crate::drawable::{brush_spec, commit_spec, DrawShape, Drawable};
use crate::geom::{pos_to_square, pos_to_square_spec, BoardPos, BoardRect};
use crate::pieces::{
    live_at, live_index, set_board_cancels_drag, set_board_figs, synced, Drag, Figurine, Pieces,
};
use crate::promotable::{cell_hit, promotion_roles, Hover, Promotable, Promoting};
use crate::square::{Color, Move, Role, Square};

verus! {

/// A position snapshot from the host: the placement, the legal-move list,
/// and the check, last-move and side-to-move hints.
#[derive(Clone, Debug)]
pub struct Pos {
    pub board: Board,
    pub legals: Vec<Move>,
    pub check: Option<Square>,
    pub last_move: Option<(Square, Square)>,
    pub turn: Option<Color>,
}

impl Pos {
    pub open spec fn wf(self) -> bool {
        self.board.wf()
    }

    /// A snapshot from its parts, with no last-move hint yet.
    pub fn new(board: Board, legals: Vec<Move>, check: Option<Square>, turn: Option<Color>) -> (p:
        Pos)
        requires
            board.wf(),
        ensures
            p == (Pos { board, legals, check, last_move: None::<(Square, Square)>, turn }),
            p.wf(),
    {
        Pos { board, legals, check, last_move: None, turn }
    }

    /// A snapshot of a bare placement, with no legality or check hints:
    /// for free editing.
    pub fn from_board(board: Board) -> (p: Pos)
        requires
            board.wf(),
        ensures
            p.board == board,
            p.legals@ == Seq::<Move>::empty(),
            p.check is None,
            p.last_move is None,
            p.turn is None,
            p.wf(),
    {
        Pos { board, legals: Vec::new(), check: None, last_move: None, turn: None }
    }

    /// Set the last-move highlight.
    pub fn set_last_move(&mut self, m: Option<(Square, Square)>)
        ensures
            *final(self) == (Pos { last_move: m, ..*old(self) }),
    {
        self.last_move = m;
    }

    pub fn with_last_move(self, m: (Square, Square)) -> (p: Pos)
        ensures
            p == (Pos { last_move: Some(m), ..self }),
    {
        Pos { last_move: Some(m), ..self }
    }

    /// Set the check highlight.
    pub fn set_check(&mut self, king: Option<Square>)
        ensures
            *final(self) == (Pos { check: king, ..*old(self) }),
    {
        self.check = king;
    }

    pub fn with_check(self, king: Square) -> (p: Pos)
        ensures
            p == (Pos { check: Some(king), ..self }),
    {
        Pos { check: Some(king), ..self }
    }

    /// Set the legal-move hints.
    pub fn set_legals(&mut self, legals: Vec<Move>)
        ensures
            *final(self) == (Pos { legals, ..*old(self) }),
    {
        self.legals = legals;
    }

    pub fn with_legals(self, legals: Vec<Move>) -> (p: Pos)
        ensures
            p == (Pos { legals, ..self }),
    {
        Pos { legals, ..self }
    }

    /// Set the side to move.
    pub fn set_turn(&mut self, turn: Option<Color>)
        ensures
            *final(self) == (Pos { turn, ..*old(self) }),
    {
        self.turn = turn;
    }

    pub fn with_turn(self, turn: Color) -> (p: Pos)
        ensures
            p == (Pos { turn: Some(turn), ..self }),
    {
        Pos { turn: Some(turn), ..self }
    }
}

/// The widget's message surface: what the host sends in, and what comes
/// back out of pointer handling.
#[derive(Clone, Debug)]
pub enum GroundMsg {
    /// Flip the board orientation.
    Flip,
    /// Set the board orientation.
    SetOrientation(Color),
    /// Set up a position snapshot.
    SetPos(Pos),
    /// Set up a bare placement, clearing all hints.
    SetBoard(Board),
    /// Out: the user completed a move.
    UserMove(Square, Square, Option<Role>),
    /// Out: shapes were added, toggled away or cleared.
    ShapesChanged(Vec<DrawShape>),
}

/// Whether a host message carries a well-formed payload.
pub open spec fn msg_wf(msg: GroundMsg) -> bool {
    match msg {
        GroundMsg::SetPos(pos) => pos.wf(),
        GroundMsg::SetBoard(board) => board.wf(),
        _ => true,
    }
}

/// The candidate move of a click with a selection in hand.
pub open spec fn click_candidate(
    selected: Option<Square>,
    button: u8,
    square: Option<Square>,
) -> Option<(Square, Square)> {
    if button == 1 {
        match (selected, square) {
            (Some(o), Some(d)) => if o != d {
                Some((o, d))
            } else {
                None
            },
            _ => None,
        }
    } else {
        None
    }
}

/// The candidate move of a finished drag.
pub open spec fn drag_candidate(drag: Option<Drag>, square: Option<Square>) -> Option<
    (Square, Square),
> {
    match drag {
        Some(dg) => {
            let dest = match square {
                Some(sq) => sq,
                None => dg.square,
            };
            if dest != dg.square {
                Some((dg.square, dest))
            } else {
                None
            }
        },
        None => None,
    }
}

/// The promoting side of a candidate: the color of the moving piece, or by
/// board half when no figurine stands on the origin.
pub open spec fn promo_color(figs: Seq<Figurine>, orig: Square, dest: Square) -> Color {
    if live_at(figs, orig) {
        figs[live_index(figs, orig)].piece.color
    } else if dest.rank >= 4 {
        Color::White
    } else {
        Color::Black
    }
}

/// What a validated candidate emits: the move as is when it is legal
/// without a promotion role; nothing when it needs a role (the chooser
/// takes over) or is not legal at all.
pub open spec fn resolved_move(legals: Seq<Move>, cand: Option<(Square, Square)>) -> Option<
    (Square, Square, Option<Role>),
> {
    match cand {
        Some((o, d)) => if has_promotion(legals, o, d) {
            None
        } else if has_move(legals, o, d) {
            Some((o, d, None))
        } else {
            None
        },
        None => None,
    }
}

/// The chooser a validated candidate opens, if its move needs a promotion
/// role.
pub open spec fn chooser_after(
    legals: Seq<Move>,
    cand: Option<(Square, Square)>,
    figs: Seq<Figurine>,
    now: u64,
) -> Option<Promoting> {
    match cand {
        Some((o, d)) => if has_promotion(legals, o, d) {
            Some(
                Promoting {
                    color: promo_color(figs, o, d),
                    orig: o,
                    dest: d,
                    hover: Some(Hover { square: d, since: now, elapsed: 0 }),
                },
            )
        } else {
            None
        },
        None => None,
    }
}

/// Figurine draw layer: fades below resting pieces below moving pieces.
pub open spec fn order_class(f: Figurine) -> int {
    if f.fading {
        0
    } else if f.elapsed >= 1000 {
        1
    } else {
        2
    }
}

/// Whether the promotion chooser hides the figurine (it substitutes for
/// the piece on the chooser's origin square).
pub open spec fn hidden_by(promoting: Option<Promoting>, f: Figurine) -> bool {
    match promoting {
        Some(p) => p.orig == f.square,
        None => false,
    }
}

/// The indices of the figurines of one draw layer among the first `n`,
/// visible ones only, in figurine order.
pub open spec fn order_idxs(
    figs: Seq<Figurine>,
    promoting: Option<Promoting>,
    c: int,
    n: int,
) -> Seq<usize>
    decreases n,
{
    if n <= 0 {
        Seq::empty()
    } else {
        let prev = order_idxs(figs, promoting, c, n - 1);
        if order_class(figs[n - 1]) == c && !hidden_by(promoting, figs[n - 1]) {
            prev.push((n - 1) as usize)
        } else {
            prev
        }
    }
}

/// The order in which figurines are drawn: fading ones first, then live
/// resting ones, then live animating ones on top; figurines hidden by the
/// promotion chooser are skipped.
pub open spec fn draw_order_spec(figs: Seq<Figurine>, promoting: Option<Promoting>) -> Seq<
    usize,
> {
    order_idxs(figs, promoting, 0, figs.len() as int) + order_idxs(
        figs,
        promoting,
        1,
        figs.len() as int,
    ) + order_idxs(figs, promoting, 2, figs.len() as int)
}

/// The chessboard widget's interaction state.
#[derive(Clone, Debug)]
pub struct Ground {
    pub board_state: BoardState,
    pub pieces: Pieces,
    pub drawable: Drawable,
    pub promotable: Promotable,
}

impl Ground {
    pub open spec fn wf(self) -> bool {
        &&& self.pieces.wf()
        &&& self.promotable.wf()
        &&& self.drawable.wf()
    }

    pub open spec fn times_le(self, now: u64) -> bool {
        self.pieces.times_le(now) && self.promotable.times_le(now)
    }

    /// A fresh widget showing the starting position, oriented for White,
    /// with no legal moves yet (the host supplies them with the first
    /// snapshot).
    pub fn new(now: u64) -> (g: Ground)
        ensures
            g.wf(),
            g.times_le(now),
            synced(g.pieces.figurines@, crate::board::starting_board()),
            g.board_state.orientation == Color::White,
            g.board_state.legals@ == Seq::<Move>::empty(),
            g.promotable.promoting is None,
            g.pieces.selected is None,
            g.pieces.drag is None,
            g.drawable.shapes@ == Seq::<DrawShape>::empty(),
    {
        Ground {
            board_state: BoardState::new(),
            pieces: Pieces::new(now),
            drawable: Drawable::new(),
            promotable: Promotable::new(),
        }
    }

    /// Handle a host message: a new snapshot or placement replaces the
    /// board and hints (force-cancelling a promotion choice the new legal
    /// moves no longer support), and orientation messages flip the view.
    /// Outbound message variants are ignored.
    pub fn update(&mut self, msg: GroundMsg, now: u64)
        requires
            old(self).wf(),
            old(self).times_le(now),
            msg_wf(msg),
        ensures
            final(self).wf(),
            final(self).times_le(now),
            msg matches GroundMsg::Flip ==> *final(self) == (Ground {
                board_state: BoardState {
                    orientation: old(self).board_state.orientation.flip(),
                    ..old(self).board_state
                },
                ..*old(self)
            }),
            msg matches GroundMsg::SetOrientation(c) ==> *final(self) == (Ground {
                board_state: BoardState { orientation: c, ..old(self).board_state },
                ..*old(self)
            }),
            msg matches GroundMsg::SetPos(pos) ==> {
                &&& final(self).pieces.figurines@ == set_board_figs(
                    old(self).pieces.figurines@,
                    pos.board@,
                    now,
                    old(self).pieces.past,
                )
                &&& synced(final(self).pieces.figurines@, pos.board@)
                &&& final(self).pieces.selected == old(self).pieces.selected
                &&& final(self).pieces.drag == (if set_board_cancels_drag(
                    old(self).pieces.figurines@,
                    pos.board@,
                    now,
                ) {
                    None::<Drag>
                } else {
                    old(self).pieces.drag
                })
                &&& final(self).board_state == (BoardState {
                    check: pos.check,
                    last_move: pos.last_move,
                    turn: pos.turn,
                    legals: pos.legals,
                    orientation: old(self).board_state.orientation,
                })
                &&& final(self).promotable.promoting == (match old(self).promotable.promoting {
                    Some(p) => if has_promotion(pos.legals@, p.orig, p.dest) {
                        Some(p)
                    } else {
                        None::<Promoting>
                    },
                    None => None::<Promoting>,
                })
                &&& final(self).drawable == old(self).drawable
            },
            msg matches GroundMsg::SetBoard(board) ==> {
                &&& final(self).pieces.figurines@ == set_board_figs(
                    old(self).pieces.figurines@,
                    board@,
                    now,
                    old(self).pieces.past,
                )
                &&& synced(final(self).pieces.figurines@, board@)
                &&& final(self).board_state == (BoardState {
                    check: None::<Square>,
                    last_move: None::<(Square, Square)>,
                    turn: None::<Color>,
                    legals: final(self).board_state.legals,
                    orientation: old(self).board_state.orientation,
                })
                &&& final(self).board_state.legals@ == Seq::<Move>::empty()
                &&& final(self).promotable.promoting is None
                &&& final(self).drawable == old(self).drawable
            },
            (msg matches GroundMsg::UserMove(a, b, c)) ==> *final(self) == *old(self),
            (msg matches GroundMsg::ShapesChanged(v)) ==> *final(self) == *old(self),
    {
        match msg {
            GroundMsg::Flip => {
                let o = self.board_state.orientation;
                self.board_state.orientation = o.other();
            },
            GroundMsg::SetOrientation(c) => {
                self.board_state.orientation = c;
            },
            GroundMsg::SetPos(pos) => {
                self.pieces.set_board(&pos.board, now);
                self.promotable.update(&pos.legals);
                self.board_state.check = pos.check;
                self.board_state.last_move = pos.last_move;
                self.board_state.turn = pos.turn;
                self.board_state.legals = pos.legals;
            },
            GroundMsg::SetBoard(board) => {
                self.pieces.set_board(&board, now);
                self.board_state.check = None;
                self.board_state.last_move = None;
                self.board_state.turn = None;
                self.board_state.legals = Vec::new();
                self.promotable.cancel();
            },
            GroundMsg::UserMove(_, _, _) => {},
            GroundMsg::ShapesChanged(_) => {},
        }
    }

    /// Validate a candidate move: a move that needs a promotion role opens
    /// the chooser instead of emitting; a legal role-free move is emitted;
    /// an illegal candidate is silently dropped.
    fn resolve_candidate(&mut self, orig: Square, dest: Square, now: u64) -> (um: Option<
        (Square, Square, Option<Role>),
    >)
        requires
            old(self).wf(),
            orig.wf(),
            dest.wf(),
        ensures
            final(self).wf(),
            final(self).board_state == old(self).board_state,
            final(self).pieces == old(self).pieces,
            final(self).drawable == old(self).drawable,
            um == resolved_move(old(self).board_state.legals@, Some((orig, dest))),
            um matches Some((o, d, pr)) ==> o == orig && d == dest && pr is None
                && has_exact_move(old(self).board_state.legals@, orig, dest, None),
            final(self).promotable.promoting == (match chooser_after(
                old(self).board_state.legals@,
                Some((orig, dest)),
                old(self).pieces.figurines@,
                now,
            ) {
                Some(pr) => Some(pr),
                None => old(self).promotable.promoting,
            }),
            forall|n2: u64| old(self).times_le(n2) && now <= n2 ==> final(self).times_le(n2),
    {
        if any_promotion(&self.board_state.legals, orig, dest) {
            let color = match self.pieces.figurine_at(orig) {
                Some(f) => {
                    proof {
                        let figs = self.pieces.figurines@;
                        let m = choose|m: int| 0 <= m < figs.len() && figs[m] == f;
                        crate::pieces::lemma_live_index_unique(figs, orig, m);
                    }
                    f.piece.color
                },
                None => if dest.rank >= 4 {
                    Color::White
                } else {
                    Color::Black
                },
            };
            self.promotable.start(color, orig, dest, now);
            None
        } else if any_move(&self.board_state.legals, orig, dest) {
            proof {
                let legals = self.board_state.legals@;
                let m = choose|m: int|
                    0 <= m < legals.len() && legals[m].from == orig && legals[m].to == dest;
                if legals[m].promotion is Some {
                    assert(has_promotion(legals, orig, dest));
                }
                assert(legals[m] == (Move { from: orig, to: dest, promotion: None }));
            }
            Some((orig, dest, None))
        } else {
            None
        }
    }

    /// Handle a button press. While a promotion choice is pending the
    /// chooser has first refusal and consumes the press entirely: a cell
    /// click emits the completed promotion move, anything else cancels.
    /// Otherwise the press feeds click-to-move selection (whose candidate
    /// is validated), begins a drag, and goes to the annotation layer.
    /// Returns the emitted user move and shape-change event, if any.
    pub fn button_press(&mut self, button: u8, pos: BoardPos, shift: bool, alt: bool, now: u64) -> (out: (
        Option<(Square, Square, Option<Role>)>,
        Option<Vec<DrawShape>>,
    ))
        requires
            old(self).wf(),
            old(self).times_le(now),
            pos.bounded(),
        ensures
            final(self).wf(),
            final(self).times_le(now),
            final(self).board_state == old(self).board_state,
            out.0 matches Some((o, d, pr)) ==> has_exact_move(
                old(self).board_state.legals@,
                o,
                d,
                pr,
            ),
            ({
                let square = pos_to_square_spec(pos);
                match old(self).promotable.promoting {
                    Some(p) => {
                        let hit = match square {
                            Some(sq) => cell_hit(
                                promotion_roles(old(self).board_state.legals@, p.orig, p.dest),
                                p.dest,
                                sq,
                            ),
                            None => None::<Role>,
                        };
                        &&& final(self).promotable.promoting is None
                        &&& final(self).pieces.selected == old(self).pieces.selected
                        &&& final(self).pieces.drag == old(self).pieces.drag
                        &&& final(self).drawable == old(self).drawable
                        &&& out.0 == (match hit {
                            Some(role) => Some((p.orig, p.dest, Some(role))),
                            None => None::<(Square, Square, Option<Role>)>,
                        })
                        &&& out.1 is None
                    },
                    None => {
                        let cand = click_candidate(old(self).pieces.selected, button, square);
                        &&& out.0 == resolved_move(old(self).board_state.legals@, cand)
                        &&& final(self).promotable.promoting == (match chooser_after(
                            old(self).board_state.legals@,
                            cand,
                            old(self).pieces.figurines@,
                            now,
                        ) {
                            Some(pr) => Some(pr),
                            None => None::<Promoting>,
                        })
                        &&& (button != 1 ==> final(self).pieces.selected is None)
                        &&& (button == 1 ==> final(self).pieces.selected == (match (
                        old(self).pieces.selected,
                        square,
                        ) {
                            (Some(o), Some(d)) => None::<Square>,
                            _ => match square {
                                Some(sq) => if live_at(old(self).pieces.figurines@, sq) {
                                    Some(sq)
                                } else {
                                    None::<Square>
                                },
                                None => None::<Square>,
                            },
                        }))
                        &&& ((out.1 is Some) == (old(self).drawable.enabled && button == 1
                            && old(self).drawable.erase_on_click && old(
                            self,
                        ).drawable.shapes@.len() > 0))
                        &&& (out.1 matches Some(v) ==> v@ == Seq::<DrawShape>::empty()
                            && final(self).drawable.shapes@ == Seq::<DrawShape>::empty())
                        &&& (old(self).drawable.enabled && button == 3
                            ==> final(self).drawable.drawing == (match square {
                            Some(sq) => Some(
                                DrawShape { orig: sq, dest: sq, brush: brush_spec(shift, alt) },
                            ),
                            None => None::<DrawShape>,
                        }) && final(self).drawable.shapes == old(self).drawable.shapes)
                        &&& ({
                            let begins = button == 1 && old(self).pieces.drag is None
                                && square is Some && live_at(
                                old(self).pieces.figurines@,
                                square.unwrap(),
                            );
                            if begins {
                                let k = live_index(old(self).pieces.figurines@, square.unwrap());
                                &&& final(self).pieces.figurines@ == old(
                                    self,
                                ).pieces.figurines@.update(
                                    k,
                                    Figurine {
                                        dragging: true,
                                        ..old(self).pieces.figurines@[k]
                                    },
                                )
                                &&& final(self).pieces.drag == Some(
                                    Drag {
                                        square: square.unwrap(),
                                        piece: old(self).pieces.figurines@[k].piece,
                                        start: pos,
                                        pos: pos,
                                        threshold: false,
                                    },
                                )
                            } else {
                                final(self).pieces.figurines == old(self).pieces.figurines
                                    && final(self).pieces.drag == old(self).pieces.drag
                            }
                        })
                    },
                }
            }),
    {
        let square = pos_to_square(pos);
        let was_promoting = self.promotable.promoting.is_some();
        if was_promoting {
            // first refusal: the chooser takes the whole press, whether it
            // resolved to a role or cancelled
            let (_chose, emit) = self.promotable.mouse_down(
                &mut self.pieces,
                square,
                &self.board_state.legals,
                now,
            );
            let um = match emit {
                Some((o, d, role)) => Some((o, d, Some(role))),
                None => None,
            };
            return (um, None);
        }
        let cand = self.pieces.selection_mouse_down(button, square);
        let um = match cand {
            Some((o, d)) => self.resolve_candidate(o, d, now),
            None => None,
        };
        self.pieces.drag_mouse_down(button, square, pos);
        let sc = self.drawable.mouse_down(button, shift, alt, square);
        (um, sc)
    }

    /// Handle a button release: a finished drag yields a candidate move,
    /// which is validated like a click move (emit, open the chooser, or
    /// drop); the annotation layer commits its in-progress shape
    /// regardless. Returns the emitted user move and shape-change event.
    pub fn button_release(&mut self, pos: BoardPos, now: u64) -> (out: (
        Option<(Square, Square, Option<Role>)>,
        Option<Vec<DrawShape>>,
    ))
        requires
            old(self).wf(),
            old(self).times_le(now),
            pos.bounded(),
        ensures
            final(self).wf(),
            final(self).times_le(now),
            final(self).board_state == old(self).board_state,
            out.0 matches Some((o, d, pr)) ==> has_exact_move(
                old(self).board_state.legals@,
                o,
                d,
                pr,
            ),
            ({
                let square = pos_to_square_spec(pos);
                let cand = drag_candidate(old(self).pieces.drag, square);
                &&& out.0 == resolved_move(old(self).board_state.legals@, cand)
                &&& final(self).promotable.promoting == (match chooser_after(
                    old(self).board_state.legals@,
                    cand,
                    old(self).pieces.figurines@,
                    now,
                ) {
                    Some(pr) => Some(pr),
                    None => old(self).promotable.promoting,
                })
                &&& (match old(self).pieces.drag {
                    None => final(self).pieces == old(self).pieces,
                    Some(dg) => {
                        let k = crate::pieces::dragging_idx(old(self).pieces.figurines@);
                        let dest = match square {
                            Some(sq) => sq,
                            None => dg.square,
                        };
                        &&& final(self).pieces.drag is None
                        &&& final(self).pieces.figurines@ == old(self).pieces.figurines@.update(
                            k,
                            Figurine {
                                dragging: false,
                                last_drag: now,
                                ..old(self).pieces.figurines@[k]
                            },
                        )
                        &&& final(self).pieces.selected == (if dest != dg.square {
                            None::<Square>
                        } else {
                            old(self).pieces.selected
                        })
                    },
                })
                &&& (match old(self).drawable.drawing {
                    None => final(self).drawable.shapes == old(self).drawable.shapes && out.1
                        is None,
                    Some(d) => {
                        if old(self).drawable.enabled {
                            let s = DrawShape {
                                dest: match square {
                                    Some(sq) => sq,
                                    None => d.orig,
                                },
                                ..d
                            };
                            &&& final(self).drawable.shapes@ == commit_spec(
                                old(self).drawable.shapes@,
                                s,
                            )
                            &&& (out.1 matches Some(v) && v@ == final(self).drawable.shapes@)
                        } else {
                            final(self).drawable.shapes == old(self).drawable.shapes && out.1
                                is None
                        }
                    },
                })
                &&& final(self).drawable.drawing is None
            }),
    {
        let square = pos_to_square(pos);
        let ghost figs0 = self.pieces.figurines@;
        let cand = self.pieces.drag_mouse_up(square, now);
        proof {
            // clearing the drag flags moves no figurine: occupancy, and so
            // the promoting color, is judged the same before and after
            let figs1 = self.pieces.figurines@;
            match cand {
                Some((o, d)) => {
                    assert(live_at(figs1, o) == live_at(figs0, o)) by {
                        if live_at(figs1, o) {
                            let w = choose|w: int|
                                0 <= w < figs1.len() && figs1[w].live() && figs1[w].square == o;
                            assert(figs0[w].live() && figs0[w].square == o);
                        }
                        if live_at(figs0, o) {
                            let w = choose|w: int|
                                0 <= w < figs0.len() && figs0[w].live() && figs0[w].square == o;
                            assert(figs1[w].live() && figs1[w].square == o);
                        }
                    }
                    if live_at(figs0, o) {
                        let k0 = live_index(figs0, o);
                        assert(figs0[k0].live() && figs0[k0].square == o);
                        assert(figs1[k0].live() && figs1[k0].square == o);
                        crate::pieces::lemma_live_index_unique(figs1, o, k0);
                        assert(promo_color(figs1, o, d) == promo_color(figs0, o, d));
                    }
                },
                None => {},
            }
        }
        let um = match cand {
            Some((o, d)) => self.resolve_candidate(o, d, now),
            None => None,
        };
        let sc = self.drawable.mouse_up(square);
        (um, sc)
    }

    /// Handle pointer motion: the promotion chooser updates its hover, a
    /// drag in flight tracks the pointer and its threshold, and the
    /// annotation layer extends its in-progress shape. Returns the
    /// chooser's redraw squares and the drag's old and new positions.
    pub fn motion(&mut self, pos: BoardPos, size: u32, now: u64) -> (out: (
        Option<(Option<Square>, Option<Square>)>,
        Option<(BoardPos, BoardPos)>,
    ))
        requires
            old(self).wf(),
            old(self).times_le(now),
            pos.bounded(),
        ensures
            final(self).wf(),
            final(self).times_le(now),
            final(self).board_state == old(self).board_state,
            final(self).pieces.figurines == old(self).pieces.figurines,
            ({
                let square = pos_to_square_spec(pos);
                &&& (match old(self).promotable.promoting {
                    None => final(self).promotable == old(self).promotable && out.0 is None,
                    Some(p) => {
                        let on_file = match square {
                            Some(sq) => if sq.file == p.dest.file {
                                Some(sq)
                            } else {
                                None::<Square>
                            },
                            None => None::<Square>,
                        };
                        let prev = match p.hover {
                            Some(h) => Some(h.square),
                            None => None::<Square>,
                        };
                        if on_file == prev {
                            final(self).promotable == old(self).promotable && out.0 is None
                        } else {
                            final(self).promotable.promoting == Some(
                                Promoting {
                                    hover: match on_file {
                                        Some(sq) => Some(
                                            Hover { square: sq, since: now, elapsed: 0 },
                                        ),
                                        None => None::<Hover>,
                                    },
                                    ..p
                                },
                            ) && out.0 == Some((prev, on_file))
                        }
                    },
                })
                &&& (match old(self).pieces.drag {
                    None => final(self).pieces == old(self).pieces && out.1 is None,
                    Some(d) => {
                        let thr = d.threshold || crate::geom::threshold_crossed_spec(
                            d.start,
                            pos,
                            size as int,
                        );
                        &&& final(self).pieces.drag == Some(Drag { pos, threshold: thr, ..d })
                        &&& final(self).pieces.selected == (if thr {
                            Some(d.square)
                        } else {
                            old(self).pieces.selected
                        })
                        &&& out.1 == Some((d.pos, pos))
                    },
                })
                &&& final(self).drawable.drawing == (match old(self).drawable.drawing {
                    Some(d) => Some(
                        DrawShape {
                            dest: match square {
                                Some(sq) => sq,
                                None => d.orig,
                            },
                            ..d
                        },
                    ),
                    None => None::<DrawShape>,
                })
                &&& final(self).drawable.shapes == old(self).drawable.shapes
            }),
    {
        let square = pos_to_square(pos);
        let pr = self.promotable.mouse_move(square, now);
        let dm = self.pieces.drag_mouse_move(pos, size);
        self.drawable.mouse_move(square);
        (pr, dm)
    }

    /// Advance all animation clocks to `now`, collecting the board cells
    /// to redraw.
    pub fn queue_animation(&mut self, now: u64) -> (inval: Vec<BoardRect>)
        requires
            old(self).wf(),
            old(self).times_le(now),
        ensures
            final(self).wf(),
            final(self).times_le(now),
            final(self).board_state == old(self).board_state,
            final(self).drawable == old(self).drawable,
            final(self).pieces.selected == old(self).pieces.selected,
            final(self).pieces.drag == old(self).pieces.drag,
            final(self).pieces.figurines@.len() == old(self).pieces.figurines@.len(),
            forall|k: int|
                0 <= k < final(self).pieces.figurines@.len() ==> {
                    let f0 = old(self).pieces.figurines@[k];
                    #[trigger] final(self).pieces.figurines@[k] == (if f0.elapsed >= 1000 {
                        f0
                    } else {
                        Figurine {
                            elapsed: Figurine::tick_elapsed(f0.time, now),
                            ..f0
                        }
                    })
                },
            forall|j: int| 0 <= j < inval@.len() ==> (#[trigger] inval@[j]).bounded(),
            inval@ == crate::pieces::anim_rects(old(self).pieces.figurines@, now) + (match old(
                self,
            ).promotable.promoting {
                Some(p) => match p.hover {
                    Some(h) => if h.elapsed < 1000 {
                        seq![crate::geom::square_rect_spec(h.square)]
                    } else {
                        Seq::<BoardRect>::empty()
                    },
                    None => Seq::<BoardRect>::empty(),
                },
                None => Seq::<BoardRect>::empty(),
            }),
            final(self).promotable.promoting == (match old(self).promotable.promoting {
                Some(p) => match p.hover {
                    Some(h) => Some(
                        Promoting {
                            hover: Some(
                                Hover {
                                    elapsed: if now - h.since >= crate::promotable::HOVER_MS {
                                        1000
                                    } else {
                                        (now - h.since) as u32
                                    },
                                    ..h
                                },
                            ),
                            ..p
                        },
                    ),
                    None => Some(p),
                },
                None => None::<Promoting>,
            }),
    {
        let mut inval = self.pieces.queue_animation(now);
        if let Some(r) = self.promotable.queue_animation(now) {
            inval.push(r);
            proof {
                match old(self).promotable.promoting {
                    Some(p) => match p.hover {
                        Some(h) => {
                            assert(r == crate::geom::square_rect_spec(h.square));
                            assert(h.square.wf());
                        },
                        None => {},
                    },
                    None => {},
                }
            }
        }
        inval
    }

    /// Whether any animation is still running, so the host knows to
    /// schedule another repaint tick.
    pub fn is_animating(&self) -> (b: bool)
        ensures
            b == ((exists|i: int|
                0 <= i < self.pieces.figurines@.len() && (
                #[trigger] self.pieces.figurines@[i]).elapsed < 1000) || (
            match self.promotable.promoting {
                Some(p) => match p.hover {
                    Some(h) => h.elapsed < 1000,
                    None => false,
                },
                None => false,
            })),
    {
        let mut i: usize = 0;
        while i < self.pieces.figurines.len()
            invariant
                i <= self.pieces.figurines@.len(),
                forall|j: int|
                    0 <= j < i ==> (#[trigger] self.pieces.figurines@[j]).elapsed >= 1000,
            decreases self.pieces.figurines@.len() - i,
        {
            if self.pieces.figurines[i].elapsed < 1000 {
                return true;
            }
            i = i + 1;
        }
        match self.promotable.promoting {
            Some(p) => match p.hover {
                Some(h) => h.elapsed < 1000,
                None => false,
            },
            None => false,
        }
    }

    /// The order in which to draw the figurines: fading captures first,
    /// then live resting pieces, then live animating pieces on top, each
    /// layer in figurine order; figurines the promotion chooser hides are
    /// left out entirely.
    pub fn draw_order(&self) -> (order: Vec<usize>)
        ensures
            order@ == draw_order_spec(self.pieces.figurines@, self.promotable.promoting),
    {
        let mut order: Vec<usize> = Vec::new();
        push_layer(&mut order, &self.pieces.figurines, self.promotable.promoting, 0);
        push_layer(&mut order, &self.pieces.figurines, self.promotable.promoting, 1);
        push_layer(&mut order, &self.pieces.figurines, self.promotable.promoting, 2);
        proof {
            assert(order@ =~= draw_order_spec(
                self.pieces.figurines@,
                self.promotable.promoting,
            ));
        }
        order
    }
}

/// Append the indices of one draw layer, in figurine order.
fn push_layer(
    order: &mut Vec<usize>,
    figs: &Vec<Figurine>,
    promoting: Option<Promoting>,
    c: u8,
)
    ensures
        final(order)@ == old(order)@ + order_idxs(figs@, promoting, c as int, figs@.len() as int),
{
    let mut i: usize = 0;
    while i < figs.len()
        invariant
            i <= figs@.len(),
            order@ == old(order)@ + order_idxs(figs@, promoting, c as int, i as int),
        decreases figs@.len() - i,
    {
        let f = figs[i];
        let cls: u8 = if f.fading {
            0
        } else if f.elapsed >= 1000 {
            1
        } else {
            2
        };
        let hidden: bool = match promoting {
            Some(p) => p.orig == f.square,
            None => false,
        };
        if cls == c && !hidden {
            order.push(i);
        }
        i = i + 1;
    }
    proof {
        assert(order@ =~= old(order)@ + order_idxs(
            figs@,
            promoting,
            c as int,
            figs@.len() as int,
        ));
    }
}

} // verus!
