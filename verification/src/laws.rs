//! The behavioral laws of the animation layer, proved once and for all over
//! the functional models that the executable functions are specified
//! against: diff matching moves a piece instead of recreating it, captures
//! fade out and are collected only once invisible, feeding the same
//! placement twice changes nothing, and a motionless press never counts as
//! a drag.

use vstd::prelude::*;

use crate::geom::{square_center, threshold_crossed_spec, BoardPos};
use crate::pieces::{
    added_upto, best_match, best_match_from, checkpoint, diff_from, diff_removed, figs_distinct,
    gc_keep, gc_model, lemma_added_upto, lemma_gc_model, lemma_index_unique,
    lemma_live_index_unique, lemma_square_of_index, live_index, live_match_at, set_board_figs,
    set_board_cancels_drag, synced, Figurine, DRAG_SNAP_MS,
};
use crate::square::{Piece, Square};

verus! {

/// The diff pass is the identity when the placement still shows every live
/// figurine's piece on its square.
proof fn lemma_diff_noop(
    figs: Seq<Figurine>,
    added: Seq<(Square, Piece)>,
    b: Seq<Option<Piece>>,
    now: u64,
    i: int,
)
    requires
        0 <= i <= figs.len(),
        forall|k: int| i <= k < figs.len() ==> !diff_removed(#[trigger] figs[k], b),
    ensures
        diff_from(figs, added, b, now, i) == (figs, added, false),
    decreases figs.len() - i,
{
    if i < figs.len() {
        lemma_diff_noop(figs, added, b, now, i + 1);
    }
}

/// The diff pass never changes figurines before its start index, and never
/// changes the count.
proof fn lemma_diff_prefix(
    figs: Seq<Figurine>,
    added: Seq<(Square, Piece)>,
    b: Seq<Option<Piece>>,
    now: u64,
    i: int,
)
    requires
        0 <= i <= figs.len(),
    ensures
        diff_from(figs, added, b, now, i).0.len() == figs.len(),
        forall|k: int| 0 <= k < i ==> #[trigger] diff_from(figs, added, b, now, i).0[k] == figs[k],
    decreases figs.len() - i,
{
    if i < figs.len() {
        let f = figs[i];
        if !diff_removed(f, b) {
            lemma_diff_prefix(figs, added, b, now, i + 1);
        } else {
            let f1 = checkpoint(f, now);
            match best_match(added, f.piece, f.square) {
                Some(j) => {
                    let dest = added[j].0;
                    let f2 = Figurine {
                        square: dest,
                        start: if now - f.last_drag < DRAG_SNAP_MS {
                            square_center(dest)
                        } else {
                            f1.start
                        },
                        ..f1
                    };
                    lemma_diff_prefix(figs.update(i, f2), added.remove(j), b, now, i + 1);
                },
                None => {
                    let f2 = Figurine { fading: true, replaced: b[f.square.index()] is Some, ..f1 };
                    lemma_diff_prefix(figs.update(i, f2), added, b, now, i + 1);
                },
            }
        }
    }
}

/// No added entry holding piece `p` means no match for `p`.
proof fn lemma_best_match_none_from(
    added: Seq<(Square, Piece)>,
    p: Piece,
    from: Square,
    i: int,
)
    requires
        forall|k: int| 0 <= k < added.len() ==> (#[trigger] added[k]).1 != p,
    ensures
        best_match_from(added, p, from, i, None) is None,
    decreases added.len() - i,
{
    if 0 <= i < added.len() {
        lemma_best_match_none_from(added, p, from, i + 1);
    }
}

/// Collection is a filter: it keeps exactly the figurines that are not yet
/// invisible, in order. A fading figurine is dropped precisely when its
/// opacity has reached zero.
pub proof fn lemma_gc_is_filter(figs: Seq<Figurine>)
    ensures
        gc_model(figs) == figs.filter(|f: Figurine| gc_keep(f)),
    decreases figs.len(),
{
    reveal(Seq::filter);
    if figs.len() > 0 {
        lemma_gc_is_filter(figs.drop_last());
    }
}

/// Collection is the identity while nothing has faded to zero.
pub proof fn lemma_gc_noop(figs: Seq<Figurine>)
    requires
        forall|k: int| 0 <= k < figs.len() ==> gc_keep(#[trigger] figs[k]),
    ensures
        gc_model(figs) == figs,
    decreases figs.len(),
{
    if figs.len() > 0 {
        assert(forall|k: int|
            0 <= k < figs.drop_last().len() ==> gc_keep(#[trigger] figs.drop_last()[k]));
        lemma_gc_noop(figs.drop_last());
        assert(gc_model(figs) =~= figs);
    }
}

/// A placement already represented contributes no added entries.
proof fn lemma_added_none(b: Seq<Option<Piece>>, figs: Seq<Figurine>, n: int)
    requires
        b.len() == 64,
        0 <= n <= 64,
        forall|sq: Square|
            sq.wf() && #[trigger] b[sq.index()] is Some ==> live_match_at(
                figs,
                sq,
                b[sq.index()].unwrap(),
            ),
    ensures
        added_upto(b, figs, n) == Seq::<(Square, Piece)>::empty(),
    decreases n,
{
    if n > 0 {
        lemma_added_none(b, figs, n - 1);
        lemma_square_of_index(n - 1);
    }
}

/// A placement represented everywhere but on one square contributes exactly
/// that square as an added entry.
proof fn lemma_added_single(
    b: Seq<Option<Piece>>,
    figs: Seq<Figurine>,
    n: int,
    bsq: Square,
    p: Piece,
)
    requires
        b.len() == 64,
        0 <= n <= 64,
        bsq.wf(),
        b[bsq.index()] == Some(p),
        !live_match_at(figs, bsq, p),
        forall|sq: Square|
            sq.wf() && sq != bsq && #[trigger] b[sq.index()] is Some ==> live_match_at(
                figs,
                sq,
                b[sq.index()].unwrap(),
            ),
    ensures
        added_upto(b, figs, n) == (if bsq.index() < n {
            seq![(bsq, p)]
        } else {
            Seq::<(Square, Piece)>::empty()
        }),
    decreases n,
{
    if n > 0 {
        lemma_added_single(b, figs, n - 1, bsq, p);
        lemma_square_of_index(n - 1);
        let sq = crate::square::square_of_index(n - 1);
        if sq == bsq {
            assert(added_upto(b, figs, n) =~= seq![(bsq, p)]);
        } else {
            if bsq.index() == n - 1 {
                lemma_index_unique(sq, bsq);
            }
        }
    }
}

/// Feeding the same placement again is idempotent: no figurine is created,
/// none is moved or restarted, no drag is cancelled; the update only drops
/// fade-outs that have already completed.
pub proof fn lemma_set_board_idempotent(
    figs: Seq<Figurine>,
    b: Seq<Option<Piece>>,
    now: u64,
    past: u64,
)
    requires
        b.len() == 64,
        synced(figs, b),
    ensures
        set_board_figs(figs, b, now, past) == gc_model(figs),
        !set_board_cancels_drag(figs, b, now),
{
    let g = gc_model(figs);
    lemma_gc_model(figs, now);
    assert forall|sq: Square| sq.wf() && #[trigger] b[sq.index()] is Some implies live_match_at(
        g,
        sq,
        b[sq.index()].unwrap(),
    ) by {
        assert(live_match_at(figs, sq, b[sq.index()].unwrap()));
    }
    lemma_added_none(b, g, 64);
    assert forall|k: int| 0 <= k < g.len() implies !diff_removed(#[trigger] g[k], b) by {
        if g[k].live() {
            assert(figs.contains(g[k]));
            let m = choose|m: int| 0 <= m < figs.len() && figs[m] == g[k];
            assert(b[figs[m].square.index()] == Some(figs[m].piece));
        }
    }
    lemma_diff_noop(g, Seq::empty(), b, now, 0);
    assert(set_board_figs(figs, b, now, past) =~= g);
}

/// Diff matching correctness: when the new placement differs from the
/// represented one by a single piece moving from `a` to an empty square
/// `bsq`, the update moves exactly one figurine — the one on `a` — to
/// `bsq`, continuously animating from its current rendered position (or
/// snapping if it was just dropped there by hand); nothing is created,
/// nothing destroyed beyond completed fades, and every other figurine is
/// untouched.
pub proof fn lemma_single_move_matches(
    figs: Seq<Figurine>,
    b1: Seq<Option<Piece>>,
    b2: Seq<Option<Piece>>,
    a: Square,
    bsq: Square,
    p: Piece,
    now: u64,
    past: u64,
)
    requires
        b1.len() == 64,
        b2.len() == 64,
        crate::pieces::figs_wf(figs),
        figs_distinct(figs),
        synced(figs, b1),
        a.wf(),
        bsq.wf(),
        a != bsq,
        b1[a.index()] == Some(p),
        b1[bsq.index()] is None,
        b2 == b1.update(a.index(), None::<Piece>).update(bsq.index(), Some(p)),
    ensures
        ({
            let g = gc_model(figs);
            let i = live_index(g, a);
            let r = set_board_figs(figs, b2, now, past);
            &&& 0 <= i < g.len()
            &&& g[i].live() && g[i].square == a && g[i].piece == p
            &&& r == g.update(
                i,
                Figurine {
                    square: bsq,
                    start: if now - g[i].last_drag < DRAG_SNAP_MS {
                        square_center(bsq)
                    } else {
                        g[i].pos_spec()
                    },
                    elapsed: 0,
                    time: now,
                    dragging: false,
                    ..g[i]
                },
            )
            &&& set_board_cancels_drag(figs, b2, now) == g[i].dragging
        }),
{
    let g = gc_model(figs);
    lemma_gc_model(figs, now);
    assert(figs_distinct(g));
    assert(crate::pieces::figs_wf(g));
    lemma_index_unique_all();
    // the unique live figurine on `a`
    assert(live_match_at(figs, a, p));
    assert(live_match_at(g, a, p));
    let w = choose|w: int|
        0 <= w < g.len() && g[w].live() && g[w].square == a && g[w].piece == p;
    lemma_live_index_unique(g, a, w);
    let i = live_index(g, a);
    assert(i == w);
    // every live figurine of `g` matches `b1` on its square
    assert forall|k: int| 0 <= k < g.len() && (#[trigger] g[k]).live() implies b1[g[k].square.index()]
        == Some(g[k].piece) by {
        assert(figs.contains(g[k]));
        let m = choose|m: int| 0 <= m < figs.len() && figs[m] == g[k];
        assert(b1[figs[m].square.index()] == Some(figs[m].piece));
    }
    // the added list is exactly the vacated destination
    assert(!live_match_at(g, bsq, p)) by {
        if live_match_at(g, bsq, p) {
            let m = choose|m: int|
                0 <= m < g.len() && g[m].live() && g[m].square == bsq && g[m].piece == p;
            assert(b1[bsq.index()] == Some(p));
        }
    }
    assert forall|sq: Square|
        sq.wf() && sq != bsq && #[trigger] b2[sq.index()] is Some implies live_match_at(
        g,
        sq,
        b2[sq.index()].unwrap(),
    ) by {
        if sq.index() == bsq.index() {
            lemma_index_unique(sq, bsq);
        } else if sq.index() == a.index() {
            lemma_index_unique(sq, a);
            assert(false);
        } else {
            assert(b2[sq.index()] == b1[sq.index()]);
            assert(live_match_at(figs, sq, b1[sq.index()].unwrap()));
        }
    }
    lemma_added_single(b2, g, 64, bsq, p);
    let a0 = seq![(bsq, p)];
    // every live figurine except the one on `a` still matches `b2`
    assert forall|k: int| 0 <= k < g.len() && k != i implies !diff_removed(#[trigger] g[k], b2) by {
        if g[k].live() {
            assert(g[k].square != a) by {
                if g[k].square == a {
                    if k < i {
                        assert(!(g[k].live() && g[i].live()) || g[k].square != g[i].square);
                    } else {
                        assert(!(g[i].live() && g[k].live()) || g[i].square != g[k].square);
                    }
                    assert(false);
                }
            }
            assert(g[k].square != bsq) by {
                if g[k].square == bsq {
                    assert(live_match_at(g, bsq, g[k].piece)) by {
                        assert(b1[bsq.index()] == Some(g[k].piece));
                    }
                    assert(false);
                }
            }
            assert(g[k].square.index() != a.index() && g[k].square.index() != bsq.index()) by {
                if g[k].square.index() == a.index() {
                    lemma_index_unique(g[k].square, a);
                }
                if g[k].square.index() == bsq.index() {
                    lemma_index_unique(g[k].square, bsq);
                }
            }
            assert(b2[g[k].square.index()] == b1[g[k].square.index()]);
        }
    }
    // walk the diff: skip to `i`, move the figurine, skip the rest
    lemma_diff_step_to(g, a0, b2, now, 0, i);
    assert(diff_removed(g[i], b2)) by {
        assert(b2[a.index()] is None) by {
            if a.index() == bsq.index() {
                lemma_index_unique(a, bsq);
            }
        }
    }
    // the singleton added list matches the vanished piece
    assert(a0[0] == (bsq, p));
    assert(best_match_from(a0, p, a, 1, Some(0int)) == Some(0int));
    assert(best_match(a0, p, a) == Some(0int));
    let f1 = checkpoint(g[i], now);
    let f2 = Figurine {
        square: bsq,
        start: if now - g[i].last_drag < DRAG_SNAP_MS {
            square_center(bsq)
        } else {
            f1.start
        },
        ..f1
    };
    let g2 = g.update(i, f2);
    assert(a0.remove(0) =~= Seq::<(Square, Piece)>::empty());
    assert forall|k: int| i + 1 <= k < g2.len() implies !diff_removed(#[trigger] g2[k], b2) by {
        assert(g2[k] == g[k]);
    }
    lemma_diff_noop(g2, a0.remove(0), b2, now, i + 1);
    assert(diff_from(g, a0, b2, now, i) == (g2, a0.remove(0), g[i].dragging || false));
    assert(set_board_figs(figs, b2, now, past) =~= g2);
}

/// Stepping the diff over figurines it does not remove changes nothing.
proof fn lemma_diff_step_to(
    figs: Seq<Figurine>,
    added: Seq<(Square, Piece)>,
    b: Seq<Option<Piece>>,
    now: u64,
    i: int,
    j: int,
)
    requires
        0 <= i <= j <= figs.len(),
        forall|k: int| i <= k < j ==> !diff_removed(#[trigger] figs[k], b),
    ensures
        diff_from(figs, added, b, now, i) == diff_from(figs, added, b, now, j),
    decreases j - i,
{
    if i < j {
        lemma_diff_step_to(figs, added, b, now, i + 1, j);
    }
}

/// Index equality of well-formed squares is square equality (helper shape
/// usable inside quantified proofs).
proof fn lemma_index_unique_all()
    ensures
        forall|s1: Square, s2: Square|
            s1.wf() && s2.wf() && #[trigger] s1.index() == #[trigger] s2.index() ==> s1 == s2,
{
    assert forall|s1: Square, s2: Square|
        s1.wf() && s2.wf() && #[trigger] s1.index() == #[trigger] s2.index() implies s1 == s2 by {
        lemma_index_unique(s1, s2);
    }
}

/// Capture fade invariant: when a live figurine's piece vanishes from its
/// square and reappears nowhere new, the update marks exactly that figurine
/// fading — frozen at its rendered position, `replaced` recording whether
/// its square is now occupied by something else — instead of deleting it.
pub proof fn lemma_capture_fades(
    figs: Seq<Figurine>,
    b2: Seq<Option<Piece>>,
    i: int,
    now: u64,
    past: u64,
)
    requires
        b2.len() == 64,
        0 <= i < figs.len(),
        figs[i].live(),
        forall|k: int| 0 <= k < figs.len() ==> gc_keep(#[trigger] figs[k]),
        b2[figs[i].square.index()] != Some(figs[i].piece),
        forall|sq: Square|
            sq.wf() && #[trigger] b2[sq.index()] == Some(figs[i].piece) ==> live_match_at(
                figs,
                sq,
                figs[i].piece,
            ),
    ensures
        ({
            let r = set_board_figs(figs, b2, now, past);
            &&& r.len() >= figs.len()
            &&& r[i] == (Figurine {
                fading: true,
                replaced: b2[figs[i].square.index()] is Some,
                start: figs[i].pos_spec(),
                elapsed: 0,
                time: now,
                dragging: false,
                ..figs[i]
            })
        }),
{
    lemma_gc_noop(figs);
    let a0 = added_upto(b2, figs, 64);
    lemma_added_upto(b2, figs, 64);
    assert forall|k: int| 0 <= k < a0.len() implies (#[trigger] a0[k]).1 != figs[i].piece by {
        if a0[k].1 == figs[i].piece {
            assert(live_match_at(figs, a0[k].0, figs[i].piece));
        }
    }
    lemma_diff_fades_at(figs, a0, b2, now, 0, i);
    lemma_diff_prefix(figs, a0, b2, now, 0);
    let d = diff_from(figs, a0, b2, now, 0);
    assert(set_board_figs(figs, b2, now, past)[i] == d.0[i]);
}

/// A figurine the placement removed, whose piece no added entry offers,
/// ends the diff pass fading in place.
proof fn lemma_diff_fades_at(
    figs: Seq<Figurine>,
    added: Seq<(Square, Piece)>,
    b: Seq<Option<Piece>>,
    now: u64,
    j: int,
    i: int,
)
    requires
        0 <= j <= i < figs.len(),
        figs[i].live(),
        diff_removed(figs[i], b),
        forall|k: int| 0 <= k < added.len() ==> (#[trigger] added[k]).1 != figs[i].piece,
    ensures
        diff_from(figs, added, b, now, j).0[i] == (Figurine {
            fading: true,
            replaced: b[figs[i].square.index()] is Some,
            start: figs[i].pos_spec(),
            elapsed: 0,
            time: now,
            dragging: false,
            ..figs[i]
        }),
    decreases figs.len() - j,
{
    let f = figs[j];
    if j == i {
        lemma_best_match_none_from(added, f.piece, f.square, 0);
        let f1 = checkpoint(f, now);
        let f2 = Figurine { fading: true, replaced: b[f.square.index()] is Some, ..f1 };
        lemma_diff_prefix(figs.update(i, f2), added, b, now, i + 1);
    } else {
        if !diff_removed(f, b) {
            lemma_diff_fades_at(figs, added, b, now, j + 1, i);
        } else {
            let f1 = checkpoint(f, now);
            match best_match(added, f.piece, f.square) {
                Some(jj) => {
                    crate::pieces::lemma_best_match_in_range(added, f.piece, f.square);
                    let dest = added[jj].0;
                    let f2 = Figurine {
                        square: dest,
                        start: if now - f.last_drag < DRAG_SNAP_MS {
                            square_center(dest)
                        } else {
                            f1.start
                        },
                        ..f1
                    };
                    let added2 = added.remove(jj);
                    assert forall|k: int| 0 <= k < added2.len() implies (#[trigger] added2[k]).1
                        != figs[i].piece by {
                        crate::pieces::lemma_remove_entries(added, jj, k);
                    }
                    assert(figs.update(j, f2)[i] == figs[i]);
                    lemma_diff_fades_at(figs.update(j, f2), added2, b, now, j + 1, i);
                },
                None => {
                    let f2 = Figurine { fading: true, replaced: b[f.square.index()] is Some, ..f1 };
                    assert(figs.update(j, f2)[i] == figs[i]);
                    lemma_diff_fades_at(figs.update(j, f2), added, b, now, j + 1, i);
                },
            }
        }
    }
}

/// Promotion completeness: when exactly queen, rook, bishop and knight are
/// the legal promotion roles for a move, the chooser presents exactly four
/// cells in that order, stacked from the destination square toward the
/// middle of the board; a click on cell `k` resolves to the `k`-th role,
/// and a click anywhere else hits no cell (it cancels without emitting).
pub proof fn lemma_promotion_completeness(
    legals: Seq<crate::square::Move>,
    orig: Square,
    dest: Square,
    sq: Square,
)
    requires
        crate::board_state::has_exact_move(legals, orig, dest, Some(crate::square::Role::Queen)),
        crate::board_state::has_exact_move(legals, orig, dest, Some(crate::square::Role::Rook)),
        crate::board_state::has_exact_move(legals, orig, dest, Some(crate::square::Role::Bishop)),
        crate::board_state::has_exact_move(legals, orig, dest, Some(crate::square::Role::Knight)),
        !crate::board_state::has_exact_move(legals, orig, dest, Some(crate::square::Role::King)),
        !crate::board_state::has_exact_move(legals, orig, dest, Some(crate::square::Role::Pawn)),
    ensures
        crate::promotable::promotion_roles(legals, orig, dest) == seq![
            crate::square::Role::Queen,
            crate::square::Role::Rook,
            crate::square::Role::Bishop,
            crate::square::Role::Knight,
        ],
        forall|k: int|
            0 <= k < 4 && sq.file == dest.file && sq.rank == crate::promotable::cell_rank(dest, k)
                ==> crate::promotable::cell_hit(
                crate::promotable::promotion_roles(legals, orig, dest),
                dest,
                sq,
            ) == Some(crate::promotable::promotion_roles(legals, orig, dest)[k]),
        (sq.file == dest.file && (forall|k: int|
            0 <= k < 4 ==> sq.rank != crate::promotable::cell_rank(dest, k)))
            ==> crate::promotable::cell_hit(
            crate::promotable::promotion_roles(legals, orig, dest),
            dest,
            sq,
        ) is None,
        sq.file != dest.file ==> crate::promotable::cell_hit(
            crate::promotable::promotion_roles(legals, orig, dest),
            dest,
            sq,
        ) is None,
{
    let roles = crate::promotable::promotion_roles(legals, orig, dest);
    assert(roles =~= seq![
        crate::square::Role::Queen,
        crate::square::Role::Rook,
        crate::square::Role::Bishop,
        crate::square::Role::Knight,
    ]);
    assert forall|k: int|
        0 <= k < 4 && sq.file == dest.file && sq.rank == crate::promotable::cell_rank(
            dest,
            k,
        ) implies crate::promotable::cell_hit(roles, dest, sq) == Some(roles[k]) by {
        assert forall|kk: int| 0 <= kk < k implies sq.rank != crate::promotable::cell_rank(
            dest,
            kk,
        ) by {}
        lemma_cell_hit_to(roles, dest, sq, k);
    }
    if sq.file == dest.file && (forall|k: int|
        0 <= k < 4 ==> sq.rank != crate::promotable::cell_rank(dest, k)) {
        lemma_cell_hit_to(roles, dest, sq, 4);
    }
}

/// Scanning over chooser cells the click missed leaves the hit unchanged.
proof fn lemma_cell_hit_to(roles: Seq<crate::square::Role>, dest: Square, sq: Square, k: int)
    requires
        0 <= k <= roles.len(),
        forall|kk: int| 0 <= kk < k ==> sq.rank != crate::promotable::cell_rank(dest, kk),
    ensures
        crate::promotable::cell_hit_from(roles, dest, sq, 0) == crate::promotable::cell_hit_from(
            roles,
            dest,
            sq,
            k,
        ),
    decreases k,
{
    if k > 0 {
        lemma_cell_hit_to(roles, dest, sq, k - 1);
    }
}

/// A fading figurine never returns to the live set and is never moved: a
/// placement update leaves it exactly as it is until its fade-out has
/// completed and collection drops it.
pub proof fn lemma_fading_untouched(
    figs: Seq<Figurine>,
    b: Seq<Option<Piece>>,
    now: u64,
    past: u64,
    i: int,
)
    requires
        b.len() == 64,
        crate::pieces::figs_wf(figs),
        figs_distinct(figs),
        crate::pieces::figs_one_drag(figs),
        crate::pieces::figs_times_le(figs, now),
        forall|k: int| 0 <= k < figs.len() ==> gc_keep(#[trigger] figs[k]),
        0 <= i < figs.len(),
        figs[i].fading,
    ensures
        set_board_figs(figs, b, now, past)[i] == figs[i],
{
    lemma_gc_noop(figs);
    let a0 = added_upto(b, figs, 64);
    lemma_added_upto(b, figs, 64);
    assert forall|j1: int, j2: int| 0 <= j1 < j2 < a0.len() implies (#[trigger] a0[j1]).0 != (
    #[trigger] a0[j2]).0 by {
        if a0[j1].0 == a0[j2].0 {
            assert(a0[j1].0.index() < a0[j2].0.index());
        }
    }
    crate::pieces::lemma_diff_from(figs, a0, b, now, 0);
    let d = diff_from(figs, a0, b, now, 0);
    assert(d.0[i] == figs[i]);
    assert(set_board_figs(figs, b, now, past)[i] == d.0[i]);
}

/// Drag threshold: a pointer that has not moved never crosses the drag
/// threshold, whatever the widget size; a movement of at least a tenth of
/// a board square always does.
pub proof fn lemma_drag_threshold(start: BoardPos, cur: BoardPos, size: int)
    ensures
        cur == start ==> !threshold_crossed_spec(start, cur, size),
        (cur.x - start.x) * (cur.x - start.x) + (cur.y - start.y) * (cur.y - start.y) >= 10000
            ==> threshold_crossed_spec(start, cur, size),
{
    if cur == start {
        assert(0 * size * size == 0) by (nonlinear_arith);
    }
}

} // verus!
