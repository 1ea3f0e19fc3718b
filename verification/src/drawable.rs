//! The annotation layer: user-drawn circles and arrows in four colors,
//! with their own right-button gesture. Committing a shape identical to an
//! existing one (same squares, same color) erases it instead of
//! duplicating it, and a plain left click clears all shapes.

use vstd::prelude::*;

use crate::square::Square;

verus! {

/// Shape colors, chosen by the modifier keys held on the right-button
/// press: plain green, shift red, alt blue, shift+alt yellow.
#[derive(Clone, Copy, Debug, PartialEq, Eq, Structural, Hash)]
pub enum DrawBrush {
    Green,
    Red,
    Blue,
    Yellow,
}

/// The brush for a modifier-key combination.
pub open spec fn brush_spec(shift: bool, alt: bool) -> DrawBrush {
    if shift && alt {
        DrawBrush::Yellow
    } else if alt {
        DrawBrush::Blue
    } else if shift {
        DrawBrush::Red
    } else {
        DrawBrush::Green
    }
}

/// An arrow or circle drawn on the board. Equal squares mean a circle,
/// different squares an arrow. Identity — for the toggling eraser — is the
/// full triple: the same squares in another color are another shape.
#[derive(Clone, Copy, Debug, PartialEq, Eq, Structural, Hash)]
pub struct DrawShape {
    pub orig: Square,
    pub dest: Square,
    pub brush: DrawBrush,
}

impl DrawShape {
    /// First square.
    pub fn orig(&self) -> (sq: Square)
        ensures
            sq == self.orig,
    {
        self.orig
    }

    /// Second square.
    pub fn dest(&self) -> (sq: Square)
        ensures
            sq == self.dest,
    {
        self.dest
    }

    /// Shape color.
    pub fn brush(&self) -> (b: DrawBrush)
        ensures
            b == self.brush,
    {
        self.brush
    }

    /// Whether the shape is a circle.
    pub fn is_circle(&self) -> (b: bool)
        ensures
            b == (self.orig == self.dest),
    {
        self.orig == self.dest
    }

    /// Whether the shape is an arrow.
    pub fn is_arrow(&self) -> (b: bool)
        ensures
            b == (self.orig != self.dest),
    {
        self.orig != self.dest
    }
}

/// The committed shapes without every occurrence of `s`, in order.
pub open spec fn without_shape(shapes: Seq<DrawShape>, s: DrawShape) -> Seq<DrawShape>
    decreases shapes.len(),
{
    if shapes.len() == 0 {
        Seq::empty()
    } else {
        let rest = without_shape(shapes.drop_last(), s);
        if shapes.last() == s {
            rest
        } else {
            rest.push(shapes.last())
        }
    }
}

/// Committing a shape toggles it: an exact repeat erases the shape, a new
/// shape is appended.
pub open spec fn commit_spec(shapes: Seq<DrawShape>, s: DrawShape) -> Seq<DrawShape> {
    if shapes.contains(s) {
        without_shape(shapes, s)
    } else {
        shapes.push(s)
    }
}

/// What removal keeps: everything but `s`, in order; removing something
/// absent changes nothing, removing something present shortens the list.
pub proof fn lemma_without_shape(shapes: Seq<DrawShape>, s: DrawShape)
    ensures
        forall|x: DrawShape|
            without_shape(shapes, s).contains(x) == (shapes.contains(x) && x != s),
        !shapes.contains(s) ==> without_shape(shapes, s) == shapes,
        shapes.contains(s) ==> without_shape(shapes, s).len() < shapes.len(),
        forall|k: int|
            0 <= k < without_shape(shapes, s).len() ==> shapes.contains(
                #[trigger] without_shape(shapes, s)[k],
            ) && without_shape(shapes, s)[k] != s,
    decreases shapes.len(),
{
    let w = without_shape(shapes, s);
    if shapes.len() == 0 {
        assert forall|x: DrawShape| w.contains(x) == (shapes.contains(x) && x != s) by {
            assert(!w.contains(x));
            assert(!shapes.contains(x));
        }
    } else {
        let pre = shapes.drop_last();
        let last = shapes.last();
        lemma_without_shape(pre, s);
        let wp = without_shape(pre, s);
        assert forall|x: DrawShape| w.contains(x) == (shapes.contains(x) && x != s) by {
            if w.contains(x) {
                let k = choose|k: int| 0 <= k < w.len() && w[k] == x;
                if last != s && k == w.len() - 1 {
                    assert(x == last);
                    assert(shapes[shapes.len() - 1] == last);
                } else {
                    assert(wp[k] == x);
                    assert(wp.contains(x));
                    let m = choose|m: int| 0 <= m < pre.len() && pre[m] == x;
                    assert(shapes[m] == x);
                }
            }
            if shapes.contains(x) && x != s {
                let m = choose|m: int| 0 <= m < shapes.len() && shapes[m] == x;
                if m == shapes.len() - 1 {
                    assert(w[w.len() - 1] == x);
                } else {
                    assert(pre[m] == x);
                    assert(pre.contains(x));
                    assert(wp.contains(x));
                    let k = choose|k: int| 0 <= k < wp.len() && wp[k] == x;
                    assert(w[k] == x);
                }
            }
        }
        if !shapes.contains(s) {
            assert(!pre.contains(s)) by {
                if pre.contains(s) {
                    let m = choose|m: int| 0 <= m < pre.len() && pre[m] == s;
                    assert(shapes[m] == s);
                }
            }
            assert(shapes[shapes.len() - 1] == last);
            assert(w =~= shapes);
        }
        if shapes.contains(s) {
            if last == s {
            } else {
                assert(pre.contains(s)) by {
                    let m = choose|m: int| 0 <= m < shapes.len() && shapes[m] == s;
                    assert(m < shapes.len() - 1);
                    assert(pre[m] == s);
                }
            }
        }
        assert forall|k: int| 0 <= k < w.len() implies shapes.contains(#[trigger] w[k]) && w[k]
            != s by {
            if last != s && k == w.len() - 1 {
                assert(shapes[shapes.len() - 1] == last);
            } else {
                assert(wp[k] == w[k]);
                assert(pre.contains(wp[k]));
                let m = choose|m: int| 0 <= m < pre.len() && pre[m] == wp[k];
                assert(shapes[m] == wp[k]);
            }
        }
    }
}

/// Shape toggle: committing the same shape twice in a row leaves the list
/// as it was (the second commit erases the first), while committing the
/// same squares in another color keeps both shapes.
pub proof fn lemma_shape_toggle(shapes: Seq<DrawShape>, s1: DrawShape, s2: DrawShape)
    requires
        !shapes.contains(s1),
        !shapes.contains(s2),
    ensures
        commit_spec(commit_spec(shapes, s1), s1) == shapes,
        s1 != s2 ==> commit_spec(commit_spec(shapes, s1), s2) == shapes.push(s1).push(s2),
{
    let c1 = shapes.push(s1);
    assert(commit_spec(shapes, s1) == c1);
    assert(c1.contains(s1)) by {
        assert(c1[c1.len() - 1] == s1);
    }
    assert(c1.drop_last() =~= shapes);
    lemma_without_shape(shapes, s1);
    assert(commit_spec(c1, s1) == shapes);
    if s1 != s2 {
        assert(!c1.contains(s2)) by {
            if c1.contains(s2) {
                let m = choose|m: int| 0 <= m < c1.len() && c1[m] == s2;
                if m < shapes.len() {
                    assert(shapes[m] == s2);
                }
            }
        }
        assert(commit_spec(c1, s2) == shapes.push(s1).push(s2));
    }
}

/// The annotation layer state: committed shapes, the shape being drawn,
/// and the two affordance switches.
#[derive(Clone, Debug)]
pub struct Drawable {
    /// The in-progress shape while the right button is down.
    pub drawing: Option<DrawShape>,
    /// The committed shapes, every one distinct.
    pub shapes: Vec<DrawShape>,
    /// Whether drawing is enabled at all.
    pub enabled: bool,
    /// Whether a plain left click erases all shapes.
    pub erase_on_click: bool,
}

impl Drawable {
    /// Committed shapes are pairwise distinct: toggling keeps them so.
    pub open spec fn wf(self) -> bool {
        forall|i: int, j: int|
            0 <= i < j < self.shapes@.len() ==> self.shapes@[i] != self.shapes@[j]
    }

    /// A fresh layer: no shapes, drawing enabled, click-to-erase on.
    pub fn new() -> (d: Drawable)
        ensures
            d.wf(),
            d.drawing is None,
            d.shapes@ == Seq::<DrawShape>::empty(),
            d.enabled,
            d.erase_on_click,
    {
        Drawable { drawing: None, shapes: Vec::new(), enabled: true, erase_on_click: true }
    }

    /// Handle a button press. A plain left click erases all committed
    /// shapes (when enabled), reporting the cleared list; a right-button
    /// press over a square starts drawing a circle there with the brush
    /// the modifiers select.
    pub fn mouse_down(&mut self, button: u8, shift: bool, alt: bool, square: Option<Square>) -> (changed:
        Option<Vec<DrawShape>>)
        requires
            old(self).wf(),
        ensures
            final(self).wf(),
            final(self).enabled == old(self).enabled,
            final(self).erase_on_click == old(self).erase_on_click,
            !old(self).enabled ==> *final(self) == *old(self) && changed is None,
            old(self).enabled && button == 1 ==> {
                &&& final(self).drawing == old(self).drawing
                &&& if old(self).erase_on_click && old(self).shapes@.len() > 0 {
                    final(self).shapes@ == Seq::<DrawShape>::empty() && (changed matches Some(v)
                        && v@ == Seq::<DrawShape>::empty())
                } else {
                    final(self).shapes == old(self).shapes && changed is None
                }
            },
            old(self).enabled && button == 3 ==> {
                &&& final(self).shapes == old(self).shapes
                &&& changed is None
                &&& final(self).drawing == (match square {
                    Some(sq) => Some(
                        DrawShape { orig: sq, dest: sq, brush: brush_spec(shift, alt) },
                    ),
                    None => None::<DrawShape>,
                })
            },
            old(self).enabled && button != 1 && button != 3 ==> *final(self) == *old(self)
                && changed is None,
    {
        if !self.enabled {
            return None;
        }
        if button == 1 {
            if self.erase_on_click && self.shapes.len() > 0 {
                self.shapes = Vec::new();
                return Some(Vec::new());
            }
            return None;
        }
        if button == 3 {
            let brush = if shift && alt {
                DrawBrush::Yellow
            } else if alt {
                DrawBrush::Blue
            } else if shift {
                DrawBrush::Red
            } else {
                DrawBrush::Green
            };
            self.drawing = match square {
                Some(sq) => Some(DrawShape { orig: sq, dest: sq, brush }),
                None => None,
            };
        }
        None
    }

    /// Extend the in-progress shape to the square under the pointer, or
    /// back to a circle when the pointer leaves the board.
    pub fn mouse_move(&mut self, square: Option<Square>)
        requires
            old(self).wf(),
        ensures
            final(self).wf(),
            final(self).shapes == old(self).shapes,
            final(self).enabled == old(self).enabled,
            final(self).erase_on_click == old(self).erase_on_click,
            final(self).drawing == (match old(self).drawing {
                Some(d) => Some(
                    DrawShape {
                        dest: match square {
                            Some(sq) => sq,
                            None => d.orig,
                        },
                        ..d
                    },
                ),
                None => None::<DrawShape>,
            }),
    {
        if let Some(d) = self.drawing {
            let dest = match square {
                Some(sq) => sq,
                None => d.orig,
            };
            self.drawing = Some(DrawShape { dest, ..d });
        }
    }

    /// Finish the in-progress shape and toggle it into the committed list:
    /// an exact repeat erases the existing shape. Reports the new list when
    /// it changed.
    pub fn mouse_up(&mut self, square: Option<Square>) -> (changed: Option<Vec<DrawShape>>)
        requires
            old(self).wf(),
        ensures
            final(self).wf(),
            final(self).drawing is None,
            final(self).enabled == old(self).enabled,
            final(self).erase_on_click == old(self).erase_on_click,
            match old(self).drawing {
                None => final(self).shapes == old(self).shapes && changed is None,
                Some(d) => {
                    if old(self).enabled {
                        let s = DrawShape {
                            dest: match square {
                                Some(sq) => sq,
                                None => d.orig,
                            },
                            ..d
                        };
                        &&& final(self).shapes@ == commit_spec(old(self).shapes@, s)
                        &&& (changed matches Some(v) && v@ == final(self).shapes@)
                    } else {
                        final(self).shapes == old(self).shapes && changed is None
                    }
                },
            },
    {
        let d = match self.drawing {
            Some(d) => d,
            None => { return None; },
        };
        self.drawing = None;
        if !self.enabled {
            return None;
        }
        let ghost shapes0 = self.shapes@;
        let s = DrawShape {
            dest: match square {
                Some(sq) => sq,
                None => d.orig,
            },
            ..d
        };
        // keep everything that is not an exact repeat of the new shape
        let mut kept: Vec<DrawShape> = Vec::new();
        let mut i: usize = 0;
        while i < self.shapes.len()
            invariant
                i <= self.shapes@.len(),
                self.shapes@ == shapes0,
                kept@ == without_shape(shapes0.subrange(0, i as int), s),
            decreases self.shapes@.len() - i,
        {
            let t = self.shapes[i];
            proof {
                assert(shapes0.subrange(0, i + 1).drop_last() =~= shapes0.subrange(0, i as int));
                assert(shapes0.subrange(0, i + 1).last() == shapes0[i as int]);
            }
            if t != s {
                kept.push(t);
            }
            i = i + 1;
        }
        proof {
            assert(shapes0.subrange(0, shapes0.len() as int) =~= shapes0);
            lemma_without_shape(shapes0, s);
        }
        if kept.len() == self.shapes.len() {
            proof {
                if shapes0.contains(s) {
                    assert(false);
                }
            }
            self.shapes.push(s);
            proof {
                assert forall|i2: int, j2: int|
                    0 <= i2 < j2 < self.shapes@.len() implies self.shapes@[i2]
                    != self.shapes@[j2] by {
                    if j2 == self.shapes@.len() - 1 {
                        assert(shapes0[i2] == self.shapes@[i2]);
                        if self.shapes@[i2] == s {
                            assert(shapes0.contains(s));
                        }
                    }
                }
            }
        } else {
            self.shapes = kept;
            proof {
                assert forall|i2: int, j2: int|
                    0 <= i2 < j2 < self.shapes@.len() implies self.shapes@[i2]
                    != self.shapes@[j2] by {
                    let w = without_shape(shapes0, s);
                    assert(shapes0.contains(w[i2]));
                    assert(shapes0.contains(w[j2]));
                    if w[i2] == w[j2] {
                        let m1 = choose|m1: int| 0 <= m1 < shapes0.len() && shapes0[m1] == w[i2];
                        // two equal entries of a duplicate-free list share the index,
                        // but `without_shape` keeps source order without duplication
                        lemma_without_distinct(shapes0, s);
                    }
                }
            }
        }
        Some(copy_shapes(&self.shapes))
    }

    /// The committed shapes, oldest first.
    pub fn shapes(&self) -> (r: &Vec<DrawShape>)
        ensures
            r == &self.shapes,
    {
        &self.shapes
    }
}

/// Removal from a duplicate-free list stays duplicate-free.
pub proof fn lemma_without_distinct(shapes: Seq<DrawShape>, s: DrawShape)
    requires
        forall|i: int, j: int| 0 <= i < j < shapes.len() ==> shapes[i] != shapes[j],
    ensures
        forall|i: int, j: int|
            0 <= i < j < without_shape(shapes, s).len() ==> without_shape(shapes, s)[i]
                != without_shape(shapes, s)[j],
    decreases shapes.len(),
{
    let w = without_shape(shapes, s);
    if shapes.len() > 0 {
        let pre = shapes.drop_last();
        let last = shapes.last();
        lemma_without_distinct(pre, s);
        lemma_without_shape(pre, s);
        let wp = without_shape(pre, s);
        assert forall|i: int, j: int| 0 <= i < j < w.len() implies w[i] != w[j] by {
            if last != s && j == w.len() - 1 {
                assert(w[j] == last);
                assert(wp[i] == w[i]);
                assert(pre.contains(w[i]));
                let m = choose|m: int| 0 <= m < pre.len() && pre[m] == w[i];
                assert(shapes[m] == w[i]);
                assert(shapes[shapes.len() - 1] == last);
            } else {
                assert(wp[i] == w[i] && wp[j] == w[j]);
            }
        }
    }
}

/// Copy a shape list.
pub fn copy_shapes(shapes: &Vec<DrawShape>) -> (r: Vec<DrawShape>)
    ensures
        r@ == shapes@,
{
    let mut r: Vec<DrawShape> = Vec::new();
    let mut i: usize = 0;
    while i < shapes.len()
        invariant
            i <= shapes@.len(),
            r@ == shapes@.subrange(0, i as int),
        decreases shapes@.len() - i,
    {
        r.push(shapes[i]);
        i = i + 1;
    }
    proof {
        assert(r@ =~= shapes@);
    }
    r
}

} // verus!
