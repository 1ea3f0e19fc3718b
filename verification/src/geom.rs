//! Board geometry in fixed-point arithmetic.
//!
//! Board-relative coordinates are kept in milli board units: one square is
//! 1000 by 1000, the playing field spans 0..8000 on each axis, and the center
//! of the square with file `f` and rank `r` is `(1000 f + 500, 7500 - 1000 r)`
//! (rank 8 at the top). Animation progress and opacity run in per-mille steps
//! from 0 to 1000. The host converts pointer pixels into these units through
//! its own affine transform; this module supplies the inverse bookkeeping the
//! widget logic needs: square lookup, square centers, cubic easing, the drag
//! threshold test and redraw-rectangle computation.

use vstd::arithmetic::div_mod::{
    lemma_div_is_ordered, lemma_div_multiples_vanish, lemma_fundamental_div_mod_converse,
};
use vstd::arithmetic::mul::lemma_mul_inequality;
use vstd::prelude::*;

use crate::square::{Color, Square};

verus! {

/// Milli board units per square.
pub const UNIT: i64 = 1000;

/// A point in milli board units.
#[derive(Clone, Copy, Debug, PartialEq, Eq, Structural)]
pub struct BoardPos {
    pub x: i64,
    pub y: i64,
}

/// An axis-aligned rectangle in milli board units.
#[derive(Clone, Copy, Debug, PartialEq, Eq, Structural)]
pub struct BoardRect {
    pub x: i64,
    pub y: i64,
    pub w: i64,
    pub h: i64,
}

/// An axis-aligned rectangle in device pixels.
#[derive(Clone, Copy, Debug, PartialEq, Eq, Structural)]
pub struct PixelRect {
    pub x: i64,
    pub y: i64,
    pub w: i64,
    pub h: i64,
}

impl BoardPos {
    /// Coordinates small enough for all fixed-point arithmetic here; pointer
    /// positions handed in by the host must satisfy this (anything a real
    /// widget transform produces is far within these bounds).
    pub open spec fn bounded(self) -> bool {
        -100_000_000 <= self.x <= 100_000_000 && -100_000_000 <= self.y <= 100_000_000
    }

    /// Inside the playing field.
    pub open spec fn on_board(self) -> bool {
        0 <= self.x <= 8000 && 0 <= self.y <= 8000
    }
}

impl BoardRect {
    pub open spec fn bounded(self) -> bool {
        &&& -100_000 <= self.x <= 100_000
        &&& -100_000 <= self.y <= 100_000
        &&& 0 <= self.w <= 200_000
        &&& 0 <= self.h <= 200_000
    }
}

/// Center of a square, in milli board units.
pub open spec fn square_center(sq: Square) -> BoardPos {
    BoardPos { x: (1000 * sq.file + 500) as i64, y: (7500 - 1000 * sq.rank) as i64 }
}

/// Center of a square, in milli board units.
pub fn square_to_pos(sq: Square) -> (p: BoardPos)
    requires
        sq.wf(),
    ensures
        p == square_center(sq),
        p.on_board(),
{
    BoardPos { x: 1000 * (sq.file as i64) + 500, y: 7500 - 1000 * (sq.rank as i64) }
}

/// The square containing a board point, if any: coordinates are floored to
/// the unit grid and anything outside files a..h or ranks 1..8 is no square.
pub open spec fn pos_to_square_spec(p: BoardPos) -> Option<Square> {
    if 0 <= p.x < 8000 && 0 <= p.y < 8000 {
        Some(Square { file: (p.x / 1000) as u8, rank: (7 - p.y / 1000) as u8 })
    } else {
        None
    }
}

/// The square containing a board point, if any.
pub fn pos_to_square(p: BoardPos) -> (r: Option<Square>)
    ensures
        r == pos_to_square_spec(p),
        r is Some ==> r.unwrap().wf(),
{
    if 0 <= p.x && p.x < 8000 && 0 <= p.y && p.y < 8000 {
        proof {
            lemma_div_is_ordered(p.x as int, 7999, 1000);
            lemma_div_is_ordered(p.y as int, 7999, 1000);
            lemma_div_is_ordered(0, p.x as int, 1000);
            lemma_div_is_ordered(0, p.y as int, 1000);
        }
        let file: u8 = ((p.x as u64) / 1000) as u8;
        let rank: u8 = (7 - (p.y as u64) / 1000) as u8;
        Some(Square { file, rank })
    } else {
        None
    }
}

/// Cubic ease-in/ease-out curve on per-mille inputs and outputs: 0 maps to 0,
/// 1000 to 1000, with a slow start and finish. Inputs outside 0..1000 clamp.
pub open spec fn ease_unit_spec(t: int) -> int {
    let tc = if t < 0 {
        0
    } else if t > 1000 {
        1000
    } else {
        t
    };
    if tc < 500 {
        4 * tc * tc * tc / 1000000
    } else {
        1000 - (1000 - tc) * (2000 - 2 * tc) * (2000 - 2 * tc) / 1000000
    }
}

pub proof fn lemma_ease_unit_range(t: int)
    ensures
        0 <= ease_unit_spec(t) <= 1000,
        t <= 0 ==> ease_unit_spec(t) == 0,
        t >= 1000 ==> ease_unit_spec(t) == 1000,
{
    let tc = if t < 0 {
        0
    } else if t > 1000 {
        1000
    } else {
        t
    };
    if tc < 500 {
        assert(0 <= 4 * tc * tc * tc <= 500000000) by (nonlinear_arith)
            requires
                0 <= tc < 500,
        ;
        lemma_div_is_ordered(0, 4 * tc * tc * tc, 1000000);
        lemma_div_is_ordered(4 * tc * tc * tc, 500000000, 1000000);
    } else {
        assert(0 <= (1000 - tc) * (2000 - 2 * tc) * (2000 - 2 * tc) <= 500000000)
            by (nonlinear_arith)
            requires
                500 <= tc <= 1000,
        ;
        lemma_div_is_ordered(0, (1000 - tc) * (2000 - 2 * tc) * (2000 - 2 * tc), 1000000);
        lemma_div_is_ordered((1000 - tc) * (2000 - 2 * tc) * (2000 - 2 * tc), 500000000, 1000000);
    }
}

/// Cubic ease-in/ease-out curve on per-mille inputs and outputs.
pub fn ease_unit(t: u32) -> (u: u32)
    ensures
        u == ease_unit_spec(t as int),
        u <= 1000,
        t == 0 ==> u == 0,
        t >= 1000 ==> u == 1000,
{
    proof {
        lemma_ease_unit_range(t as int);
    }
    let tc: u64 = if t > 1000 {
        1000
    } else {
        t as u64
    };
    if tc < 500 {
        let a: u64 = 4 * tc;
        proof {
            assert(a * tc <= 2_000_000) by (nonlinear_arith)
                requires
                    0 <= a <= 2000 && 0 <= tc < 500,
            ;
        }
        let b: u64 = a * tc;
        proof {
            assert(b * tc <= 1_000_000_000) by (nonlinear_arith)
                requires
                    0 <= b <= 2_000_000 && 0 <= tc < 500,
            ;
            assert(b * tc == 4 * (tc as int) * (tc as int) * (tc as int)) by (nonlinear_arith)
                requires
                    a == 4 * tc && b == a * tc,
            ;
        }
        (b * tc / 1000000) as u32
    } else {
        let e: u64 = 1000 - tc;
        let f: u64 = 2000 - 2 * tc;
        proof {
            assert(e * f <= 500_000) by (nonlinear_arith)
                requires
                    0 <= e <= 500 && 0 <= f <= 1000,
            ;
        }
        let g: u64 = e * f;
        proof {
            assert(g * f <= 500_000_000) by (nonlinear_arith)
                requires
                    0 <= g <= 500_000 && 0 <= f <= 1000,
            ;
            assert(g * f == (1000 - tc as int) * (2000 - 2 * (tc as int)) * (2000 - 2 * (
            tc as int))) by (nonlinear_arith)
                requires
                    e == 1000 - tc && f == 2000 - 2 * tc && g == e * f,
            ;
        }
        (1000 - g * f / 1000000) as u32
    }
}

/// Eased interpolation from `start` to `end` at per-mille progress `t`.
pub open spec fn ease_spec(start: int, end: int, t: int) -> int {
    let u = ease_unit_spec(t);
    if end >= start {
        start + (end - start) * u / 1000
    } else {
        start - (start - end) * u / 1000
    }
}

/// The eased value never leaves the interval between its endpoints, equals
/// `start` at progress 0 and `end` at progress 1000 or more.
pub proof fn lemma_ease_range(start: int, end: int, t: int)
    ensures
        start <= end ==> start <= ease_spec(start, end, t) <= end,
        end <= start ==> end <= ease_spec(start, end, t) <= start,
        t <= 0 ==> ease_spec(start, end, t) == start,
        t >= 1000 ==> ease_spec(start, end, t) == end,
{
    let u = ease_unit_spec(t);
    lemma_ease_unit_range(t);
    if end >= start {
        let d = end - start;
        lemma_mul_inequality(0, u, d);
        lemma_mul_inequality(u, 1000, d);
        lemma_div_is_ordered(0, d * u, 1000);
        lemma_div_is_ordered(d * u, d * 1000, 1000);
        lemma_div_multiples_vanish(d, 1000);
        assert(u * d == d * u) by (nonlinear_arith);
        assert(1000 * d == d * 1000) by (nonlinear_arith);
    } else {
        let d = start - end;
        lemma_mul_inequality(0, u, d);
        lemma_mul_inequality(u, 1000, d);
        lemma_div_is_ordered(0, d * u, 1000);
        lemma_div_is_ordered(d * u, d * 1000, 1000);
        lemma_div_multiples_vanish(d, 1000);
        assert(u * d == d * u) by (nonlinear_arith);
        assert(1000 * d == d * 1000) by (nonlinear_arith);
    }
}

/// Eased interpolation from `start` to `end` at per-mille progress `t`,
/// clamped to 0..1000.
pub fn ease(start: i64, end: i64, t: u32) -> (r: i64)
    requires
        -100_000_000 <= start <= 100_000_000,
        -100_000_000 <= end <= 100_000_000,
    ensures
        r == ease_spec(start as int, end as int, t as int),
        start <= end ==> start <= r <= end,
        end <= start ==> end <= r <= start,
{
    proof {
        lemma_ease_range(start as int, end as int, t as int);
    }
    let u = ease_unit(t) as u64;
    if end >= start {
        let d = (end - start) as u64;
        proof {
            lemma_mul_inequality(u as int, 1000, d as int);
            lemma_div_is_ordered(d as int * u as int, d as int * 1000, 1000);
            lemma_div_multiples_vanish(d as int, 1000);
            assert(d as int * u as int == u as int * d as int) by (nonlinear_arith);
            assert(d as int * 1000 == 1000 * d as int) by (nonlinear_arith);
            lemma_div_is_ordered(0, d as int * u as int, 1000);
        }
        start + (d * u / 1000) as i64
    } else {
        let d = (start - end) as u64;
        proof {
            lemma_mul_inequality(u as int, 1000, d as int);
            lemma_div_is_ordered(d as int * u as int, d as int * 1000, 1000);
            lemma_div_multiples_vanish(d as int, 1000);
            assert(d as int * u as int == u as int * d as int) by (nonlinear_arith);
            assert(d as int * 1000 == 1000 * d as int) by (nonlinear_arith);
            lemma_div_is_ordered(0, d as int * u as int, 1000);
        }
        start - (d * u / 1000) as i64
    }
}

/// The drag threshold: a pointer that moved from `start` to `cur` counts as
/// dragging once it traveled at least a tenth of a square in board units or
/// at least four device pixels, whichever is crossed first. `size` is the
/// board edge length in pixels (nine board units across).
pub open spec fn threshold_crossed_spec(start: BoardPos, cur: BoardPos, size: int) -> bool {
    let d2 = (cur.x - start.x) * (cur.x - start.x) + (cur.y - start.y) * (cur.y - start.y);
    d2 >= 10000 || d2 * size * size >= 1296000000
}

/// The drag threshold test.
pub fn threshold_crossed(start: BoardPos, cur: BoardPos, size: u32) -> (b: bool)
    requires
        start.bounded(),
        cur.bounded(),
    ensures
        b == threshold_crossed_spec(start, cur, size as int),
{
    let dx: u64 = if cur.x >= start.x {
        (cur.x - start.x) as u64
    } else {
        (start.x - cur.x) as u64
    };
    let dy: u64 = if cur.y >= start.y {
        (cur.y - start.y) as u64
    } else {
        (start.y - cur.y) as u64
    };
    proof {
        assert(dx * dx == (cur.x - start.x) * (cur.x - start.x) && dy * dy == (cur.y - start.y) * (
        cur.y - start.y)) by (nonlinear_arith)
            requires
                dx == if cur.x >= start.x {
                    cur.x - start.x
                } else {
                    start.x - cur.x
                },
                dy == if cur.y >= start.y {
                    cur.y - start.y
                } else {
                    start.y - cur.y
                },
        ;
        assert(dx * dx <= 200_000_000 * 200_000_000 && dy * dy <= 200_000_000 * 200_000_000)
            by (nonlinear_arith)
            requires
                0 <= dx <= 200_000_000 && 0 <= dy <= 200_000_000,
        ;
    }
    let d2: u64 = dx * dx + dy * dy;
    if d2 >= 10000 {
        true
    } else {
        let d2w: u128 = d2 as u128;
        let sw: u128 = size as u128;
        proof {
            assert(d2w * sw <= 800_000_000_000_000_000_000_000_000) by (nonlinear_arith)
                requires
                    0 <= d2w <= 160_000_000_000_000_000 && 0 <= sw <= u32::MAX,
            ;
        }
        let m1: u128 = d2w * sw;
        proof {
            assert(m1 * sw <= 4_000_000_000_000_000_000_000_000_000_000_000_000)
                by (nonlinear_arith)
                requires
                    0 <= m1 <= 800_000_000_000_000_000_000_000_000 && 0 <= sw <= u32::MAX,
            ;
            assert(m1 * sw == (d2 as int) * (size as int) * (size as int)) by (nonlinear_arith)
                requires
                    d2w == d2 && sw == size && m1 == d2w * sw,
            ;
        }
        m1 * sw >= 1296000000
    }
}

/// Floor division by a positive divisor, on possibly negative numerators.
fn floor_div(n: i64, d: i64) -> (q: i64)
    requires
        0 < d <= 1_000_000_000,
        -1_000_000_000_000_000 <= n <= 1_000_000_000_000_000,
    ensures
        q == n as int / d as int,
        -2_000_000_000_000_000 <= q <= 1_000_000_000_000_000,
{
    if n >= 0 {
        ((n as u64) / (d as u64)) as i64
    } else {
        let m: u64 = (-n) as u64;
        let q: u64 = (m + (d as u64) - 1) / (d as u64);
        proof {
            let r = (m + d - 1) as int % d as int;
            assert(m + d - 1 == q * d + r) by {
                vstd::arithmetic::div_mod::lemma_fundamental_div_mod((m + d - 1) as int, d as int);
            }
            assert(n == (-(q as int)) * d + (d - 1 - r)) by (nonlinear_arith)
                requires
                    m + d - 1 == q * d + r && n == -(m as int),
            ;
            lemma_fundamental_div_mod_converse(n as int, d as int, -(q as int), d - 1 - r);
        }
        -(q as i64)
    }
}

/// Ceiling division by a positive divisor, on possibly negative numerators,
/// written as `-((-n) / d)` over floor division.
fn ceil_div(n: i64, d: i64) -> (q: i64)
    requires
        0 < d <= 1_000_000_000,
        -1_000_000_000_000_000 <= n <= 1_000_000_000_000_000,
    ensures
        q == ceil_div_spec(n as int, d as int),
{
    -floor_div(-n, d)
}

/// `-((-n) / d)`, the ceiling of the exact quotient for positive `d`.
pub open spec fn ceil_div_spec(n: int, d: int) -> int {
    -((-n) / d)
}

/// For a positive divisor the ceiling of a quotient is at least its floor,
/// and both grow with the numerator.
pub proof fn lemma_ceil_ge_floor(n1: int, n2: int, d: int)
    requires
        0 < d,
        n1 <= n2,
    ensures
        n1 / d <= ceil_div_spec(n2, d),
{
    lemma_div_is_ordered(n1, n2, d);
    let q = n2 / d;
    let r = n2 % d;
    vstd::arithmetic::div_mod::lemma_fundamental_div_mod(n2, d);
    if r == 0 {
        assert(-n2 == (-q) * d + 0) by (nonlinear_arith)
            requires
                n2 == q * d + 0,
        ;
        lemma_fundamental_div_mod_converse(-n2, d, -q, 0);
    } else {
        assert(-n2 == (-q - 1) * d + (d - r)) by (nonlinear_arith)
            requires
                n2 == q * d + r,
        ;
        lemma_fundamental_div_mod_converse(-n2, d, -q - 1, d - r);
    }
}

/// The cell of milli board units around a point: the square-sized box whose
/// center is the point, used to invalidate the area a sprite covers.
pub open spec fn cell_around_spec(p: BoardPos) -> BoardRect {
    BoardRect { x: (p.x - 500) as i64, y: (p.y - 500) as i64, w: 1000, h: 1000 }
}

/// The cell of milli board units around a point.
pub fn cell_around(p: BoardPos) -> (r: BoardRect)
    requires
        -99_000 <= p.x <= 99_000,
        -99_000 <= p.y <= 99_000,
    ensures
        r == cell_around_spec(p),
        r.bounded(),
{
    BoardRect { x: p.x - 500, y: p.y - 500, w: 1000, h: 1000 }
}

/// The milli-unit rectangle covering one square.
pub open spec fn square_rect_spec(sq: Square) -> BoardRect {
    BoardRect { x: (1000 * sq.file) as i64, y: (7000 - 1000 * sq.rank) as i64, w: 1000, h: 1000 }
}

/// The milli-unit rectangle covering one square.
pub fn square_rect(sq: Square) -> (r: BoardRect)
    requires
        sq.wf(),
    ensures
        r == square_rect_spec(sq),
        r.bounded(),
{
    BoardRect { x: 1000 * (sq.file as i64), y: 7000 - 1000 * (sq.rank as i64), w: 1000, h: 1000 }
}

/// The widget's affine view of the board: a square of `size` pixels (nine
/// board units across, board plus border) centered in a `width` by `height`
/// widget, rotated a half turn when oriented for Black.
#[derive(Clone, Copy, Debug, PartialEq, Eq, Structural)]
pub struct Transform {
    pub width: u32,
    pub height: u32,
    pub orientation: Color,
}

impl Transform {
    /// A machine bound: a real widget allocation stays far below a million
    /// pixels per side, and the fixed-point arithmetic here relies on it.
    pub open spec fn wf(self) -> bool {
        self.width <= 1_000_000 && self.height <= 1_000_000
    }

    /// Pixels across the nine-unit board, never less than nine so the
    /// transform stays invertible even for a degenerate widget allocation.
    pub open spec fn size_spec(self) -> int {
        let m = if self.width <= self.height {
            self.width as int
        } else {
            self.height as int
        };
        if m < 9 {
            9
        } else {
            m
        }
    }

    pub fn new(width: u32, height: u32, orientation: Color) -> (t: Transform)
        requires
            width <= 1_000_000,
            height <= 1_000_000,
        ensures
            t == (Transform { width, height, orientation }),
            t.wf(),
    {
        Transform { width, height, orientation }
    }

    /// Pixels across the nine-unit board.
    pub fn size(&self) -> (s: u32)
        requires
            self.wf(),
        ensures
            s == self.size_spec(),
            9 <= s <= 1_000_000,
    {
        let m = if self.width <= self.height {
            self.width
        } else {
            self.height
        };
        if m < 9 {
            9
        } else {
            m
        }
    }

    /// The device-pixel rectangle that covers a milli-unit rectangle: the
    /// rectangle is first snapped outward to the unit grid, its corners are
    /// mapped through the widget transform, and the result is the outward
    /// pixel bounding box of the mapped corners.
    pub open spec fn rect_to_pixels_spec(self, r: BoardRect) -> PixelRect {
        let s = self.size_spec();
        let x0 = r.x as int / 1000;
        let y0 = r.y as int / 1000;
        let x1 = ceil_div_spec(r.x + r.w, 1000);
        let y1 = ceil_div_spec(r.y + r.h, 1000);
        if self.orientation == Color::White {
            let xmin = self.width as int / 2 + (x0 - 4) * s / 9;
            let ymin = self.height as int / 2 + (y0 - 4) * s / 9;
            let xmax = (self.width + 1) as int / 2 + ceil_div_spec((x1 - 4) * s, 9);
            let ymax = (self.height + 1) as int / 2 + ceil_div_spec((y1 - 4) * s, 9);
            PixelRect {
                x: xmin as i64,
                y: ymin as i64,
                w: (xmax - xmin) as i64,
                h: (ymax - ymin) as i64,
            }
        } else {
            let xmin = self.width as int / 2 + (4 - x1) * s / 9;
            let ymin = self.height as int / 2 + (4 - y1) * s / 9;
            let xmax = (self.width + 1) as int / 2 + ceil_div_spec((4 - x0) * s, 9);
            let ymax = (self.height + 1) as int / 2 + ceil_div_spec((4 - y0) * s, 9);
            PixelRect {
                x: xmin as i64,
                y: ymin as i64,
                w: (xmax - xmin) as i64,
                h: (ymax - ymin) as i64,
            }
        }
    }

    /// The device-pixel rectangle that covers a milli-unit rectangle.
    pub fn rect_to_pixels(&self, r: BoardRect) -> (p: PixelRect)
        requires
            self.wf(),
            r.bounded(),
        ensures
            p == self.rect_to_pixels_spec(r),
            p.w >= 0,
            p.h >= 0,
    {
        let s = self.size() as i64;
        let x0 = floor_div(r.x, 1000);
        let y0 = floor_div(r.y, 1000);
        let x1 = ceil_div(r.x + r.w, 1000);
        let y1 = ceil_div(r.y + r.h, 1000);
        proof {
            lemma_ceil_ge_floor(r.x as int, (r.x + r.w) as int, 1000);
            lemma_ceil_ge_floor(r.y as int, (r.y + r.h) as int, 1000);
            lemma_div_is_ordered(-100_000, r.x as int, 1000);
            lemma_div_is_ordered(r.x as int, 100_000, 1000);
            lemma_div_is_ordered(-100_000, r.y as int, 1000);
            lemma_div_is_ordered(r.y as int, 100_000, 1000);
            lemma_div_is_ordered(-300_000, -(r.x + r.w) as int, 1000);
            lemma_div_is_ordered(-(r.x + r.w) as int, 100_000, 1000);
            lemma_div_is_ordered(-300_000, -(r.y + r.h) as int, 1000);
            lemma_div_is_ordered(-(r.y + r.h) as int, 100_000, 1000);
            assert((x0 - 4) * s <= (x1 - 4) * s && (y0 - 4) * s <= (y1 - 4) * s && (4 - x1) * s
                <= (4 - x0) * s && (4 - y1) * s <= (4 - y0) * s && -1_000_000_000_000 <= (x0 - 4)
                * s <= 1_000_000_000_000 && -1_000_000_000_000 <= (x1 - 4) * s
                <= 1_000_000_000_000 && -1_000_000_000_000 <= (y0 - 4) * s <= 1_000_000_000_000
                && -1_000_000_000_000 <= (y1 - 4) * s <= 1_000_000_000_000 && -1_000_000_000_000
                <= (4 - x0) * s <= 1_000_000_000_000 && -1_000_000_000_000 <= (4 - x1) * s
                <= 1_000_000_000_000 && -1_000_000_000_000 <= (4 - y0) * s <= 1_000_000_000_000
                && -1_000_000_000_000 <= (4 - y1) * s <= 1_000_000_000_000) by (nonlinear_arith)
                requires
                    x0 <= x1 && y0 <= y1 && 9 <= s <= 1_000_000 && -301 <= x0 <= 301 && -301 <= x1
                        <= 301 && -301 <= y0 <= 301 && -301 <= y1 <= 301,
            ;
        }
        let (xmin, ymin, xmax, ymax): (i64, i64, i64, i64) = if matches!(
            self.orientation,
            Color::White,
        ) {
            proof {
                lemma_ceil_ge_floor((x0 - 4) * s as int, (x1 - 4) * s as int, 9);
                lemma_ceil_ge_floor((y0 - 4) * s as int, (y1 - 4) * s as int, 9);
            }
            (
                (self.width / 2) as i64 + floor_div((x0 - 4) * s, 9),
                (self.height / 2) as i64 + floor_div((y0 - 4) * s, 9),
                ((self.width + 1) / 2) as i64 + ceil_div((x1 - 4) * s, 9),
                ((self.height + 1) / 2) as i64 + ceil_div((y1 - 4) * s, 9),
            )
        } else {
            proof {
                lemma_ceil_ge_floor((4 - x1) * s as int, (4 - x0) * s as int, 9);
                lemma_ceil_ge_floor((4 - y1) * s as int, (4 - y0) * s as int, 9);
            }
            (
                (self.width / 2) as i64 + floor_div((4 - x1) * s, 9),
                (self.height / 2) as i64 + floor_div((4 - y1) * s, 9),
                ((self.width + 1) / 2) as i64 + ceil_div((4 - x0) * s, 9),
                ((self.height + 1) / 2) as i64 + ceil_div((4 - y0) * s, 9),
            )
        };
        PixelRect { x: xmin, y: ymin, w: xmax - xmin, h: ymax - ymin }
    }
}

} // verus!
