//! Integer model of the gauge's dot geometry.
//!
//! Every terminal cell is a 2 x 4 grid of addressable dots, so a region of
//! `width x height` cells is a canvas of `2*width` by `4*height` dots.  All
//! lengths below are measured in *half-dot* units: dot coordinates are doubled
//! so that every dot center, and the canvas center, lands on an integer.  In
//! these units the largest circle that fits the canvas has diameter
//! `min(2*width, 4*height)` half-dots, which equals its radius in dots.
//!
//! Angles are measured in fixed-point *turn* units: [`TURN`] units make one
//! full revolution, counterclockwise from the positive x axis with the screen's
//! vertical axis flipped (rows grow downward, geometry points upward).  A dot's
//! direction is given by an exact piecewise-rational pseudo-angle: within each
//! quadrant the fraction advanced is `num / (|x| + |y|)`, which is continuous,
//! strictly monotone in the true angle, and agrees with it at every quarter
//! turn.  Comparing that rational against a fixed-point bound needs only
//! integer products, so the whole fill decision is exact arithmetic.

use vstd::prelude::*;
use vstd::arithmetic::div_mod::lemma_mod_bound;

verus! {

/// Fixed-point angle units in one full revolution.
pub const TURN: u32 = 1000000;

/// Canvas width in dots.
pub open spec fn canvas_w(width: u16) -> int {
    2 * width
}

/// Canvas height in dots.
pub open spec fn canvas_h(height: u16) -> int {
    4 * height
}

/// Horizontal offset of dot column `px`'s center from the canvas center,
/// in half-dot units.  Always odd, hence never zero.
pub open spec fn off_x(width: u16, px: int) -> int {
    2 * px + 1 - canvas_w(width)
}

/// Vertical offset of dot row `py`'s center from the canvas center, upward
/// positive (screen rows grow downward).  Always odd, hence never zero.
pub open spec fn off_y(height: u16, py: int) -> int {
    canvas_h(height) - (2 * py + 1)
}

/// Squared distance from the canvas center, in half-dot units.
pub open spec fn dist2(x: int, y: int) -> int {
    x * x + y * y
}

/// Diameter of the largest circle that fits the canvas, in half-dot units
/// (numerically equal to the circle's radius in dots).
pub open spec fn ring_diameter(width: u16, height: u16) -> int {
    if canvas_w(width) <= canvas_h(height) {
        canvas_w(width)
    } else {
        canvas_h(height)
    }
}

/// Requested stroke (in half-dot units) clamped into `[0, ring_diameter]`.
pub open spec fn clamped_stroke(stroke: u32, width: u16, height: u16) -> int {
    if stroke <= ring_diameter(width, height) {
        stroke as int
    } else {
        ring_diameter(width, height)
    }
}

/// The annulus test: the dot at column `px`, row `py` belongs to the ring iff
/// its distance from the center lies in `[radius - stroke, radius]`, both ends
/// inclusive.
pub open spec fn dot_in_ring(width: u16, height: u16, stroke: u32, px: int, py: int) -> bool {
    let x = off_x(width, px);
    let y = off_y(height, py);
    let r = ring_diameter(width, height);
    let s = clamped_stroke(stroke, width, height);
    dist2(x, y) <= r * r && dist2(x, y) >= (r - s) * (r - s)
}

/// Absolute value.
pub open spec fn abs_of(x: int) -> int {
    if x < 0 {
        -x
    } else {
        x
    }
}

/// Quadrant of a direction whose components are both nonzero, counted
/// counterclockwise from the positive x axis.
pub open spec fn quadrant(x: int, y: int) -> int
    recommends
        x != 0,
        y != 0,
{
    if x > 0 && y > 0 {
        0
    } else if x < 0 && y > 0 {
        1
    } else if x < 0 && y < 0 {
        2
    } else {
        3
    }
}

/// Numerator of the fraction of its quadrant that the direction `(x, y)` has
/// advanced through; the denominator is `|x| + |y|`.  The fraction is 0 at the
/// quadrant's opening axis and grows strictly monotonically to 1 at its
/// closing axis.
pub open spec fn quad_num(x: int, y: int) -> int
    recommends
        x != 0,
        y != 0,
{
    let q = quadrant(x, y);
    if q == 0 {
        y
    } else if q == 1 {
        -x
    } else if q == 2 {
        -y
    } else {
        x
    }
}

/// Numerator of the direction's pseudo-angle as a fraction of a revolution:
/// the pseudo-angle of `(x, y)` is `turn_num(x, y) / (4 * (|x| + |y|))` turns.
pub open spec fn turn_num(x: int, y: int) -> int
    recommends
        x != 0,
        y != 0,
{
    quadrant(x, y) * (abs_of(x) + abs_of(y)) + quad_num(x, y)
}

/// How far behind `start` the direction `(x, y)` sits, sweeping clockwise in
/// screen terms, in units of `1 / (4 * (|x| + |y|) * TURN)` of a revolution.
/// This is the exact integer form of `(start - angle(x, y)) mod 1` turn.
pub open spec fn sweep_num(start: u32, x: int, y: int) -> int
    recommends
        x != 0,
        y != 0,
{
    let den = abs_of(x) + abs_of(y);
    let m = 4 * den * (TURN as int);
    ((start as int) * 4 * den + m - turn_num(x, y) * (TURN as int)) % m
}

/// The fill test: the dot's angular offset behind `start` is at most the
/// filled fraction `ratio` of a revolution.
pub open spec fn dot_angle_filled(start: u32, ratio: u32, x: int, y: int) -> bool
    recommends
        x != 0,
        y != 0,
{
    sweep_num(start, x, y) <= (ratio as int) * 4 * (abs_of(x) + abs_of(y))
}

/// A dot counts as filled iff it lies in the ring and passes the fill test.
pub open spec fn dot_filled(
    width: u16,
    height: u16,
    stroke: u32,
    start: u32,
    ratio: u32,
    px: int,
    py: int,
) -> bool {
    &&& dot_in_ring(width, height, stroke, px, py)
    &&& dot_angle_filled(start, ratio, off_x(width, px), off_y(height, py))
}

/// Classifies one dot of the canvas: returns whether it lies in the ring and
/// whether it counts as filled, exactly as the spec-level geometry says.
pub fn dot_state(
    width: u16,
    height: u16,
    stroke: u32,
    start: u32,
    ratio: u32,
    px: u32,
    py: u32,
) -> (r: (bool, bool))
    requires
        px < 2 * (width as int),
        py < 4 * (height as int),
        start <= TURN,
        ratio <= TURN,
    ensures
        r.0 == dot_in_ring(width, height, stroke, px as int, py as int),
        r.1 == dot_filled(width, height, stroke, start, ratio, px as int, py as int),
{
    let w2: i64 = 2 * (width as i64);
    let h4: i64 = 4 * (height as i64);
    let fx: i64 = 2 * (px as i64) + 1 - w2;
    let fy: i64 = h4 - (2 * (py as i64) + 1);
    assert(fx == off_x(width, px as int));
    assert(fy == off_y(height, py as int));
    assert(-262144 < fx < 262144 && -262144 < fy < 262144);
    assert(fx * fx + fy * fy < 0x4000000000i64 && fx * fx >= 0 && fy * fy >= 0)
        by (nonlinear_arith)
        requires
            -262144 < fx < 262144 && -262144 < fy < 262144,
    ;
    let d2: i64 = fx * fx + fy * fy;
    let r: i64 = if w2 <= h4 {
        w2
    } else {
        h4
    };
    let s: i64 = if (stroke as i64) <= r {
        stroke as i64
    } else {
        r
    };
    assert(0 <= r - s <= r < 262144);
    assert(r * r < 0x4000000000i64 && (r - s) * (r - s) <= r * r) by (nonlinear_arith)
        requires
            0 <= r - s <= r < 262144,
    ;
    let in_ring: bool = d2 <= r * r && d2 >= (r - s) * (r - s);

    let ax: u64 = if fx < 0 {
        (-fx) as u64
    } else {
        fx as u64
    };
    let ay: u64 = if fy < 0 {
        (-fy) as u64
    } else {
        fy as u64
    };
    assert(fx != 0 && fy != 0);
    assert(1 <= ax < 262144 && 1 <= ay < 262144);
    let den: u64 = ax + ay;
    let tn: u64 = if fx > 0 && fy > 0 {
        ay
    } else if fx < 0 && fy > 0 {
        den + ax
    } else if fx < 0 && fy < 0 {
        2 * den + ay
    } else {
        3 * den + ax
    };
    assert(tn as int == turn_num(fx as int, fy as int));
    assert(1 <= tn && tn < 4 * den);
    let m: u64 = 4 * den * (TURN as u64);
    assert((start as int) * 4 * (den as int) <= (TURN as int) * 4 * (den as int)
        && (ratio as int) * 4 * (den as int) <= (TURN as int) * 4 * (den as int)
        && (tn as int) * (TURN as int) <= 4 * (den as int) * (TURN as int)) by (nonlinear_arith)
        requires
            start <= TURN,
            ratio <= TURN,
            tn <= 4 * den,
            0 <= den,
            0 < TURN,
    ;
    let s4: u64 = (start as u64) * 4 * den;
    let u4: u64 = tn * (TURN as u64);
    let wv: u64 = (s4 + m - u4) % m;
    let r4: u64 = (ratio as u64) * 4 * den;
    let angle_ok: bool = wv <= r4;
    assert(wv as int == sweep_num(start, fx as int, fy as int));
    (in_ring, in_ring && angle_ok)
}

/// Law: a dot counted as filled always lies in the ring band; nothing is ever
/// drawn outside the annulus.
pub proof fn lemma_filled_is_in_ring(
    width: u16,
    height: u16,
    stroke: u32,
    start: u32,
    ratio: u32,
    px: int,
    py: int,
)
    ensures
        dot_filled(width, height, stroke, start, ratio, px, py) ==> dot_in_ring(
            width,
            height,
            stroke,
            px,
            py,
        ),
{
}

/// Law: the filled dots grow monotonically with the ratio — a dot filled at a
/// smaller ratio stays filled at any larger one (same start angle and stroke).
pub proof fn lemma_fill_monotone(
    width: u16,
    height: u16,
    stroke: u32,
    start: u32,
    r1: u32,
    r2: u32,
    px: int,
    py: int,
)
    requires
        r1 <= r2,
    ensures
        dot_filled(width, height, stroke, start, r1, px, py) ==> dot_filled(
            width,
            height,
            stroke,
            start,
            r2,
            px,
            py,
        ),
{
    let den = abs_of(off_x(width, px)) + abs_of(off_y(height, py));
    assert((r1 as int) * 4 * den <= (r2 as int) * 4 * den) by (nonlinear_arith)
        requires
            r1 <= r2,
            den >= 0,
    ;
}

/// Law: at the full ratio every ring dot is filled.
pub proof fn lemma_full_ratio_fills(
    width: u16,
    height: u16,
    stroke: u32,
    start: u32,
    px: int,
    py: int,
)
    requires
        start <= TURN,
    ensures
        dot_in_ring(width, height, stroke, px, py) ==> dot_filled(
            width,
            height,
            stroke,
            start,
            TURN,
            px,
            py,
        ),
{
    let x = off_x(width, px);
    let y = off_y(height, py);
    let den = abs_of(x) + abs_of(y);
    assert(x != 0 && y != 0);
    assert(den >= 2);
    let m = 4 * den * (TURN as int);
    assert(m > 0) by (nonlinear_arith)
        requires
            m == 4 * den * (TURN as int),
            den >= 2,
    ;
    lemma_mod_bound((start as int) * 4 * den + m - turn_num(x, y) * (TURN as int), m);
    assert(sweep_num(start, x, y) < m);
    assert((TURN as int) * 4 * den == m) by (nonlinear_arith)
        requires
            m == 4 * den * (TURN as int),
    ;
}

/// Law: at ratio zero a dot is filled only in the borderline case that its
/// pseudo-angle coincides exactly with the start angle.
pub proof fn lemma_zero_ratio(
    width: u16,
    height: u16,
    stroke: u32,
    start: u32,
    px: int,
    py: int,
)
    ensures
        dot_filled(width, height, stroke, start, 0, px, py) <==> (dot_in_ring(
            width,
            height,
            stroke,
            px,
            py,
        ) && sweep_num(start, off_x(width, px), off_y(height, py)) == 0),
{
    let x = off_x(width, px);
    let y = off_y(height, py);
    let den = abs_of(x) + abs_of(y);
    assert(x != 0 && y != 0);
    assert(den >= 2);
    let m = 4 * den * (TURN as int);
    assert(m > 0) by (nonlinear_arith)
        requires
            m == 4 * den * (TURN as int),
            den >= 2,
    ;
    lemma_mod_bound((start as int) * 4 * den + m - turn_num(x, y) * (TURN as int), m);
}

/// Law: a stroke at least as large as the available radius turns the ring into
/// a full disk — every dot within the radius is in the ring.
pub proof fn lemma_stroke_clamp_disk(width: u16, height: u16, stroke: u32, px: int, py: int)
    requires
        stroke as int >= ring_diameter(width, height),
    ensures
        dot_in_ring(width, height, stroke, px, py) <==> dist2(
            off_x(width, px),
            off_y(height, py),
        ) <= ring_diameter(width, height) * ring_diameter(width, height),
{
    let x = off_x(width, px);
    let y = off_y(height, py);
    let r = ring_diameter(width, height);
    let s = clamped_stroke(stroke, width, height);
    assert(s == r);
    assert(x * x >= 0 && y * y >= 0) by (nonlinear_arith);
    assert((r - s) * (r - s) == 0) by (nonlinear_arith)
        requires
            s == r,
    ;
}

} // verus!
