//! Axis-aligned boxes and exact intersection-over-union comparison.
//!
//! Box coordinates live in the model's output coordinate space as `i64`
//! fixed-point values.  IoU against a threshold is decided exactly by
//! cross-multiplication, so no division or rounding is involved.

use vstd::prelude::*;
use crate::fixed::PPM_ONE;

verus! {

/// Every well-formed box coordinate lies within this magnitude, so areas and
/// threshold cross-products fit comfortably in `i128`.
pub const COORD_LIMIT: i64 = 0x40000000;

/// An axis-aligned bounding box: min corner and max corner.
#[derive(Clone, Copy, Debug, PartialEq, Eq, Structural)]
pub struct Rect {
    pub min_x: i64,
    pub min_y: i64,
    pub max_x: i64,
    pub max_y: i64,
}

impl Rect {
    /// Min corner at most max corner on both axes, coordinates bounded.
    pub open spec fn wf(self) -> bool {
        &&& -COORD_LIMIT <= self.min_x <= self.max_x <= COORD_LIMIT
        &&& -COORD_LIMIT <= self.min_y <= self.max_y <= COORD_LIMIT
    }

    /// The area of the box.
    pub open spec fn area(self) -> int {
        (self.max_x - self.min_x) * (self.max_y - self.min_y)
    }
}

/// The length of the overlap of two intervals, zero if they are disjoint.
pub open spec fn overlap_len(a_min: int, a_max: int, b_min: int, b_max: int) -> int {
    let lo = if a_min >= b_min { a_min } else { b_min };
    let hi = if a_max <= b_max { a_max } else { b_max };
    if hi >= lo {
        hi - lo
    } else {
        0
    }
}

/// The area of the intersection of two boxes.
pub open spec fn inter_area(a: Rect, b: Rect) -> int {
    overlap_len(a.min_x as int, a.max_x as int, b.min_x as int, b.max_x as int) * overlap_len(
        a.min_y as int,
        a.max_y as int,
        b.min_y as int,
        b.max_y as int,
    )
}

/// The area of the union of two boxes.
pub open spec fn union_area(a: Rect, b: Rect) -> int {
    a.area() + b.area() - inter_area(a, b)
}

/// Whether the IoU of `a` and `b` strictly exceeds `thr_ppm` (a fixed-point
/// threshold in parts per million), decided by cross-multiplication:
/// `inter / union > thr  <=>  inter * 1_000_000 > union * thr`.
pub open spec fn iou_exceeds(a: Rect, b: Rect, thr_ppm: u32) -> bool {
    inter_area(a, b) * (PPM_ONE as int) > union_area(a, b) * (thr_ppm as int)
}

/// IoU comparison is symmetric in the two boxes.
pub proof fn lemma_iou_symmetric(a: Rect, b: Rect, thr_ppm: u32)
    ensures
        iou_exceeds(a, b, thr_ppm) == iou_exceeds(b, a, thr_ppm),
{
}

/// Exceeding a higher threshold implies exceeding a lower one.
pub proof fn lemma_iou_threshold_monotone(a: Rect, b: Rect, t1: u32, t2: u32)
    requires
        t1 <= t2,
        a.wf(),
        b.wf(),
    ensures
        iou_exceeds(a, b, t2) ==> iou_exceeds(a, b, t1),
{
    if iou_exceeds(a, b, t2) {
        lemma_union_area_bounds(a, b);
        assert(union_area(a, b) * (t1 as int) <= union_area(a, b) * (t2 as int))
            by (nonlinear_arith)
            requires
                t1 <= t2,
                union_area(a, b) >= 0,
        ;
    }
}

/// Areas of well-formed boxes are nonnegative and bounded, the intersection
/// is no larger than either box, and the union is at least each box.
pub proof fn lemma_union_area_bounds(a: Rect, b: Rect)
    requires
        a.wf(),
        b.wf(),
    ensures
        0 <= inter_area(a, b),
        inter_area(a, b) <= a.area(),
        0 <= union_area(a, b),
        a.area() <= union_area(a, b) + inter_area(a, b),
{
    let ox = overlap_len(a.min_x as int, a.max_x as int, b.min_x as int, b.max_x as int);
    let oy = overlap_len(a.min_y as int, a.max_y as int, b.min_y as int, b.max_y as int);
    let wx = a.max_x - a.min_x;
    let wy = a.max_y - a.min_y;
    assert(0 <= ox <= wx);
    assert(0 <= oy <= wy);
    assert(ox * oy <= wx * wy && 0 <= ox * oy) by (nonlinear_arith)
        requires
            0 <= ox <= wx,
            0 <= oy <= wy,
    ;
    let bx = b.max_x - b.min_x;
    let by0 = b.max_y - b.min_y;
    assert(ox * oy <= bx * by0) by (nonlinear_arith)
        requires
            0 <= ox <= bx,
            0 <= oy <= by0,
    ;
}

/// Decides whether the IoU of two boxes strictly exceeds a threshold.
pub fn rect_iou_exceeds(a: &Rect, b: &Rect, thr_ppm: u32) -> (r: bool)
    requires
        a.wf(),
        b.wf(),
        thr_ppm <= PPM_ONE,
    ensures
        r == iou_exceeds(*a, *b, thr_ppm),
{
    let lox = if a.min_x >= b.min_x { a.min_x } else { b.min_x };
    let hix = if a.max_x <= b.max_x { a.max_x } else { b.max_x };
    let ox: i64 = if hix >= lox { hix - lox } else { 0 };
    let loy = if a.min_y >= b.min_y { a.min_y } else { b.min_y };
    let hiy = if a.max_y <= b.max_y { a.max_y } else { b.max_y };
    let oy: i64 = if hiy >= loy { hiy - loy } else { 0 };
    let wax: i64 = a.max_x - a.min_x;
    let way: i64 = a.max_y - a.min_y;
    let wbx: i64 = b.max_x - b.min_x;
    let wby: i64 = b.max_y - b.min_y;
    proof {
        assert(0 <= (ox as int) * (oy as int) <= 0x4000000000000000 &&
               0 <= (wax as int) * (way as int) <= 0x4000000000000000 &&
               0 <= (wbx as int) * (wby as int) <= 0x4000000000000000)
            by (nonlinear_arith)
            requires
                0 <= ox <= 0x80000000,
                0 <= oy <= 0x80000000,
                0 <= wax <= 0x80000000,
                0 <= way <= 0x80000000,
                0 <= wbx <= 0x80000000,
                0 <= wby <= 0x80000000,
        ;
    }
    let inter: i128 = ox as i128 * oy as i128;
    let area_a: i128 = wax as i128 * way as i128;
    let area_b: i128 = wbx as i128 * wby as i128;
    let uni: i128 = area_a + area_b - inter;
    proof {
        lemma_union_area_bounds(*a, *b);
        lemma_union_area_bounds(*b, *a);
        assert((inter as int) * (PPM_ONE as int) <= 0x400000000000000000000 &&
               (inter as int) * (PPM_ONE as int) >= 0 &&
               (uni as int) * (thr_ppm as int) <= 0x800000000000000000000 &&
               (uni as int) * (thr_ppm as int) >= 0)
            by (nonlinear_arith)
            requires
                0 <= inter <= 0x4000000000000000,
                0 <= uni <= 0x8000000000000000,
                0 <= thr_ppm <= 0x100000,
                PPM_ONE == 1000000,
        ;
    }
    inter * PPM_ONE as i128 > uni * thr_ppm as i128
}

/// The clamp of `v` to `[lo, hi]`, as executable code.
pub fn clamp_i64(v: i64, lo: i64, hi: i64) -> (r: i64)
    requires
        lo <= hi,
    ensures
        r == crate::fixed::clampi(v as int, lo as int, hi as int),
{
    if v < lo {
        lo
    } else if v > hi {
        hi
    } else {
        v
    }
}

} // verus!
