//! Fixed-point world geometry: vectors, extents, the playfield, the per-step
//! displacement and the bounding-box overlap test.
//!
//! All lengths are whole numbers of fixed-point steps, `UNIT` steps to one
//! world unit. Durations are whole nanoseconds.

use vstd::prelude::*;

verus! {

/// Number of fixed-point steps in one world unit.
pub const UNIT: i64 = 1000;

/// Number of nanoseconds in one second.
pub const NANOS_PER_SECOND: u64 = 1_000_000_000;

/// A point or a direction in the plane, in fixed-point steps.
#[derive(Clone, Copy, Debug, PartialEq, Eq)]
pub struct Vec2 {
    pub x: i64,
    pub y: i64,
}

/// A pair of non-negative magnitudes, one per axis, in fixed-point steps.
///
/// As a size it is the half-extent of a bounding box; as a scale it is the
/// factor applied to a size, `UNIT` standing for a factor of one.
#[derive(Clone, Copy, Debug, PartialEq, Eq)]
pub struct Extent {
    pub x: u32,
    pub y: u32,
}

/// Width and height of the playfield, which is centred on the origin.
#[derive(Clone, Copy, Debug, PartialEq, Eq)]
pub struct WinSize {
    pub w: i64,
    pub h: i64,
}

/// The scale of an entity that carries none: a factor of one on both axes.
pub open spec fn unit_scale() -> Extent {
    Extent { x: UNIT as u32, y: UNIT as u32 }
}

/// The coordinate range: a value beyond it is replaced by the nearest end.
pub open spec fn clamp_coord(x: int) -> int {
    if x < i64::MIN {
        i64::MIN as int
    } else if x > i64::MAX {
        i64::MAX as int
    } else {
        x
    }
}

/// Steps covered along one axis in one timestep: `v * timestep * speed`
/// with `timestep` in nanoseconds and `speed` per second, rounded toward zero.
pub open spec fn displacement(v: int, timestep: int, speed: int) -> int {
    if v >= 0 {
        (v * timestep * speed) / (NANOS_PER_SECOND as int)
    } else {
        -(((-v) * timestep * speed) / (NANOS_PER_SECOND as int))
    }
}

/// A coordinate after one timestep at velocity `v`.
pub open spec fn advance_coord(x: int, v: int, timestep: int, speed: int) -> int {
    clamp_coord(x + displacement(v, timestep, speed))
}

/// A position after one timestep at velocity `v`.
pub open spec fn advance_position(p: Vec2, v: Vec2, timestep: u32, speed: u32) -> Vec2 {
    Vec2 {
        x: advance_coord(p.x as int, v.x as int, timestep as int, speed as int) as i64,
        y: advance_coord(p.y as int, v.y as int, timestep as int, speed as int) as i64,
    }
}

/// Whether `p` lies outside the playfield widened by `margin` on all four
/// sides. A point on the widened border is still inside.
pub open spec fn out_of_bounds(p: Vec2, win: WinSize, margin: i64) -> bool {
    ||| 2 * p.y > win.h + 2 * margin
    ||| 2 * p.y < -(win.h + 2 * margin)
    ||| 2 * p.x > win.w + 2 * margin
    ||| 2 * p.x < -(win.w + 2 * margin)
}

/// Distance between two coordinates.
pub open spec fn distance(a: int, b: int) -> int {
    if a >= b {
        a - b
    } else {
        b - a
    }
}

/// Whether two intervals, centred at `a` and `b` with half-lengths
/// `a_size * a_scale / UNIT` and `b_size * b_scale / UNIT`, share an inner point.
pub open spec fn overlap_axis(a: int, a_size: int, a_scale: int, b: int, b_size: int, b_scale: int) -> bool {
    UNIT * distance(a, b) < a_size * a_scale + b_size * b_scale
}

/// Whether two axis-aligned boxes overlap on both axes. Each box is centred on
/// its position and reaches its scaled size to either side.
pub open spec fn boxes_overlap(
    a_pos: Vec2,
    a_size: Extent,
    a_scale: Extent,
    b_pos: Vec2,
    b_size: Extent,
    b_scale: Extent,
) -> bool {
    &&& overlap_axis(a_pos.x as int, a_size.x as int, a_scale.x as int, b_pos.x as int, b_size.x as int, b_scale.x as int)
    &&& overlap_axis(a_pos.y as int, a_size.y as int, a_scale.y as int, b_pos.y as int, b_size.y as int, b_scale.y as int)
}

proof fn lemma_product_bound(a: int, b: int, c: int)
    requires
        0 <= a <= 0x8000_0000_0000_0000,
        0 <= b <= 0xffff_ffff,
        0 <= c <= 0xffff_ffff,
    ensures
        0 <= a * b <= 0x8000_0000_0000_0000 * 0xffff_ffff,
        0 <= a * b * c <= 0x8000_0000_0000_0000 * 0xffff_ffff * 0xffff_ffff,
{
    assert(0 <= a * b <= 0x8000_0000_0000_0000 * 0xffff_ffff) by (nonlinear_arith)
        requires
            0 <= a <= 0x8000_0000_0000_0000,
            0 <= b <= 0xffff_ffff,
    ;
    let ab: int = a * b;
    assert(0 <= ab * c <= (0x8000_0000_0000_0000 * 0xffff_ffff) * 0xffff_ffff) by (nonlinear_arith)
        requires
            0 <= ab <= 0x8000_0000_0000_0000 * 0xffff_ffff,
            0 <= c <= 0xffff_ffff,
    ;
}

proof fn lemma_scaled_bound(a: int, b: int)
    requires
        0 <= a <= 0xffff_ffff,
        0 <= b <= 0xffff_ffff,
    ensures
        0 <= a * b <= 0xffff_ffff * 0xffff_ffff,
{
    assert(0 <= a * b <= 0xffff_ffff * 0xffff_ffff) by (nonlinear_arith)
        requires
            0 <= a <= 0xffff_ffff,
            0 <= b <= 0xffff_ffff,
    ;
}

/// Moves one coordinate by one timestep.
pub fn step_coord(x: i64, v: i64, timestep: u32, speed: u32) -> (r: i64)
    ensures
        r == advance_coord(x as int, v as int, timestep as int, speed as int),
{
    let magnitude: u128 = if v >= 0 {
        v as u128
    } else {
        (-(v as i128)) as u128
    };
    proof {
        lemma_product_bound(magnitude as int, timestep as int, speed as int);
    }
    let product: u128 = magnitude * (timestep as u128) * (speed as u128);
    let covered: u128 = product / (NANOS_PER_SECOND as u128);
    let target: i128 = if v >= 0 {
        x as i128 + covered as i128
    } else {
        x as i128 - covered as i128
    };
    if target < i64::MIN as i128 {
        i64::MIN
    } else if target > i64::MAX as i128 {
        i64::MAX
    } else {
        target as i64
    }
}

/// Moves a position by one timestep.
pub fn step_position(p: Vec2, v: Vec2, timestep: u32, speed: u32) -> (r: Vec2)
    ensures
        r == advance_position(p, v, timestep, speed),
{
    Vec2 { x: step_coord(p.x, v.x, timestep, speed), y: step_coord(p.y, v.y, timestep, speed) }
}

/// Tests a position against the playfield widened by `margin`.
pub fn is_out_of_bounds(p: Vec2, win: WinSize, margin: i64) -> (r: bool)
    ensures
        r == out_of_bounds(p, win, margin),
{
    let limit_x: i128 = win.w as i128 + 2 * (margin as i128);
    let limit_y: i128 = win.h as i128 + 2 * (margin as i128);
    let px: i128 = 2 * (p.x as i128);
    let py: i128 = 2 * (p.y as i128);
    py > limit_y || py < -limit_y || px > limit_x || px < -limit_x
}

fn axis_overlaps(a: i64, a_size: u32, a_scale: u32, b: i64, b_size: u32, b_scale: u32) -> (r: bool)
    ensures
        r == overlap_axis(a as int, a_size as int, a_scale as int, b as int, b_size as int, b_scale as int),
{
    let gap: i128 = if a >= b {
        a as i128 - b as i128
    } else {
        b as i128 - a as i128
    };
    proof {
        lemma_scaled_bound(a_size as int, a_scale as int);
        lemma_scaled_bound(b_size as int, b_scale as int);
        assert(UNIT * gap == 1000 * gap);
    }
    let reach: i128 = (a_size as i128) * (a_scale as i128) + (b_size as i128) * (b_scale as i128);
    (UNIT as i128) * gap < reach
}

/// Tests two axis-aligned boxes for overlap on both axes.
pub fn overlaps(
    a_pos: Vec2,
    a_size: Extent,
    a_scale: Extent,
    b_pos: Vec2,
    b_size: Extent,
    b_scale: Extent,
) -> (r: bool)
    ensures
        r == boxes_overlap(a_pos, a_size, a_scale, b_pos, b_size, b_scale),
{
    axis_overlaps(a_pos.x, a_size.x, a_scale.x, b_pos.x, b_size.x, b_scale.x)
        && axis_overlaps(a_pos.y, a_size.y, a_scale.y, b_pos.y, b_size.y, b_scale.y)
}

} // verus!
