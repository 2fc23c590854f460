//! Arena bounds derived from the viewport, and the clamp band entities are
//! kept inside.

use vstd::prelude::*;
use crate::geometry::Vec2;

verus! {

/// Half of an entity's visual size, in milli-units: positions are clamped
/// this far inside the arena edge.
pub const MARGIN: i64 = 15_000;

/// Half-width of the fixed spawn rectangle, in milli-units.
pub const SPAWN_HALF_W: i64 = 400_000;

/// Half-height of the fixed spawn rectangle, in milli-units.
pub const SPAWN_HALF_H: i64 = 300_000;

/// Largest accepted half-extent, in milli-units; keeps squared distances
/// within machine range.
pub const MAX_HALF_EXTENT: i64 = 100_000_000;

/// The rectangular play region: x in `[-half_w, half_w]`, y in
/// `[-half_h, half_h]`, in milli-units.
#[derive(Clone, Copy, PartialEq, Eq, Structural, Debug)]
pub struct ArenaBounds {
    pub half_w: i64,
    pub half_h: i64,
}

/// Clamp of a single coordinate into `[lo, hi]`.
pub open spec fn spec_clamp(v: int, lo: int, hi: int) -> int {
    if v < lo {
        lo
    } else if v > hi {
        hi
    } else {
        v
    }
}

impl ArenaBounds {
    /// A usable arena: large enough to contain the fixed spawn rectangle
    /// plus the clamp margin, small enough for machine arithmetic.
    pub open spec fn wf(self) -> bool {
        &&& SPAWN_HALF_W + MARGIN <= self.half_w <= MAX_HALF_EXTENT
        &&& SPAWN_HALF_H + MARGIN <= self.half_h <= MAX_HALF_EXTENT
    }

    /// Whether a point lies inside the arena (closed on the border).
    pub open spec fn contains(self, p: Vec2) -> bool {
        &&& -self.half_w <= p.x <= self.half_w
        &&& -self.half_h <= p.y <= self.half_h
    }

    /// Whether a point lies inside the clamp band: the arena shrunk by the
    /// entity margin on every side.
    pub open spec fn in_clamp_band(self, p: Vec2) -> bool {
        &&& -self.half_w + MARGIN <= p.x <= self.half_w - MARGIN
        &&& -self.half_h + MARGIN <= p.y <= self.half_h - MARGIN
    }

    /// Bounds from viewport extents given in milli-units: half the width and
    /// half the height on each side of the origin.
    pub fn from_viewport(width: u64, height: u64) -> (r: ArenaBounds)
        requires
            2 * (SPAWN_HALF_W + MARGIN) <= width <= 2 * MAX_HALF_EXTENT,
            2 * (SPAWN_HALF_H + MARGIN) <= height <= 2 * MAX_HALF_EXTENT,
        ensures
            r.half_w == width / 2,
            r.half_h == height / 2,
            r.wf(),
    {
        let half_w: u64 = width / 2;
        let half_h: u64 = height / 2;
        ArenaBounds { half_w: half_w as i64, half_h: half_h as i64 }
    }

    /// Pull a point into the clamp band, coordinate by coordinate.
    pub fn clamp_into_band(self, p: Vec2) -> (r: Vec2)
        requires
            self.wf(),
        ensures
            r.x == spec_clamp(p.x as int, -self.half_w + MARGIN, self.half_w - MARGIN),
            r.y == spec_clamp(p.y as int, -self.half_h + MARGIN, self.half_h - MARGIN),
            self.in_clamp_band(r),
    {
        let lo_x: i64 = -self.half_w + MARGIN;
        let hi_x: i64 = self.half_w - MARGIN;
        let lo_y: i64 = -self.half_h + MARGIN;
        let hi_y: i64 = self.half_h - MARGIN;
        let x: i64 = if p.x < lo_x {
            lo_x
        } else if p.x > hi_x {
            hi_x
        } else {
            p.x
        };
        let y: i64 = if p.y < lo_y {
            lo_y
        } else if p.y > hi_y {
            hi_y
        } else {
            p.y
        };
        Vec2 { x, y }
    }
}

} // verus!
