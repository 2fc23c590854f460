//! Random draws for spawn points and wander directions: one trusted call
//! into the `rand` crate, and verified helpers shaped on top of it.
//!
//! Every contract downstream states what holds of *every* draw, so the
//! simulation is verified for any outcome the generator produces.

use vstd::prelude::*;
use crate::geometry::Vec2;
use crate::geometry::is_unit_dir;
use crate::geometry::MILLI;
use crate::arena::SPAWN_HALF_W;
use crate::arena::SPAWN_HALF_H;

verus! {

/// Relies on `rand::random_range` over the half-open integer range
/// `lo..hi`: the sampler returns a value of that range and panics only on
/// an empty range, which the precondition rules out. Nothing further is
/// assumed of the draw.
#[verifier::external_body]
fn random_in_range(lo: i64, hi: i64) -> (r: i64)
    requires
        lo < hi,
    ensures
        lo <= r < hi,
{
    rand::random_range(lo..hi)
}

/// A point of the fixed spawn rectangle, drawn at random.
pub fn random_spawn_point() -> (r: Vec2)
    ensures
        -SPAWN_HALF_W <= r.x < SPAWN_HALF_W,
        -SPAWN_HALF_H <= r.y < SPAWN_HALF_H,
{
    let x: i64 = random_in_range(-SPAWN_HALF_W, SPAWN_HALF_W);
    let y: i64 = random_in_range(-SPAWN_HALF_H, SPAWN_HALF_H);
    Vec2 { x, y }
}

/// A wander direction drawn at random: a raw vector with components below
/// one unit, normalized to near-unit length. The one raw draw that cannot
/// be normalized, the zero vector, falls back to the positive x axis.
pub fn random_unit_dir() -> (r: Vec2)
    ensures
        is_unit_dir(r),
{
    let x: i64 = random_in_range(-MILLI, MILLI);
    let y: i64 = random_in_range(-MILLI, MILLI);
    if x == 0 && y == 0 {
        let d = Vec2 { x: MILLI, y: 0 };
        proof {
            assert(d.spec_len_sq() == 1_000_000) by (nonlinear_arith)
                requires
                    d.x == 1000 && d.y == 0,
            {
            }
        }
        d
    } else {
        let raw = Vec2 { x, y };
        raw.normalize()
    }
}

} // verus!
