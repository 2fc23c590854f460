//! The player avatar: spawn state, movement from directional input, and
//! aiming at a target point.

use vstd::prelude::*;
use crate::geometry::Vec2;
use crate::geometry::is_unit_dir;
use crate::geometry::spec_normalize;
use crate::geometry::MILLI;
use crate::geometry::COORD_LIMIT;
use crate::arena::ArenaBounds;
use crate::arena::spec_clamp;
use crate::arena::MARGIN;
use crate::arena::MAX_HALF_EXTENT;
use crate::timer::MAX_TICK_MS;

verus! {

/// The player's movement speed, in playfield units per second.
pub const PLAYER_SPEED: u64 = 200;

/// Largest accepted speed for any entity, in units per second.
pub const MAX_SPEED: u64 = 100_000;

/// Squared aim dead-zone, in squared milli-units: the facing only turns
/// toward a target strictly farther than two units from the player.
pub const AIM_THRESHOLD_SQ: i64 = 4_000_000;

/// Numerator of the per-axis scale applied to diagonal movement; over
/// `DIAG_DEN` it is the largest fraction whose square, doubled, stays at or
/// below one.
pub const DIAG_NUM: u64 = 707_106;

/// Denominator of the diagonal movement scale.
pub const DIAG_DEN: u64 = 1_000_000;

/// The player avatar: position in milli-units, facing as a near-unit
/// direction vector (the aim angle, held as its cosine/sine pair at scale
/// `MILLI`), and speed in units per second.
#[derive(Clone, Copy, PartialEq, Eq, Structural, Debug)]
pub struct Player {
    pub position: Vec2,
    pub facing: Vec2,
    pub speed: u64,
}

/// The set of pressed movement keys for one tick.
#[derive(Clone, Copy, PartialEq, Eq, Structural, Debug)]
pub struct MoveInput {
    pub up: bool,
    pub down: bool,
    pub left: bool,
    pub right: bool,
}

/// Net horizontal key contribution: right minus left, in `{-1, 0, 1}`.
pub open spec fn net_x(input: MoveInput) -> int {
    (if input.right {
        1int
    } else {
        0int
    }) - (if input.left {
        1int
    } else {
        0int
    })
}

/// Net vertical key contribution: up minus down, in `{-1, 0, 1}`.
pub open spec fn net_y(input: MoveInput) -> int {
    (if input.up {
        1int
    } else {
        0int
    }) - (if input.down {
        1int
    } else {
        0int
    })
}

/// Whether the input moves along both axes at once.
pub open spec fn is_diagonal(input: MoveInput) -> bool {
    net_x(input) != 0 && net_y(input) != 0
}

/// Per-axis displacement magnitude for one tick, in milli-units: the full
/// step `speed * dt` along a single axis, scaled by `DIAG_NUM / DIAG_DEN`
/// on each axis of a diagonal so diagonal motion is not faster.
pub open spec fn spec_axis_step(step: int, diagonal: bool) -> int {
    if diagonal {
        (step * DIAG_NUM) / DIAG_DEN as int
    } else {
        step
    }
}

/// The player after one movement update: the net key contributions scaled
/// to the per-axis step and clamped into the arena's band; facing and
/// speed untouched.
pub open spec fn spec_player_moved(p: Player, input: MoveInput, bounds: ArenaBounds, dt_ms: int) -> Player {
    let step = spec_axis_step(p.speed * dt_ms, is_diagonal(input));
    Player {
        position: Vec2 {
            x: spec_clamp(
                p.position.x + net_x(input) * step,
                -bounds.half_w + MARGIN,
                bounds.half_w - MARGIN,
            ) as i64,
            y: spec_clamp(
                p.position.y + net_y(input) * step,
                -bounds.half_h + MARGIN,
                bounds.half_h - MARGIN,
            ) as i64,
        },
        ..p
    }
}

/// The player after one aim update: the facing turns to the normalized
/// to-target vector when a target resolved outside the dead zone, and
/// stays put otherwise; position and speed untouched.
pub open spec fn spec_player_aimed(p: Player, target: Option<Vec2>) -> Player {
    match target {
        None => p,
        Some(t) => {
            let to_x = t.x - p.position.x;
            let to_y = t.y - p.position.y;
            if to_x * to_x + to_y * to_y > AIM_THRESHOLD_SQ {
                let d = spec_normalize(to_x, to_y);
                Player { facing: Vec2 { x: d.0 as i64, y: d.1 as i64 }, ..p }
            } else {
                p
            }
        },
    }
}

impl Player {
    /// Consistency relative to the arena: inside the clamp band, facing a
    /// near-unit direction, speed within machine range.
    pub open spec fn wf(self, bounds: ArenaBounds) -> bool {
        &&& bounds.in_clamp_band(self.position)
        &&& is_unit_dir(self.facing)
        &&& self.speed <= MAX_SPEED
    }
}

/// The player as it enters the arena: at the origin, facing along the
/// positive x axis (aim angle zero), at the fixed player speed.
pub fn spawn_player() -> (r: Player)
    ensures
        r.position == (Vec2 { x: 0, y: 0 }),
        r.facing == (Vec2 { x: MILLI, y: 0 }),
        r.speed == PLAYER_SPEED,
        forall|bounds: ArenaBounds| bounds.wf() ==> r.wf(bounds),
{
    Player { position: Vec2 { x: 0, y: 0 }, facing: Vec2 { x: MILLI, y: 0 }, speed: PLAYER_SPEED }
}

/// Move the player by the pressed keys: the sum of unit axis contributions,
/// normalized on a diagonal so diagonal motion is not faster, scaled by
/// speed and elapsed time, then clamped into the arena's band.
pub fn player_movement(player: &mut Player, input: MoveInput, bounds: ArenaBounds, dt_ms: u64)
    requires
        old(player).wf(bounds),
        bounds.wf(),
        dt_ms <= MAX_TICK_MS,
    ensures
        *final(player) == spec_player_moved(*old(player), input, bounds, dt_ms as int),
        final(player).facing == old(player).facing,
        final(player).speed == old(player).speed,
        final(player).wf(bounds),
        ({
            let step = spec_axis_step(old(player).speed * dt_ms, is_diagonal(input));
            let moved_x = old(player).position.x + net_x(input) * step;
            let moved_y = old(player).position.y + net_y(input) * step;
            final(player).position.x == spec_clamp(
                moved_x,
                -bounds.half_w + MARGIN,
                bounds.half_w - MARGIN,
            ) && final(player).position.y == spec_clamp(
                moved_y,
                -bounds.half_h + MARGIN,
                bounds.half_h - MARGIN,
            )
        }),
{
    let mut nx: i64 = 0;
    let mut ny: i64 = 0;
    if input.right {
        nx = nx + 1;
    }
    if input.left {
        nx = nx - 1;
    }
    if input.up {
        ny = ny + 1;
    }
    if input.down {
        ny = ny - 1;
    }
    proof {
        assert(player.speed * dt_ms <= 60_000_000_000) by (nonlinear_arith)
            requires
                player.speed <= 100_000,
                dt_ms <= 600_000,
        {
        }
    }
    let full_step: u64 = player.speed * dt_ms;
    let step: u64 = if nx != 0 && ny != 0 {
        proof {
            lemma_diag_scale_bounds(full_step as int);
        }
        full_step * DIAG_NUM / DIAG_DEN
    } else {
        full_step
    };
    proof {
        assert(nx == net_x(input));
        assert(ny == net_y(input));
        assert(step as int == spec_axis_step(full_step as int, is_diagonal(input)));
        assert(step <= 60_000_000_000u64);
    }
    let dx: i64 = if nx < 0 {
        -(step as i64)
    } else if nx > 0 {
        step as i64
    } else {
        0
    };
    let dy: i64 = if ny < 0 {
        -(step as i64)
    } else if ny > 0 {
        step as i64
    } else {
        0
    };
    let moved = Vec2 { x: player.position.x + dx, y: player.position.y + dy };
    proof {
        assert(dx as int == net_x(input) * (step as int)) by (nonlinear_arith)
            requires
                nx == net_x(input),
                -1 <= nx <= 1,
                dx as int == if nx < 0 {
                    -(step as int)
                } else if nx > 0 {
                    step as int
                } else {
                    0int
                },
        {
        }
        assert(dy as int == net_y(input) * (step as int)) by (nonlinear_arith)
            requires
                ny == net_y(input),
                -1 <= ny <= 1,
                dy as int == if ny < 0 {
                    -(step as int)
                } else if ny > 0 {
                    step as int
                } else {
                    0int
                },
        {
        }
    }
    player.position = bounds.clamp_into_band(moved);
}

/// The scaled diagonal step stays within machine range and below the full
/// step.
proof fn lemma_diag_scale_bounds(step: int)
    requires
        0 <= step <= 60_000_000_000,
    ensures
        0 <= (step * DIAG_NUM) / DIAG_DEN as int <= step,
        step * DIAG_NUM <= 0x7FFF_FFFF_FFFF_FFFF,
{
    assert(step * 707_106 <= 60_000_000_000 * 707_106 && 0 <= step * 707_106) by (nonlinear_arith)
        requires
            0 <= step <= 60_000_000_000,
    {
    }
    vstd::arithmetic::div_mod::lemma_div_pos_is_pos(step * 707_106, 1_000_000);
    assert(step * 707_106 <= step * 1_000_000) by (nonlinear_arith)
        requires
            step >= 0,
    {
    }
    vstd::arithmetic::div_mod::lemma_div_is_ordered(step * 707_106, step * 1_000_000, 1_000_000);
    vstd::arithmetic::div_mod::lemma_div_multiples_vanish(step, 1_000_000);
    assert(1_000_000 * step == step * 1_000_000) by (nonlinear_arith);
}

/// Turn the player toward a target point, if one resolved this tick and it
/// sits outside the aim dead-zone; otherwise leave the facing be. Position
/// and speed never change.
pub fn player_aim(player: &mut Player, target: Option<Vec2>, bounds: ArenaBounds)
    requires
        old(player).wf(bounds),
        bounds.wf(),
        target matches Some(t) ==> t.bounded(COORD_LIMIT - MAX_HALF_EXTENT),
    ensures
        *final(player) == spec_player_aimed(*old(player), target),
        final(player).position == old(player).position,
        final(player).speed == old(player).speed,
        final(player).wf(bounds),
        match target {
            None => final(player).facing == old(player).facing,
            Some(t) => {
                let to = Vec2 {
                    x: (t.x - old(player).position.x) as i64,
                    y: (t.y - old(player).position.y) as i64,
                };
                if to.spec_len_sq() > AIM_THRESHOLD_SQ {
                    (final(player).facing.x as int, final(player).facing.y as int)
                        == spec_normalize(to.x as int, to.y as int)
                } else {
                    final(player).facing == old(player).facing
                }
            },
        },
{
    match target {
        None => {},
        Some(t) => {
            let to = Vec2 { x: t.x - player.position.x, y: t.y - player.position.y };
            proof {
                assert(to.bounded(COORD_LIMIT as int));
            }
            let d2: i64 = to.len_sq();
            if d2 > AIM_THRESHOLD_SQ {
                player.facing = to.normalize();
            }
        },
    }
}

/// Movement-magnitude law. Along a single axis the tick's displacement is
/// exactly `speed * dt`. On a diagonal each axis moves by the scaled step
/// `d`: its squared magnitude `2 * d * d` never exceeds the squared
/// axis-aligned step, and falls short of it by less than three parts per
/// million.
pub proof fn lemma_movement_magnitude(speed: u64, dt_ms: u64)
    requires
        speed <= MAX_SPEED,
        dt_ms <= MAX_TICK_MS,
    ensures
        spec_axis_step(speed * dt_ms, false) == speed * dt_ms,
        ({
            let s = speed * dt_ms;
            let d = spec_axis_step(s, true);
            2 * (d * d) <= s * s && 2_000_000 * ((d + 1) * (d + 1)) > 999_997 * (s * s)
        }),
{
    let s: int = speed * dt_ms;
    assert(0 <= s <= 60_000_000_000) by (nonlinear_arith)
        requires
            s == speed * dt_ms,
            0 <= speed <= 100_000,
            0 <= dt_ms <= 600_000,
    {
    }
    let d: int = (s * 707_106) / 1_000_000;
    vstd::arithmetic::div_mod::lemma_fundamental_div_mod(s * 707_106, 1_000_000);
    vstd::arithmetic::div_mod::lemma_mod_division_less_than_divisor(s * 707_106, 1_000_000);
    assert(1_000_000 * d <= s * 707_106 < 1_000_000 * (d + 1));
    vstd::arithmetic::div_mod::lemma_div_pos_is_pos(s * 707_106, 1_000_000);
    assert(s * 707_106 >= 0) by (nonlinear_arith)
        requires
            s >= 0,
    {
    }
    assert(2 * (d * d) <= s * s) by (nonlinear_arith)
        requires
            0 <= 1_000_000 * d <= s * 707_106,
            s >= 0,
    {
    }
    assert(2_000_000 * ((d + 1) * (d + 1)) > 999_997 * (s * s)) by (nonlinear_arith)
        requires
            1_000_000 * (d + 1) > s * 707_106,
            s >= 0,
            d >= 0,
    {
    }
}

} // verus!
