//! Wandering enemies: random spawn, a redirect timer that re-rolls the
//! wander direction, movement with reflection at the arena edges, and the
//! clamp that keeps every enemy inside.

use vstd::prelude::*;
use crate::geometry::Vec2;
use crate::geometry::is_unit_dir;
use crate::geometry::COORD_LIMIT;
use crate::geometry::spec_disp;
use crate::geometry::axis_disp;
use crate::arena::ArenaBounds;
use crate::arena::spec_clamp;
use crate::arena::MARGIN;
use crate::arena::SPAWN_HALF_W;
use crate::arena::SPAWN_HALF_H;
use crate::timer::Timer;
use crate::timer::TimerMode;
use crate::timer::MAX_TICK_MS;
use crate::player::MAX_SPEED;
use crate::randomness::random_spawn_point;
use crate::randomness::random_unit_dir;

verus! {

/// Enemy movement speed, in units per second.
pub const ENEMY_SPEED: u64 = 100;

/// Period of the redirect timer: how often an enemy re-rolls its wander
/// direction, in milliseconds.
pub const REDIRECT_MS: u64 = 3000;

/// The enemy population the arena maintains at all times.
pub const ENEMY_COUNT: usize = 5;

/// A wandering enemy with a stable identity.
#[derive(Clone, Copy, PartialEq, Eq, Structural, Debug)]
pub struct Enemy {
    pub id: u64,
    pub position: Vec2,
    pub direction: Vec2,
    pub speed: u64,
    pub change_direction_timer: Timer,
}

impl Enemy {
    /// What one movement tick needs: a position in machine range, a
    /// near-unit wander direction, speed and timer within range. The
    /// position may stand outside the arena; the tick's clamp is the
    /// safety net that brings it back.
    pub open spec fn movable(self) -> bool {
        &&& self.position.bounded(COORD_LIMIT as int)
        &&& is_unit_dir(self.direction)
        &&& self.speed <= MAX_SPEED
        &&& self.change_direction_timer.wf()
    }

    /// Consistency relative to the arena: movable, and inside the clamp
    /// band.
    pub open spec fn wf(self, bounds: ArenaBounds) -> bool {
        &&& self.movable()
        &&& bounds.in_clamp_band(self.position)
    }
}

/// An enemy exactly as spawning produces it: a point of the spawn
/// rectangle, a near-unit direction, the fixed enemy speed, and a fresh
/// three-second repeating redirect timer with nothing elapsed.
pub open spec fn is_fresh_spawn(e: Enemy) -> bool {
    &&& -SPAWN_HALF_W <= e.position.x < SPAWN_HALF_W
    &&& -SPAWN_HALF_H <= e.position.y < SPAWN_HALF_H
    &&& is_unit_dir(e.direction)
    &&& e.speed == ENEMY_SPEED
    &&& e.change_direction_timer == (Timer {
        duration_ms: REDIRECT_MS,
        elapsed_ms: 0,
        mode: TimerMode::Repeating,
        fired: false,
    })
}

/// One enemy tick, given the direction a re-roll would take: advance the
/// redirect timer (re-rolling the wander direction if it fires), move by
/// direction, speed and elapsed time, reflect the direction on each axis
/// whose moved coordinate left the arena, and clamp the position into the
/// arena's band. Reflection tests the moved position; the clamp comes
/// second, as a hard safety net independent of the bounce.
pub open spec fn spec_enemy_step(e: Enemy, fresh_dir: Vec2, bounds: ArenaBounds, dt_ms: int) -> Enemy {
    let t2 = e.change_direction_timer.spec_ticked(dt_ms);
    let used = if t2.spec_finished() {
        fresh_dir
    } else {
        e.direction
    };
    let moved_x = e.position.x + spec_disp(used.x as int, e.speed as int, dt_ms);
    let moved_y = e.position.y + spec_disp(used.y as int, e.speed as int, dt_ms);
    Enemy {
        position: Vec2 {
            x: spec_clamp(moved_x, -bounds.half_w + MARGIN, bounds.half_w - MARGIN) as i64,
            y: spec_clamp(moved_y, -bounds.half_h + MARGIN, bounds.half_h - MARGIN) as i64,
        },
        direction: Vec2 {
            x: (if moved_x < -bounds.half_w || moved_x > bounds.half_w {
                -used.x as int
            } else {
                used.x as int
            }) as i64,
            y: (if moved_y < -bounds.half_h || moved_y > bounds.half_h {
                -used.y as int
            } else {
                used.y as int
            }) as i64,
        },
        change_direction_timer: t2,
        ..e
    }
}

/// Executable enemy tick, exactly `spec_enemy_step`.
pub fn enemy_step(e: &mut Enemy, fresh_dir: Vec2, bounds: ArenaBounds, dt_ms: u64)
    requires
        old(e).movable(),
        bounds.wf(),
        is_unit_dir(fresh_dir),
        dt_ms <= MAX_TICK_MS,
    ensures
        *final(e) == spec_enemy_step(*old(e), fresh_dir, bounds, dt_ms as int),
        final(e).wf(bounds),
        final(e).id == old(e).id,
        final(e).speed == old(e).speed,
        final(e).change_direction_timer.duration_ms == old(e).change_direction_timer.duration_ms,
        final(e).change_direction_timer.mode == old(e).change_direction_timer.mode,
{
    e.change_direction_timer.tick(dt_ms);
    if e.change_direction_timer.finished() {
        e.direction = fresh_dir;
    }
    let dx: i64 = axis_disp(e.direction.x, e.speed, dt_ms);
    let dy: i64 = axis_disp(e.direction.y, e.speed, dt_ms);
    let moved = Vec2 { x: e.position.x + dx, y: e.position.y + dy };
    if moved.x < -bounds.half_w || moved.x > bounds.half_w {
        e.direction = Vec2 { x: -e.direction.x, ..e.direction };
    }
    if moved.y < -bounds.half_h || moved.y > bounds.half_h {
        e.direction = Vec2 { y: -e.direction.y, ..e.direction };
    }
    e.position = bounds.clamp_into_band(moved);
    proof {
        // axis reflection flips signs only, so the squared length is kept
        assert(e.direction.spec_len_sq() == e.direction.x * e.direction.x + e.direction.y
            * e.direction.y);
        assert((-1 * e.direction.x) * (-1 * e.direction.x) == e.direction.x * e.direction.x)
            by (nonlinear_arith);
        assert((-1 * e.direction.y) * (-1 * e.direction.y) == e.direction.y * e.direction.y)
            by (nonlinear_arith);
    }
}

/// Boundary law: whatever the tick did — reroll, bounce, or plain motion —
/// the enemy's position ends inside `[-half_extent + margin, half_extent -
/// margin]` on both axes.
pub proof fn lemma_reflection_stays_in_band(
    e: Enemy,
    fresh_dir: Vec2,
    bounds: ArenaBounds,
    dt_ms: int,
)
    requires
        bounds.wf(),
    ensures
        bounds.in_clamp_band(spec_enemy_step(e, fresh_dir, bounds, dt_ms).position),
{
}

/// A single enemy entering the arena: random spawn point, random wander
/// direction, fixed speed, fresh redirect timer.
pub fn spawn_enemy(id: u64) -> (r: Enemy)
    ensures
        r.id == id,
        is_fresh_spawn(r),
        forall|bounds: ArenaBounds| bounds.wf() ==> r.wf(bounds),
{
    Enemy {
        id,
        position: random_spawn_point(),
        direction: random_unit_dir(),
        speed: ENEMY_SPEED,
        change_direction_timer: Timer::new(REDIRECT_MS, TimerMode::Repeating),
    }
}

/// The starting enemy population: `count` enemies with consecutive
/// identities starting at the current counter.
pub fn spawn_enemies(next_id: &mut u64, count: usize) -> (r: Vec<Enemy>)
    requires
        *old(next_id) + count <= u64::MAX,
    ensures
        r.len() == count,
        *final(next_id) == *old(next_id) + count,
        forall|i: int|
            0 <= i < count ==> (#[trigger] r[i]).id == *old(next_id) + i,
        forall|i: int| 0 <= i < count ==> is_fresh_spawn(#[trigger] r[i]),
{
    let ghost id0: u64 = *next_id;
    let mut out: Vec<Enemy> = Vec::new();
    let mut k: usize = 0;
    while k < count
        invariant
            k <= count,
            out.len() == k,
            *next_id == id0 + k,
            id0 + count <= u64::MAX,
            forall|i: int| 0 <= i < k ==> (#[trigger] out[i]).id == id0 + i,
            forall|i: int| 0 <= i < k ==> is_fresh_spawn(#[trigger] out[i]),
        decreases count - k,
    {
        let e = spawn_enemy(*next_id);
        *next_id = *next_id + 1;
        out.push(e);
        k = k + 1;
    }
    out
}

/// Whether `e_new` is the result of one `spec_enemy_step` tick on `e_old`
/// for some usable re-roll direction.
pub open spec fn stepped_from(e_new: Enemy, e_old: Enemy, bounds: ArenaBounds, dt_ms: int) -> bool {
    exists|d: Vec2| is_unit_dir(d) && e_new == #[trigger] spec_enemy_step(e_old, d, bounds, dt_ms)
}

/// One tick of the enemy behavior system over the whole population. Each
/// enemy steps by `spec_enemy_step` for some usable re-roll direction:
/// identities, speeds and the population count never change, and every
/// enemy ends the tick inside the arena's band.
pub fn enemy_movement(enemies: &mut Vec<Enemy>, bounds: ArenaBounds, dt_ms: u64)
    requires
        bounds.wf(),
        dt_ms <= MAX_TICK_MS,
        forall|i: int| 0 <= i < old(enemies).len() ==> (#[trigger] old(enemies)[i]).movable(),
    ensures
        final(enemies).len() == old(enemies).len(),
        forall|i: int|
            0 <= i < old(enemies).len() ==> stepped_from(
                #[trigger] final(enemies)[i],
                old(enemies)[i],
                bounds,
                dt_ms as int,
            ),
        forall|i: int| 0 <= i < final(enemies).len() ==> (#[trigger] final(enemies)[i]).wf(bounds),
        forall|i: int|
            0 <= i < final(enemies).len() ==> (#[trigger] final(enemies)[i]).id == old(
                enemies,
            )[i].id,
        forall|i: int|
            0 <= i < final(enemies).len() ==> ({
                let tnew = (#[trigger] final(enemies)[i]).change_direction_timer;
                let told = old(enemies)[i].change_direction_timer;
                tnew.duration_ms == told.duration_ms && tnew.mode == told.mode
            }),
{
    let n: usize = enemies.len();
    let mut k: usize = 0;
    while k < n
        invariant
            k <= n,
            enemies.len() == n,
            n == old(enemies).len(),
            bounds.wf(),
            dt_ms <= MAX_TICK_MS,
            forall|i: int| 0 <= i < n ==> (#[trigger] old(enemies)[i]).movable(),
            forall|i: int| k <= i < n ==> (#[trigger] enemies[i]) == old(enemies)[i],
            forall|i: int|
                0 <= i < k ==> stepped_from(
                    #[trigger] enemies[i],
                    old(enemies)[i],
                    bounds,
                    dt_ms as int,
                ),
            forall|i: int| 0 <= i < k ==> (#[trigger] enemies[i]).wf(bounds),
            forall|i: int| 0 <= i < k ==> (#[trigger] enemies[i]).id == old(enemies)[i].id,
            forall|i: int|
                0 <= i < k ==> ({
                    let tnew = (#[trigger] enemies[i]).change_direction_timer;
                    let told = old(enemies)[i].change_direction_timer;
                    tnew.duration_ms == told.duration_ms && tnew.mode == told.mode
                }),
        decreases n - k,
    {
        let fresh = random_unit_dir();
        let mut e: Enemy = enemies[k];
        enemy_step(&mut e, fresh, bounds, dt_ms);
        enemies.set(k, e);
        proof {
            assert(enemies[k as int] == spec_enemy_step(
                old(enemies)[k as int],
                fresh,
                bounds,
                dt_ms as int,
            ));
            assert(stepped_from(enemies[k as int], old(enemies)[k as int], bounds, dt_ms as int));
        }
        k = k + 1;
    }
}

} // verus!
