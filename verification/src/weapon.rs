//! The weapon system: the cooldown-gated trigger, bullet flight and
//! despawn, and the collision scan that trades a bullet and an enemy for
//! score and a replacement spawn.

use vstd::prelude::*;
use crate::geometry::Vec2;
use crate::geometry::is_unit_dir;
use crate::geometry::spec_dist_sq;
use crate::geometry::spec_disp;
use crate::geometry::axis_disp;
use crate::geometry::MILLI;
use crate::arena::ArenaBounds;
use crate::arena::MAX_HALF_EXTENT;
use crate::timer::Timer;
use crate::timer::TimerMode;
use crate::timer::MAX_TICK_MS;
use crate::player::Player;
use crate::player::MAX_SPEED;
use crate::enemy::Enemy;
use crate::enemy::spawn_enemy;
use crate::enemy::is_fresh_spawn;
use crate::score::Score;
use crate::score::SCORE_PER_KILL;

verus! {

/// Bullet flight speed, in units per second.
pub const BULLET_SPEED: u64 = 400;

/// Damage carried by a bullet; every hit is lethal regardless.
pub const BULLET_DAMAGE: u32 = 1;

/// How far in front of the player a bullet appears, in milli-units.
pub const BULLET_OFFSET: i64 = 20_000;

/// The weapon cooldown period, in milliseconds.
pub const WEAPON_COOLDOWN_MS: u64 = 500;

/// Squared hit radius, in squared milli-units: a bullet and an enemy
/// strictly closer than twenty units collide.
pub const HIT_RADIUS_SQ: i64 = 400_000_000;

/// The player's weapon: a repeating cooldown timer gating fire.
#[derive(Clone, Copy, PartialEq, Eq, Structural, Debug)]
pub struct Weapon {
    pub cooldown: Timer,
}

impl Weapon {
    pub open spec fn wf(self) -> bool {
        self.cooldown.wf()
    }

    /// A fresh weapon, its cooldown not yet run.
    pub fn new() -> (r: Weapon)
        ensures
            r.cooldown == (Timer {
                duration_ms: WEAPON_COOLDOWN_MS,
                elapsed_ms: 0,
                mode: TimerMode::Repeating,
                fired: false,
            }),
            r.wf(),
    {
        Weapon { cooldown: Timer::new(WEAPON_COOLDOWN_MS, TimerMode::Repeating) }
    }
}

/// A bullet in flight, with a stable identity.
#[derive(Clone, Copy, PartialEq, Eq, Structural, Debug)]
pub struct Bullet {
    pub id: u64,
    pub position: Vec2,
    pub direction: Vec2,
    pub speed: u64,
    pub damage: u32,
}

impl Bullet {
    /// Consistency: a near-unit direction, bounded speed, and a position
    /// at most a spawn offset beyond any legal arena.
    pub open spec fn wf(self) -> bool {
        &&& is_unit_dir(self.direction)
        &&& self.speed <= MAX_SPEED
        &&& self.position.bounded(MAX_HALF_EXTENT + BULLET_OFFSET as int)
    }
}

/// The bullet a firing player produces: one spawn offset ahead of the
/// player along the facing, flying in the facing direction at the fixed
/// bullet speed.
pub open spec fn spec_spawned_bullet(p: Player, id: u64) -> Bullet {
    Bullet {
        id,
        position: Vec2 {
            x: (p.position.x + p.facing.x * (BULLET_OFFSET / MILLI)) as i64,
            y: (p.position.y + p.facing.y * (BULLET_OFFSET / MILLI)) as i64,
        },
        direction: p.facing,
        speed: BULLET_SPEED,
        damage: BULLET_DAMAGE,
    }
}

/// One tick of the weapon trigger: advance the cooldown; if the fire input
/// is held and the cooldown reports finished, reset it and spawn exactly
/// one bullet. Otherwise the bullet store does not grow.
pub fn fire_weapon(
    weapon: &mut Weapon,
    player: &Player,
    fire_pressed: bool,
    bullets: &mut Vec<Bullet>,
    next_id: &mut u64,
    bounds: ArenaBounds,
    dt_ms: u64,
)
    requires
        old(weapon).wf(),
        player.wf(bounds),
        bounds.wf(),
        dt_ms <= MAX_TICK_MS,
        *old(next_id) < u64::MAX,
        forall|i: int| 0 <= i < old(bullets)@.len() ==> (#[trigger] old(bullets)@[i]).wf(),
    ensures
        final(weapon).wf(),
        ({
            let t2 = old(weapon).cooldown.spec_ticked(dt_ms as int);
            if fire_pressed && t2.spec_finished() {
                &&& final(weapon).cooldown == (Timer { elapsed_ms: 0, fired: false, ..t2 })
                &&& final(bullets)@ == old(bullets)@.push(
                    spec_spawned_bullet(*player, *old(next_id)),
                )
                &&& *final(next_id) == *old(next_id) + 1
            } else {
                &&& final(weapon).cooldown == t2
                &&& final(bullets)@ == old(bullets)@
                &&& *final(next_id) == *old(next_id)
            }
        }),
        final(bullets)@.len() >= old(bullets)@.len(),
        forall|i: int|
            0 <= i < old(bullets)@.len() ==> (#[trigger] final(bullets)@[i]) == old(bullets)@[i],
        forall|i: int| 0 <= i < final(bullets)@.len() ==> (#[trigger] final(bullets)@[i]).wf(),
{
    weapon.cooldown.tick(dt_ms);
    if fire_pressed && weapon.cooldown.finished() {
        weapon.cooldown.reset();
        let offset_x: i64 = player.facing.x * 20;
        let offset_y: i64 = player.facing.y * 20;
        let b = Bullet {
            id: *next_id,
            position: Vec2 {
                x: player.position.x + offset_x,
                y: player.position.y + offset_y,
            },
            direction: player.facing,
            speed: BULLET_SPEED,
            damage: BULLET_DAMAGE,
        };
        *next_id = *next_id + 1;
        bullets.push(b);
    }
}

/// A bullet after one tick of flight.
pub open spec fn spec_bullet_moved(b: Bullet, dt_ms: int) -> Bullet {
    Bullet {
        position: Vec2 {
            x: (b.position.x + spec_disp(b.direction.x as int, b.speed as int, dt_ms)) as i64,
            y: (b.position.y + spec_disp(b.direction.y as int, b.speed as int, dt_ms)) as i64,
        },
        ..b
    }
}

/// The bullet store after one tick of flight: every bullet advances by its
/// direction, speed and the elapsed time, and exactly those whose moved
/// position lies inside the arena survive, in order.
pub open spec fn spec_move_bullets(bs: Seq<Bullet>, bounds: ArenaBounds, dt_ms: int) -> Seq<
    Bullet,
>
    decreases bs.len(),
{
    if bs.len() == 0 {
        Seq::empty()
    } else {
        let m = spec_bullet_moved(bs[0], dt_ms);
        let rest = spec_move_bullets(bs.drop_first(), bounds, dt_ms);
        if bounds.contains(m.position) {
            seq![m] + rest
        } else {
            rest
        }
    }
}

/// One tick of bullet flight and lazy despawn, exactly `spec_move_bullets`.
pub fn bullet_movement(bullets: &mut Vec<Bullet>, bounds: ArenaBounds, dt_ms: u64)
    requires
        bounds.wf(),
        dt_ms <= MAX_TICK_MS,
        forall|i: int| 0 <= i < old(bullets)@.len() ==> (#[trigger] old(bullets)@[i]).wf(),
    ensures
        final(bullets)@ == spec_move_bullets(old(bullets)@, bounds, dt_ms as int),
        forall|i: int|
            0 <= i < final(bullets)@.len() ==> bounds.contains(
                (#[trigger] final(bullets)@[i]).position,
            ) && final(bullets)@[i].wf(),
{
    let ghost bs0: Seq<Bullet> = bullets@;
    let n: usize = bullets.len();
    let mut out: Vec<Bullet> = Vec::new();
    let mut k: usize = 0;
    proof {
        assert(bs0.skip(0) =~= bs0);
        assert(out@ + spec_move_bullets(bs0, bounds, dt_ms as int) =~= spec_move_bullets(
            bs0,
            bounds,
            dt_ms as int,
        ));
    }
    while k < n
        invariant
            k <= n,
            n == bs0.len(),
            bullets@ == bs0,
            bounds.wf(),
            dt_ms <= MAX_TICK_MS,
            forall|i: int| 0 <= i < bs0.len() ==> (#[trigger] bs0[i]).wf(),
            spec_move_bullets(bs0, bounds, dt_ms as int) == out@ + spec_move_bullets(
                bs0.skip(k as int),
                bounds,
                dt_ms as int,
            ),
            forall|i: int|
                0 <= i < out@.len() ==> bounds.contains((#[trigger] out@[i]).position)
                    && out@[i].wf(),
        decreases n - k,
    {
        let b: Bullet = bullets[k];
        let dx: i64 = axis_disp(b.direction.x, b.speed, dt_ms);
        let dy: i64 = axis_disp(b.direction.y, b.speed, dt_ms);
        let m = Bullet { position: Vec2 { x: b.position.x + dx, y: b.position.y + dy }, ..b };
        proof {
            assert(m == spec_bullet_moved(bs0[k as int], dt_ms as int));
            assert(bs0.skip(k as int)[0] == bs0[k as int]);
            assert(bs0.skip(k as int).drop_first() =~= bs0.skip(k as int + 1));
        }
        let inside = -bounds.half_w <= m.position.x && m.position.x <= bounds.half_w
            && -bounds.half_h <= m.position.y && m.position.y <= bounds.half_h;
        if inside {
            out.push(m);
            proof {
                assert(out@ =~= out@.subrange(0, out@.len() - 1).push(m));
                assert(out@.subrange(0, out@.len() - 1) + (seq![m] + spec_move_bullets(
                    bs0.skip(k as int + 1),
                    bounds,
                    dt_ms as int,
                )) =~= out@ + spec_move_bullets(bs0.skip(k as int + 1), bounds, dt_ms as int));
            }
        }
        k = k + 1;
    }
    proof {
        assert(bs0.skip(n as int) =~= Seq::<Bullet>::empty());
        assert(out@ + Seq::<Bullet>::empty() =~= out@);
    }
    *bullets = out;
}

/// Pairwise-distinct bullet identities.
pub open spec fn bullet_ids_unique(bs: Seq<Bullet>) -> bool {
    forall|i: int, j: int|
        0 <= i < j < bs.len() ==> (#[trigger] bs[i]).id != (#[trigger] bs[j]).id
}

/// Every survivor of a flight tick is the moved image of some stored
/// bullet.
pub proof fn lemma_move_bullets_member(bs: Seq<Bullet>, bounds: ArenaBounds, dt_ms: int, i: int)
    requires
        0 <= i < spec_move_bullets(bs, bounds, dt_ms).len(),
    ensures
        exists|j: int|
            0 <= j < bs.len() && spec_move_bullets(bs, bounds, dt_ms)[i]
                == #[trigger] spec_bullet_moved(bs[j], dt_ms),
    decreases bs.len(),
{
    let res = spec_move_bullets(bs, bounds, dt_ms);
    let m = spec_bullet_moved(bs[0], dt_ms);
    let rest = spec_move_bullets(bs.drop_first(), bounds, dt_ms);
    if bounds.contains(m.position) {
        if i == 0 {
            assert(res[0] == spec_bullet_moved(bs[0], dt_ms));
        } else {
            lemma_move_bullets_member(bs.drop_first(), bounds, dt_ms, i - 1);
            let j = choose|j: int|
                0 <= j < bs.drop_first().len() && rest[i - 1] == #[trigger] spec_bullet_moved(
                    bs.drop_first()[j],
                    dt_ms,
                );
            assert(res[i] == spec_bullet_moved(bs[j + 1], dt_ms));
        }
    } else {
        lemma_move_bullets_member(bs.drop_first(), bounds, dt_ms, i);
        let j = choose|j: int|
            0 <= j < bs.drop_first().len() && rest[i] == #[trigger] spec_bullet_moved(
                bs.drop_first()[j],
                dt_ms,
            );
        assert(res[i] == spec_bullet_moved(bs[j + 1], dt_ms));
    }
}

/// Lazy despawn really despawns: a bullet whose moved position left the
/// arena is absent, by identity, from the store the flight tick returns.
pub proof fn lemma_departed_bullet_absent(bs: Seq<Bullet>, bounds: ArenaBounds, dt_ms: int, j: int)
    requires
        0 <= j < bs.len(),
        bullet_ids_unique(bs),
        !bounds.contains(spec_bullet_moved(bs[j], dt_ms).position),
    ensures
        forall|i: int|
            0 <= i < spec_move_bullets(bs, bounds, dt_ms).len() ==> (
            #[trigger] spec_move_bullets(bs, bounds, dt_ms)[i]).id != bs[j].id,
    decreases bs.len(),
{
    let res = spec_move_bullets(bs, bounds, dt_ms);
    let m = spec_bullet_moved(bs[0], dt_ms);
    let rest = spec_move_bullets(bs.drop_first(), bounds, dt_ms);
    assert(bullet_ids_unique(bs.drop_first())) by {
        assert forall|a: int, b: int|
            0 <= a < b < bs.drop_first().len() implies (#[trigger] bs.drop_first()[a]).id != (
        #[trigger] bs.drop_first()[b]).id by {
            assert(bs.drop_first()[a] == bs[a + 1] && bs.drop_first()[b] == bs[b + 1]);
        }
    }
    if j == 0 {
        assert(res == rest);
        assert forall|i: int| 0 <= i < rest.len() implies (#[trigger] rest[i]).id != bs[0].id by {
            lemma_move_bullets_member(bs.drop_first(), bounds, dt_ms, i);
            let w = choose|w: int|
                0 <= w < bs.drop_first().len() && rest[i] == #[trigger] spec_bullet_moved(
                    bs.drop_first()[w],
                    dt_ms,
                );
            assert(rest[i].id == bs[w + 1].id);
        }
    } else {
        assert(bs.drop_first()[j - 1] == bs[j]);
        lemma_departed_bullet_absent(bs.drop_first(), bounds, dt_ms, j - 1);
        if bounds.contains(m.position) {
            assert forall|i: int| 0 <= i < res.len() implies (#[trigger] res[i]).id != bs[j].id by {
                if i == 0 {
                    assert(res[0].id == bs[0].id);
                } else {
                    assert(res[i] == rest[i - 1]);
                }
            }
        } else {
            assert(res == rest);
        }
    }
}

/// A flight tick never grows the store.
pub proof fn lemma_move_bullets_len(bs: Seq<Bullet>, bounds: ArenaBounds, dt_ms: int)
    ensures
        spec_move_bullets(bs, bounds, dt_ms).len() <= bs.len(),
    decreases bs.len(),
{
    if bs.len() > 0 {
        lemma_move_bullets_len(bs.drop_first(), bounds, dt_ms);
    }
}

/// Whether a bullet and an enemy stand strictly within the hit radius of
/// one another.
pub open spec fn spec_hits(b: Bullet, e: Enemy) -> bool {
    spec_dist_sq(b.position, e.position) < HIT_RADIUS_SQ
}

/// Index of the first enemy at or after `j` that `b` hits, if any.
pub open spec fn spec_first_hit(b: Bullet, es: Seq<Enemy>, j: int) -> Option<int>
    decreases es.len() - j,
{
    if j < 0 || j >= es.len() {
        None
    } else if spec_hits(b, es[j]) {
        Some(j)
    } else {
        spec_first_hit(b, es, j + 1)
    }
}

/// A found first hit lies in range and really hits.
pub proof fn lemma_first_hit_props(b: Bullet, es: Seq<Enemy>, j: int)
    requires
        0 <= j,
    ensures
        match spec_first_hit(b, es, j) {
            Some(x) => j <= x < es.len() && spec_hits(b, es[x]),
            None => true,
        },
    decreases es.len() - j,
{
    if j < es.len() && !spec_hits(b, es[j]) {
        lemma_first_hit_props(b, es, j + 1);
    }
}

/// The collision scan, bullet by bullet from index `i`: each bullet
/// resolves against the first enemy within the hit radius, removing both
/// and counting one kill; a bullet that hits nothing survives. A removed
/// enemy is gone for every later bullet, and a resolved bullet tests no
/// further enemies. Returns the surviving bullets, the surviving enemies,
/// and the kill count.
pub open spec fn spec_scan(bs: Seq<Bullet>, i: int, es: Seq<Enemy>) -> (Seq<Bullet>, Seq<
    Enemy,
>, int)
    decreases bs.len() - i,
{
    if i < 0 || i >= bs.len() {
        (Seq::empty(), es, 0)
    } else {
        match spec_first_hit(bs[i], es, 0) {
            Some(j) => {
                let r = spec_scan(bs, i + 1, es.remove(j));
                (r.0, r.1, r.2 + 1)
            },
            None => {
                let r = spec_scan(bs, i + 1, es);
                (seq![bs[i]] + r.0, r.1, r.2)
            },
        }
    }
}

/// Conservation laws of the scan: kills never exceed the bullets scanned
/// nor the enemies available; surviving enemies are exactly those not
/// killed; and every bullet either survives or scores exactly once — so a
/// single bullet destroys at most one enemy and awards score at most once.
pub proof fn lemma_scan_counts(bs: Seq<Bullet>, i: int, es: Seq<Enemy>)
    requires
        0 <= i <= bs.len(),
    ensures
        0 <= spec_scan(bs, i, es).2 <= bs.len() - i,
        spec_scan(bs, i, es).2 <= es.len(),
        spec_scan(bs, i, es).1.len() == es.len() - spec_scan(bs, i, es).2,
        spec_scan(bs, i, es).0.len() + spec_scan(bs, i, es).2 == bs.len() - i,
    decreases bs.len() - i,
{
    if i < bs.len() {
        match spec_first_hit(bs[i], es, 0) {
            Some(j) => {
                lemma_first_hit_props(bs[i], es, 0);
                lemma_scan_counts(bs, i + 1, es.remove(j));
            },
            None => {
                lemma_scan_counts(bs, i + 1, es);
            },
        }
    }
}

/// Kills come only from proximity: a scan that scored at all had some
/// bullet and some enemy of the store strictly within the hit radius.
pub proof fn lemma_scan_hit_pair(bs: Seq<Bullet>, i: int, es: Seq<Enemy>)
    requires
        0 <= i <= bs.len(),
    ensures
        spec_scan(bs, i, es).2 > 0 ==> exists|bi: int, j: int|
            i <= bi < bs.len() && 0 <= j < es.len() && #[trigger] spec_hits(bs[bi], es[j]),
    decreases bs.len() - i,
{
    if i < bs.len() {
        match spec_first_hit(bs[i], es, 0) {
            Some(j) => {
                lemma_first_hit_props(bs[i], es, 0);
                assert(spec_hits(bs[i], es[j]));
            },
            None => {
                lemma_scan_hit_pair(bs, i + 1, es);
            },
        }
    }
}

/// Pairwise-distinct enemy identities.
pub open spec fn enemy_ids_unique(es: Seq<Enemy>) -> bool {
    forall|i: int, j: int|
        0 <= i < j < es.len() ==> (#[trigger] es[i]).id != (#[trigger] es[j]).id
}

/// Every enemy surviving the scan was in the store it scanned.
pub proof fn lemma_scan_surviving_enemies(bs: Seq<Bullet>, i: int, es: Seq<Enemy>)
    requires
        0 <= i <= bs.len(),
    ensures
        forall|x: int|
            0 <= x < spec_scan(bs, i, es).1.len() ==> es.contains(#[trigger] spec_scan(bs, i, es).1[x]),
    decreases bs.len() - i,
{
    let sc = spec_scan(bs, i, es);
    if i < bs.len() {
        match spec_first_hit(bs[i], es, 0) {
            Some(j) => {
                lemma_first_hit_props(bs[i], es, 0);
                let es2 = es.remove(j);
                lemma_scan_surviving_enemies(bs, i + 1, es2);
                assert forall|x: int| 0 <= x < sc.1.len() implies es.contains(
                    #[trigger] sc.1[x],
                ) by {
                    assert(sc.1 == spec_scan(bs, i + 1, es2).1);
                    assert(es2.contains(spec_scan(bs, i + 1, es2).1[x]));
                    let w = choose|w: int| 0 <= w < es2.len() && es2[w] == sc.1[x];
                    if w < j {
                        assert(es[w] == sc.1[x]);
                    } else {
                        assert(es[w + 1] == sc.1[x]);
                    }
                }
            },
            None => {
                lemma_scan_surviving_enemies(bs, i + 1, es);
                assert forall|x: int| 0 <= x < sc.1.len() implies es.contains(
                    #[trigger] sc.1[x],
                ) by {
                    assert(sc.1 == spec_scan(bs, i + 1, es).1);
                    assert(es.contains(spec_scan(bs, i + 1, es).1[x]));
                }
            },
        }
    }
}

/// The scan keeps enemy identities pairwise distinct.
pub proof fn lemma_scan_enemies_unique(bs: Seq<Bullet>, i: int, es: Seq<Enemy>)
    requires
        0 <= i <= bs.len(),
        enemy_ids_unique(es),
    ensures
        enemy_ids_unique(spec_scan(bs, i, es).1),
    decreases bs.len() - i,
{
    if i < bs.len() {
        match spec_first_hit(bs[i], es, 0) {
            Some(j) => {
                lemma_first_hit_props(bs[i], es, 0);
                let es2 = es.remove(j);
                assert(enemy_ids_unique(es2)) by {
                    assert forall|a: int, b: int|
                        0 <= a < b < es2.len() implies (#[trigger] es2[a]).id != (
                    #[trigger] es2[b]).id by {
                        let ea: int = if a < j {
                            a
                        } else {
                            a + 1
                        };
                        let eb: int = if b < j {
                            b
                        } else {
                            b + 1
                        };
                        assert(es2[a] == es[ea] && es2[b] == es[eb]);
                    }
                }
                lemma_scan_enemies_unique(bs, i + 1, es2);
            },
            None => {
                lemma_scan_enemies_unique(bs, i + 1, es);
            },
        }
    }
}

/// Every bullet surviving the scan was among those scanned.
pub proof fn lemma_scan_kept_bullets(bs: Seq<Bullet>, i: int, es: Seq<Enemy>)
    requires
        0 <= i <= bs.len(),
    ensures
        forall|x: int|
            #![trigger spec_scan(bs, i, es).0[x]]
            0 <= x < spec_scan(bs, i, es).0.len() ==> exists|y: int|
                i <= y < bs.len() && spec_scan(bs, i, es).0[x] == #[trigger] bs[y],
    decreases bs.len() - i,
{
    let sc = spec_scan(bs, i, es);
    if i < bs.len() {
        match spec_first_hit(bs[i], es, 0) {
            Some(j) => {
                lemma_scan_kept_bullets(bs, i + 1, es.remove(j));
                let r0 = spec_scan(bs, i + 1, es.remove(j)).0;
                assert forall|x: int| #![trigger sc.0[x]] 0 <= x < sc.0.len() implies exists|
                    y: int,
                |
                    i <= y < bs.len() && sc.0[x] == #[trigger] bs[y] by {
                    assert(sc.0[x] == r0[x]);
                    let w = choose|w: int| i + 1 <= w < bs.len() && r0[x] == #[trigger] bs[w];
                    assert(sc.0[x] == bs[w]);
                }
            },
            None => {
                lemma_scan_kept_bullets(bs, i + 1, es);
                let r0 = spec_scan(bs, i + 1, es).0;
                assert forall|x: int| #![trigger sc.0[x]] 0 <= x < sc.0.len() implies exists|y: int|
                    i <= y < bs.len() && sc.0[x] == #[trigger] bs[y] by {
                    if x == 0 {
                        assert(sc.0[0] == bs[i]);
                    } else {
                        assert(sc.0[x] == r0[x - 1]);
                        let w = choose|w: int|
                            i + 1 <= w < bs.len() && r0[x - 1] == #[trigger] bs[w];
                        assert(sc.0[x] == bs[w]);
                    }
                }
            },
        }
    }
}

/// The scan keeps bullet identities pairwise distinct.
pub proof fn lemma_scan_bullets_unique(bs: Seq<Bullet>, i: int, es: Seq<Enemy>)
    requires
        0 <= i <= bs.len(),
        bullet_ids_unique(bs),
    ensures
        bullet_ids_unique(spec_scan(bs, i, es).0),
    decreases bs.len() - i,
{
    let sc = spec_scan(bs, i, es);
    if i < bs.len() {
        match spec_first_hit(bs[i], es, 0) {
            Some(j) => {
                lemma_scan_bullets_unique(bs, i + 1, es.remove(j));
            },
            None => {
                lemma_scan_bullets_unique(bs, i + 1, es);
                lemma_scan_kept_bullets(bs, i + 1, es);
                let r0 = spec_scan(bs, i + 1, es).0;
                assert forall|a: int, b: int|
                    0 <= a < b < sc.0.len() implies (#[trigger] sc.0[a]).id != (
                #[trigger] sc.0[b]).id by {
                    if a == 0 {
                        assert(sc.0[b] == r0[b - 1]);
                        let w = choose|w: int|
                            i + 1 <= w < bs.len() && r0[b - 1] == #[trigger] bs[w];
                        assert(sc.0[0] == bs[i] && sc.0[b] == bs[w]);
                    } else {
                        assert(sc.0[a] == r0[a - 1] && sc.0[b] == r0[b - 1]);
                    }
                }
            },
        }
    }
}

/// A flight tick keeps bullet identities pairwise distinct.
pub proof fn lemma_move_bullets_unique(bs: Seq<Bullet>, bounds: ArenaBounds, dt_ms: int)
    requires
        bullet_ids_unique(bs),
    ensures
        bullet_ids_unique(spec_move_bullets(bs, bounds, dt_ms)),
    decreases bs.len(),
{
    if bs.len() > 0 {
        let res = spec_move_bullets(bs, bounds, dt_ms);
        let m = spec_bullet_moved(bs[0], dt_ms);
        let rest = spec_move_bullets(bs.drop_first(), bounds, dt_ms);
        assert(bullet_ids_unique(bs.drop_first())) by {
            assert forall|a: int, b: int|
                0 <= a < b < bs.drop_first().len() implies (#[trigger] bs.drop_first()[a]).id != (
            #[trigger] bs.drop_first()[b]).id by {
                assert(bs.drop_first()[a] == bs[a + 1] && bs.drop_first()[b] == bs[b + 1]);
            }
        }
        lemma_move_bullets_unique(bs.drop_first(), bounds, dt_ms);
        if bounds.contains(m.position) {
            assert forall|a: int, b: int|
                0 <= a < b < res.len() implies (#[trigger] res[a]).id != (#[trigger] res[b]).id by {
                if a == 0 {
                    lemma_move_bullets_member(bs.drop_first(), bounds, dt_ms, b - 1);
                    let w = choose|w: int|
                        0 <= w < bs.drop_first().len() && rest[b - 1]
                            == #[trigger] spec_bullet_moved(bs.drop_first()[w], dt_ms);
                    assert(res[b].id == bs[w + 1].id && res[0].id == bs[0].id);
                } else {
                    assert(res[a] == rest[a - 1] && res[b] == rest[b - 1]);
                }
            }
        }
    }
}

/// Find the first enemy the bullet hits, scanning in store order.
fn find_first_hit(b: &Bullet, enemies: &Vec<Enemy>, bounds: ArenaBounds) -> (r: Option<usize>)
    requires
        b.wf(),
        bounds.wf(),
        forall|i: int| 0 <= i < enemies@.len() ==> (#[trigger] enemies@[i]).wf(bounds),
    ensures
        match r {
            Some(j) => j < enemies@.len() && spec_first_hit(*b, enemies@, 0) == Some(j as int),
            None => spec_first_hit(*b, enemies@, 0).is_none(),
        },
{
    let n: usize = enemies.len();
    let mut j: usize = 0;
    while j < n
        invariant
            j <= n,
            n == enemies@.len(),
            b.wf(),
            bounds.wf(),
            forall|i: int| 0 <= i < enemies@.len() ==> (#[trigger] enemies@[i]).wf(bounds),
            spec_first_hit(*b, enemies@, 0) == spec_first_hit(*b, enemies@, j as int),
        decreases n - j,
    {
        let e: Enemy = enemies[j];
        let d2: i64 = b.position.dist_sq(e.position);
        if d2 < HIT_RADIUS_SQ {
            return Some(j);
        }
        j = j + 1;
    }
    None
}

/// One pass of the collision and scoring system: resolve every bullet
/// against the enemies as `spec_scan` says, add the fixed award per kill to
/// the score, and backfill the population with one freshly spawned enemy
/// per kill, so the enemy count leaves exactly as it came.
pub fn bullet_collision(
    bullets: &mut Vec<Bullet>,
    enemies: &mut Vec<Enemy>,
    score: &mut Score,
    next_id: &mut u64,
    bounds: ArenaBounds,
)
    requires
        bounds.wf(),
        forall|i: int| 0 <= i < old(bullets)@.len() ==> (#[trigger] old(bullets)@[i]).wf(),
        forall|i: int| 0 <= i < old(enemies)@.len() ==> (#[trigger] old(enemies)@[i]).wf(bounds),
        old(score).value + SCORE_PER_KILL * old(bullets)@.len() <= u32::MAX,
        *old(next_id) + old(bullets)@.len() <= u64::MAX,
    ensures
        ({
            let sc = spec_scan(old(bullets)@, 0, old(enemies)@);
            let survivors = sc.1;
            let kills = sc.2;
            let slen = survivors.len() as int;
            let fe = final(enemies)@;
            let id0 = *old(next_id);
            &&& final(bullets)@ == sc.0
            &&& fe.len() == old(enemies)@.len()
            &&& fe.subrange(0, slen) == survivors
            &&& final(score).value == old(score).value + SCORE_PER_KILL * kills
            &&& *final(next_id) == id0 + kills
            &&& forall|i: int|
                slen <= i < fe.len() ==> (#[trigger] fe[i]).id == id0 + (i - slen)
                    && is_fresh_spawn(fe[i])
        }),
        forall|i: int| 0 <= i < final(enemies)@.len() ==> (#[trigger] final(enemies)@[i]).wf(bounds),
        forall|i: int| 0 <= i < final(bullets)@.len() ==> (#[trigger] final(bullets)@[i]).wf(),
        final(score).value >= old(score).value,
{
    let ghost bs0: Seq<Bullet> = bullets@;
    let ghost es0: Seq<Enemy> = enemies@;
    let n: usize = bullets.len();
    let mut kept: Vec<Bullet> = Vec::new();
    let mut kills: usize = 0;
    let mut k: usize = 0;
    proof {
        assert(kept@ + spec_scan(bs0, 0, es0).0 =~= spec_scan(bs0, 0, es0).0);
    }
    while k < n
        invariant
            k <= n,
            n == bs0.len(),
            bullets@ == bs0,
            bounds.wf(),
            kills <= k,
            score.value == old(score).value + SCORE_PER_KILL * kills,
            old(score).value + SCORE_PER_KILL * bs0.len() <= u32::MAX,
            forall|i: int| 0 <= i < bs0.len() ==> (#[trigger] bs0[i]).wf(),
            forall|i: int| 0 <= i < enemies@.len() ==> (#[trigger] enemies@[i]).wf(bounds),
            forall|i: int| 0 <= i < kept@.len() ==> (#[trigger] kept@[i]).wf(),
            spec_scan(bs0, 0, es0).0 == kept@ + spec_scan(bs0, k as int, enemies@).0,
            spec_scan(bs0, 0, es0).1 == spec_scan(bs0, k as int, enemies@).1,
            spec_scan(bs0, 0, es0).2 == kills + spec_scan(bs0, k as int, enemies@).2,
        decreases n - k,
    {
        let b: Bullet = bullets[k];
        let hit = find_first_hit(&b, enemies, bounds);
        match hit {
            Some(j) => {
                let ghost es_cur: Seq<Enemy> = enemies@;
                enemies.remove(j);
                score.value = score.value + SCORE_PER_KILL;
                kills = kills + 1;
                proof {
                    assert(spec_scan(bs0, k as int, es_cur).0 == spec_scan(
                        bs0,
                        k as int + 1,
                        enemies@,
                    ).0);
                    assert forall|i: int| 0 <= i < enemies@.len() implies (
                    #[trigger] enemies@[i]).wf(bounds) by {
                        assert(enemies@[i] == es_cur.remove(j as int)[i]);
                        if i < j {
                            assert(es_cur.remove(j as int)[i] == es_cur[i]);
                        } else {
                            assert(es_cur.remove(j as int)[i] == es_cur[i + 1]);
                        }
                    }
                }
            },
            None => {
                kept.push(b);
                proof {
                    assert(kept@ + spec_scan(bs0, k as int + 1, enemies@).0 =~= kept@.subrange(
                        0,
                        kept@.len() - 1,
                    ) + (seq![bs0[k as int]] + spec_scan(bs0, k as int + 1, enemies@).0));
                }
            },
        }
        k = k + 1;
    }
    proof {
        assert(kept@ + spec_scan(bs0, n as int, enemies@).0 =~= kept@);
        lemma_scan_counts(bs0, 0, es0);
    }
    *bullets = kept;
    let ghost survivors: Seq<Enemy> = enemies@;
    let mut c: usize = 0;
    while c < kills
        invariant
            c <= kills,
            kills <= bs0.len(),
            *old(next_id) + bs0.len() <= u64::MAX,
            bounds.wf(),
            enemies@.len() == survivors.len() + c,
            enemies@.subrange(0, survivors.len() as int) == survivors,
            *next_id == *old(next_id) + c,
            forall|i: int|
                0 <= i < survivors.len() ==> (#[trigger] enemies@[i]).wf(bounds),
            forall|i: int|
                survivors.len() <= i < enemies@.len() ==> (#[trigger] enemies@[i]).id == *old(
                    next_id,
                ) + (i - survivors.len()) && is_fresh_spawn(enemies@[i]) && enemies@[i].wf(bounds),
        decreases kills - c,
    {
        let e: Enemy = spawn_enemy(*next_id);
        *next_id = *next_id + 1;
        enemies.push(e);
        c = c + 1;
        proof {
            assert(enemies@.subrange(0, survivors.len() as int) =~= survivors);
        }
    }
}

} // verus!
