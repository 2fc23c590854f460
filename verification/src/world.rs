//! The world: the entity store that owns the player, the enemies, the
//! bullets and the score, and the fixed-order simulation tick.

use vstd::prelude::*;
use crate::geometry::Vec2;
use crate::geometry::COORD_LIMIT;
use crate::arena::ArenaBounds;
use crate::arena::MAX_HALF_EXTENT;
use crate::timer::Timer;
use crate::timer::TimerMode;
use crate::timer::MAX_TICK_MS;
use crate::player::Player;
use crate::player::MoveInput;
use crate::player::PLAYER_SPEED;
use crate::player::spec_player_moved;
use crate::player::spec_player_aimed;
use crate::player::spawn_player;
use crate::player::player_movement;
use crate::player::player_aim;
use crate::enemy::Enemy;
use crate::enemy::ENEMY_COUNT;
use crate::enemy::REDIRECT_MS;
use crate::enemy::is_fresh_spawn;
use crate::enemy::stepped_from;
use crate::enemy::spawn_enemies;
use crate::enemy::enemy_movement;
use crate::weapon::Weapon;
use crate::weapon::Bullet;
use crate::weapon::WEAPON_COOLDOWN_MS;
use crate::weapon::spec_spawned_bullet;
use crate::weapon::spec_move_bullets;
use crate::weapon::fire_weapon;
use crate::weapon::bullet_movement;
use crate::weapon::bullet_collision;
use crate::weapon::bullet_ids_unique;
use crate::weapon::enemy_ids_unique;
use crate::weapon::spec_scan;
use crate::weapon::lemma_move_bullets_unique;
use crate::weapon::lemma_move_bullets_member;
use crate::weapon::lemma_move_bullets_len;
use crate::weapon::lemma_scan_counts;
use crate::weapon::lemma_scan_surviving_enemies;
use crate::weapon::lemma_scan_enemies_unique;
use crate::weapon::lemma_scan_kept_bullets;
use crate::weapon::lemma_scan_bullets_unique;
use crate::weapon::spec_bullet_moved;
use crate::score::Score;
use crate::score::SCORE_PER_KILL;

verus! {

/// Everything the outside hands the simulation for one tick: the pressed
/// movement keys, the fire button, and the cursor target in world
/// coordinates if one resolved.
#[derive(Clone, Copy, PartialEq, Eq, Structural, Debug)]
pub struct TickInput {
    pub movement: MoveInput,
    pub fire: bool,
    pub target: Option<Vec2>,
}

/// All identities in an enemy store lie below the allocation counter.
pub open spec fn enemy_ids_below(es: Seq<Enemy>, n: u64) -> bool {
    forall|i: int| 0 <= i < es.len() ==> (#[trigger] es[i]).id < n
}

/// All identities in a bullet store lie below the allocation counter.
pub open spec fn bullet_ids_below(bs: Seq<Bullet>, n: u64) -> bool {
    forall|i: int| 0 <= i < bs.len() ==> (#[trigger] bs[i]).id < n
}

/// The world's mutable state: the singleton player and weapon, the enemy
/// and bullet stores with stable identities, the score, the arena bounds,
/// and the identity allocation counter.
pub struct World {
    pub player: Player,
    pub weapon: Weapon,
    pub enemies: Vec<Enemy>,
    pub bullets: Vec<Bullet>,
    pub score: Score,
    pub bounds: ArenaBounds,
    pub next_id: u64,
}

impl World {
    /// The world invariant: a usable arena; a well-formed player, weapon,
    /// and store entries; the cooldown and redirect timers at their fixed
    /// periods; the enemy population at its fixed count; and
    /// pairwise-distinct entity identities, all below the counter.
    pub open spec fn wf(self) -> bool {
        &&& self.bounds.wf()
        &&& self.player.wf(self.bounds)
        &&& self.weapon.wf()
        &&& self.weapon.cooldown.duration_ms == WEAPON_COOLDOWN_MS
        &&& self.weapon.cooldown.mode == TimerMode::Repeating
        &&& self.enemies@.len() == ENEMY_COUNT
        &&& forall|i: int|
            0 <= i < self.enemies@.len() ==> ({
                let t = (#[trigger] self.enemies@[i]).change_direction_timer;
                t.duration_ms == REDIRECT_MS && t.mode == TimerMode::Repeating
            })
        &&& forall|i: int| 0 <= i < self.enemies@.len() ==> (#[trigger] self.enemies@[i]).wf(self.bounds)
        &&& enemy_ids_unique(self.enemies@)
        &&& enemy_ids_below(self.enemies@, self.next_id)
        &&& forall|i: int| 0 <= i < self.bullets@.len() ==> (#[trigger] self.bullets@[i]).wf()
        &&& bullet_ids_unique(self.bullets@)
        &&& bullet_ids_below(self.bullets@, self.next_id)
    }

    /// A world at startup: the player at the origin with a fresh weapon,
    /// the full enemy population at random spawn points, no bullets, and a
    /// zero score.
    pub fn new(bounds: ArenaBounds) -> (r: World)
        requires
            bounds.wf(),
        ensures
            r.wf(),
            r.bounds == bounds,
            r.score.value == 0,
            r.bullets@.len() == 0,
            r.enemies@.len() == ENEMY_COUNT,
            r.player.position == (Vec2 { x: 0, y: 0 }),
            r.player.facing == (Vec2 { x: 1000, y: 0 }),
            r.player.speed == PLAYER_SPEED,
            r.weapon.cooldown == (Timer {
                duration_ms: WEAPON_COOLDOWN_MS,
                elapsed_ms: 0,
                mode: TimerMode::Repeating,
                fired: false,
            }),
            forall|i: int|
                0 <= i < ENEMY_COUNT ==> is_fresh_spawn(#[trigger] r.enemies@[i])
                    && r.enemies@[i].id == i,
            r.next_id == ENEMY_COUNT,
    {
        let mut next_id: u64 = 0;
        let enemies = spawn_enemies(&mut next_id, ENEMY_COUNT);
        let w = World {
            player: spawn_player(),
            weapon: Weapon::new(),
            enemies,
            bullets: Vec::new(),
            score: Score { value: 0 },
            bounds,
            next_id,
        };
        proof {
            assert forall|i: int| 0 <= i < w.enemies@.len() implies (#[trigger] w.enemies@[i]).wf(
                w.bounds,
            ) by {
            }
        }
        w
    }

    /// One simulation tick, in the fixed system order: player movement,
    /// aim, enemy behavior, weapon fire, bullet flight and despawn, then
    /// collision and scoring with enemy backfill.
    ///
    /// Two laws ride on this contract: the enemy population count leaves
    /// the tick exactly as it entered it, and the score never falls and
    /// only grows by whole multiples of the per-kill award.
    pub fn tick(&mut self, input: TickInput, dt_ms: u64)
        requires
            old(self).wf(),
            dt_ms <= MAX_TICK_MS,
            input.target matches Some(t) ==> t.bounded(COORD_LIMIT - MAX_HALF_EXTENT),
            old(self).score.value + SCORE_PER_KILL * (old(self).bullets@.len() + 1) <= u32::MAX,
            old(self).next_id + old(self).bullets@.len() + 2 <= u64::MAX,
        ensures
            final(self).wf(),
            final(self).bounds == old(self).bounds,
            final(self).enemies@.len() == old(self).enemies@.len(),
            final(self).score.value >= old(self).score.value,
            (final(self).score.value - old(self).score.value) % (SCORE_PER_KILL as int) == 0,
            final(self).score.value <= old(self).score.value + SCORE_PER_KILL * (old(
                self,
            ).bullets@.len() + 1),
            final(self).bullets@.len() <= old(self).bullets@.len() + 1,
            final(self).next_id <= old(self).next_id + old(self).bullets@.len() + 2,
            final(self).player.speed == old(self).player.speed,
            ({
                let b0 = old(self).bounds;
                let p2 = spec_player_aimed(
                    spec_player_moved(old(self).player, input.movement, b0, dt_ms as int),
                    input.target,
                );
                let t2 = old(self).weapon.cooldown.spec_ticked(dt_ms as int);
                let fires = input.fire && t2.spec_finished();
                let bs1 = if fires {
                    old(self).bullets@.push(spec_spawned_bullet(p2, old(self).next_id))
                } else {
                    old(self).bullets@
                };
                let n1: int = if fires {
                    old(self).next_id + 1
                } else {
                    old(self).next_id as int
                };
                let bs2 = spec_move_bullets(bs1, b0, dt_ms as int);
                &&& final(self).player == p2
                &&& final(self).weapon.cooldown == (if fires {
                    Timer { elapsed_ms: 0, fired: false, ..t2 }
                } else {
                    t2
                })
                &&& exists|es_mid: Seq<Enemy>|
                    #![trigger es_mid.len()]
                    {
                        &&& es_mid.len() == old(self).enemies@.len()
                        &&& (forall|i: int|
                            0 <= i < es_mid.len() ==> stepped_from(
                                #[trigger] es_mid[i],
                                old(self).enemies@[i],
                                b0,
                                dt_ms as int,
                            ))
                        &&& ({
                            let sc = spec_scan(bs2, 0, es_mid);
                            let slen = sc.1.len() as int;
                            let fe = final(self).enemies@;
                            &&& final(self).bullets@ == sc.0
                            &&& final(self).score.value == old(self).score.value
                                + SCORE_PER_KILL * sc.2
                            &&& final(self).next_id == n1 + sc.2
                            &&& fe.subrange(0, slen) == sc.1
                            &&& (forall|i: int|
                                slen <= i < fe.len() ==> (#[trigger] fe[i]).id == n1 + (i
                                    - slen) && is_fresh_spawn(fe[i]))
                        })
                    }
            }),
    {
        let bounds = self.bounds;
        player_movement(&mut self.player, input.movement, bounds, dt_ms);
        player_aim(&mut self.player, input.target, bounds);
        enemy_movement(&mut self.enemies, bounds, dt_ms);
        fire_weapon(
            &mut self.weapon,
            &self.player,
            input.fire,
            &mut self.bullets,
            &mut self.next_id,
            bounds,
            dt_ms,
        );
        proof {
            assert(bullet_ids_unique(self.bullets@));
            assert(bullet_ids_below(self.bullets@, self.next_id));
        }
        let ghost bullets_before_move: Seq<Bullet> = self.bullets@;
        bullet_movement(&mut self.bullets, bounds, dt_ms);
        proof {
            lemma_move_bullets_unique(bullets_before_move, bounds, dt_ms as int);
            lemma_move_bullets_len(bullets_before_move, bounds, dt_ms as int);
            assert forall|i: int| 0 <= i < self.bullets@.len() implies (
            #[trigger] self.bullets@[i]).id < self.next_id by {
                lemma_move_bullets_member(bullets_before_move, bounds, dt_ms as int, i);
                let w = choose|w: int|
                    0 <= w < bullets_before_move.len() && self.bullets@[i]
                        == #[trigger] spec_bullet_moved(bullets_before_move[w], dt_ms as int);
                assert(self.bullets@[i].id == bullets_before_move[w].id);
            }
        }
        let ghost bullets_before_scan: Seq<Bullet> = self.bullets@;
        let ghost enemies_before_scan: Seq<Enemy> = self.enemies@;
        let ghost next_before_scan: u64 = self.next_id;
        let ghost score_before_scan: u32 = self.score.value;
        bullet_collision(
            &mut self.bullets,
            &mut self.enemies,
            &mut self.score,
            &mut self.next_id,
            bounds,
        );
        proof {
            let sc = spec_scan(bullets_before_scan, 0, enemies_before_scan);
            let slen = sc.1.len() as int;
            lemma_scan_counts(bullets_before_scan, 0, enemies_before_scan);
            lemma_scan_surviving_enemies(bullets_before_scan, 0, enemies_before_scan);
            lemma_scan_enemies_unique(bullets_before_scan, 0, enemies_before_scan);
            lemma_scan_kept_bullets(bullets_before_scan, 0, enemies_before_scan);
            lemma_scan_bullets_unique(bullets_before_scan, 0, enemies_before_scan);
            // surviving enemies keep identities below the pre-scan counter,
            // and their redirect timers the fixed period and mode
            assert forall|i: int| 0 <= i < slen implies (#[trigger] self.enemies@[i]).id
                < next_before_scan && self.enemies@[i].change_direction_timer.duration_ms
                == REDIRECT_MS && self.enemies@[i].change_direction_timer.mode
                == TimerMode::Repeating by {
                assert(self.enemies@[i] == sc.1[i]);
                assert(enemies_before_scan.contains(sc.1[i]));
                let w = choose|w: int|
                    0 <= w < enemies_before_scan.len() && enemies_before_scan[w] == sc.1[i];
                assert(enemies_before_scan[w].id < next_before_scan);
                assert(enemies_before_scan[w].change_direction_timer.duration_ms == REDIRECT_MS);
            }
            assert(enemy_ids_below(self.enemies@, self.next_id));
            // identities across the survivor / replacement split stay distinct
            assert forall|a: int, b: int|
                0 <= a < b < self.enemies@.len() implies (#[trigger] self.enemies@[a]).id != (
            #[trigger] self.enemies@[b]).id by {
                if b < slen {
                    assert(self.enemies@[a] == sc.1[a] && self.enemies@[b] == sc.1[b]);
                } else if a < slen {
                    assert(self.enemies@[b].id >= next_before_scan);
                }
            }
            // kept bullets keep identities below the counter
            assert forall|i: int| 0 <= i < self.bullets@.len() implies (
            #[trigger] self.bullets@[i]).id < self.next_id by {
                let w = choose|w: int|
                    0 <= w < bullets_before_scan.len() && self.bullets@[i] == #[trigger]
                    bullets_before_scan[w];
                assert(bullets_before_scan[w].id < next_before_scan);
            }
            assert(self.score.value == score_before_scan + SCORE_PER_KILL * sc.2);
            let ghost base: u32 = score_before_scan;
            let ghost now: u32 = self.score.value;
            assert((now - base) % (SCORE_PER_KILL as int) == 0) by (nonlinear_arith)
                requires
                    now == base + SCORE_PER_KILL * sc.2,
                    sc.2 >= 0,
                    SCORE_PER_KILL == 10u32,
            {
            }
            // witness the full-effect clause with the post-behavior store
            let b0 = old(self).bounds;
            let p2 = spec_player_aimed(
                spec_player_moved(old(self).player, input.movement, b0, dt_ms as int),
                input.target,
            );
            let t2 = old(self).weapon.cooldown.spec_ticked(dt_ms as int);
            let fires = input.fire && t2.spec_finished();
            let bs1 = if fires {
                old(self).bullets@.push(spec_spawned_bullet(p2, old(self).next_id))
            } else {
                old(self).bullets@
            };
            let n1: int = if fires {
                old(self).next_id + 1
            } else {
                old(self).next_id as int
            };
            let bs2 = spec_move_bullets(bs1, b0, dt_ms as int);
            assert(bounds == b0);
            assert(self.player == p2);
            assert(bullets_before_move == bs1);
            assert(bullets_before_scan == bs2);
            assert(next_before_scan == n1);
            let es_mid = enemies_before_scan;
            assert(spec_scan(bs2, 0, es_mid) == sc);
            assert(exists|es_w: Seq<Enemy>|
                #![trigger es_w.len()]
                {
                    &&& es_w.len() == old(self).enemies@.len()
                    &&& (forall|i: int|
                        0 <= i < es_w.len() ==> stepped_from(
                            #[trigger] es_w[i],
                            old(self).enemies@[i],
                            b0,
                            dt_ms as int,
                        ))
                    &&& ({
                        let scw = spec_scan(bs2, 0, es_w);
                        let slenw = scw.1.len() as int;
                        let fe = self.enemies@;
                        &&& self.bullets@ == scw.0
                        &&& self.score.value == old(self).score.value + SCORE_PER_KILL * scw.2
                        &&& self.next_id == n1 + scw.2
                        &&& fe.subrange(0, slenw) == scw.1
                        &&& (forall|i: int|
                            slenw <= i < fe.len() ==> (#[trigger] fe[i]).id == n1 + (i - slenw)
                                && is_fresh_spawn(fe[i]))
                    })
                }) by {
                assert({
                    &&& es_mid.len() == old(self).enemies@.len()
                    &&& (forall|i: int|
                        0 <= i < es_mid.len() ==> stepped_from(
                            #[trigger] es_mid[i],
                            old(self).enemies@[i],
                            b0,
                            dt_ms as int,
                        ))
                    &&& ({
                        let scw = spec_scan(bs2, 0, es_mid);
                        let slenw = scw.1.len() as int;
                        let fe = self.enemies@;
                        &&& self.bullets@ == scw.0
                        &&& self.score.value == old(self).score.value + SCORE_PER_KILL * scw.2
                        &&& self.next_id == n1 + scw.2
                        &&& fe.subrange(0, slenw) == scw.1
                        &&& (forall|i: int|
                            slenw <= i < fe.len() ==> (#[trigger] fe[i]).id == n1 + (i - slenw)
                                && is_fresh_spawn(fe[i]))
                    })
                });
            }
        }
    }
}

} // verus!
