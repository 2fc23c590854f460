use arena_shooter::arena::ArenaBounds;
use arena_shooter::enemy::Enemy;
use arena_shooter::enemy::enemy_step;
use arena_shooter::enemy::spawn_enemy;
use arena_shooter::geometry::Vec2;
use arena_shooter::player::MoveInput;
use arena_shooter::player::Player;
use arena_shooter::player::player_aim;
use arena_shooter::player::player_movement;
use arena_shooter::player::spawn_player;
use arena_shooter::randomness::random_spawn_point;
use arena_shooter::randomness::random_unit_dir;
use arena_shooter::score::Score;
use arena_shooter::timer::Timer;
use arena_shooter::timer::TimerMode;
use arena_shooter::weapon::Bullet;
use arena_shooter::weapon::Weapon;
use arena_shooter::weapon::bullet_collision;
use arena_shooter::weapon::bullet_movement;
use arena_shooter::weapon::fire_weapon;
use arena_shooter::world::TickInput;
use arena_shooter::world::World;

fn test_bounds() -> ArenaBounds {
    // a 960 x 720 unit viewport: half extents 480 and 360 units
    ArenaBounds { half_w: 480_000, half_h: 360_000 }
}

fn fresh_redirect_timer() -> Timer {
    Timer { duration_ms: 3000, elapsed_ms: 0, mode: TimerMode::Repeating, fired: false }
}

fn enemy_at(id: u64, x: i64, y: i64, dir_x: i64, dir_y: i64) -> Enemy {
    Enemy {
        id,
        position: Vec2 { x, y },
        direction: Vec2 { x: dir_x, y: dir_y },
        speed: 100,
        change_direction_timer: fresh_redirect_timer(),
    }
}

fn bullet_at(id: u64, x: i64, y: i64, dir_x: i64, dir_y: i64) -> Bullet {
    Bullet { id, position: Vec2 { x, y }, direction: Vec2 { x: dir_x, y: dir_y }, speed: 400, damage: 1 }
}

#[test]
fn timer_repeating_wraps_overshoot() {
    let mut t = Timer { duration_ms: 3000, elapsed_ms: 0, mode: TimerMode::Repeating, fired: false };
    t.tick(3500);
    assert!(t.finished());
    assert_eq!(t.elapsed_ms, 500);
    t.tick(1000);
    assert!(!t.finished());
    assert_eq!(t.elapsed_ms, 1500);
    t.tick(1500);
    assert!(t.finished());
    assert_eq!(t.elapsed_ms, 0);
}

#[test]
fn timer_once_saturates_and_reset_clears() {
    let mut t = Timer { duration_ms: 500, elapsed_ms: 0, mode: TimerMode::Once, fired: false };
    t.tick(400);
    assert!(!t.finished());
    t.tick(400);
    assert!(t.finished());
    assert_eq!(t.elapsed_ms, 500);
    t.reset();
    assert!(!t.finished());
    assert_eq!(t.elapsed_ms, 0);
}

#[test]
fn single_axis_movement_is_speed_times_elapsed() {
    let bounds = test_bounds();
    let mut p = spawn_player();
    let input = MoveInput { up: false, down: false, left: false, right: true };
    player_movement(&mut p, input, bounds, 1000);
    // 200 units per second for one second: 200 units, exactly
    assert_eq!(p.position, Vec2 { x: 200_000, y: 0 });
}

#[test]
fn diagonal_movement_is_not_faster() {
    let bounds = test_bounds();
    let mut p = spawn_player();
    let input = MoveInput { up: true, down: false, left: false, right: true };
    player_movement(&mut p, input, bounds, 1000);
    assert_eq!(p.position, Vec2 { x: 141_421, y: 141_421 });
    let step: i128 = 200_000;
    let sq = (p.position.x as i128).pow(2) + (p.position.y as i128).pow(2);
    assert!(sq <= step * step);
    // and it falls short of the axis-aligned step by less than 3 per million
    assert!(2_000_000 * (p.position.x as i128 + 1).pow(2) > 999_997 * step * step);
}

#[test]
fn opposed_keys_cancel_out() {
    let bounds = test_bounds();
    let mut p = spawn_player();
    let input = MoveInput { up: true, down: true, left: true, right: false };
    player_movement(&mut p, input, bounds, 1000);
    // up and down cancel; only the left key moves the player
    assert_eq!(p.position, Vec2 { x: -200_000, y: 0 });
}

#[test]
fn player_movement_clamps_at_the_band() {
    let bounds = test_bounds();
    let mut p = spawn_player();
    p.position = Vec2 { x: 464_000, y: 0 };
    let input = MoveInput { up: false, down: false, left: false, right: true };
    player_movement(&mut p, input, bounds, 1000);
    assert_eq!(p.position, Vec2 { x: 465_000, y: 0 });
}

#[test]
fn aim_turns_toward_far_target_and_ignores_near_one() {
    let bounds = test_bounds();
    let mut p = spawn_player();
    player_aim(&mut p, Some(Vec2 { x: 0, y: 250_000 }), bounds);
    assert_eq!(p.facing, Vec2 { x: 0, y: 1000 });
    // a target within two units sits in the dead zone
    player_aim(&mut p, Some(Vec2 { x: 1_500, y: 0 }), bounds);
    assert_eq!(p.facing, Vec2 { x: 0, y: 1000 });
    // no resolvable cursor: no change
    player_aim(&mut p, None, bounds);
    assert_eq!(p.facing, Vec2 { x: 0, y: 1000 });
}

#[test]
fn ready_weapon_fires_offset_bullet_and_cools() {
    let bounds = test_bounds();
    let player = Player { position: Vec2 { x: 0, y: 0 }, facing: Vec2 { x: 1000, y: 0 }, speed: 200 };
    let mut weapon = Weapon::new();
    let mut bullets: Vec<Bullet> = Vec::new();
    let mut next_id: u64 = 7;
    fire_weapon(&mut weapon, &player, true, &mut bullets, &mut next_id, bounds, 500);
    assert_eq!(bullets.len(), 1);
    assert_eq!(bullets[0].position, Vec2 { x: 20_000, y: 0 });
    assert_eq!(bullets[0].direction, Vec2 { x: 1000, y: 0 });
    assert_eq!(bullets[0].speed, 400);
    assert_eq!(bullets[0].id, 7);
    assert_eq!(next_id, 8);
    // the weapon is cooling: its cooldown was reset and reports unfinished
    assert!(!weapon.cooldown.finished());
    assert_eq!(weapon.cooldown.elapsed_ms, 0);
}

#[test]
fn no_fire_while_input_inactive_or_cooling() {
    let bounds = test_bounds();
    let player = spawn_player();
    let mut weapon = Weapon::new();
    let mut bullets: Vec<Bullet> = Vec::new();
    let mut next_id: u64 = 0;
    // cooldown complete but fire not pressed: no bullet
    fire_weapon(&mut weapon, &player, false, &mut bullets, &mut next_id, bounds, 600);
    assert_eq!(bullets.len(), 0);
    // fire pressed but cooldown unfinished: no bullet
    fire_weapon(&mut weapon, &player, true, &mut bullets, &mut next_id, bounds, 100);
    assert_eq!(bullets.len(), 0);
    assert_eq!(next_id, 0);
}

#[test]
fn bullet_leaving_the_arena_despawns() {
    let bounds = test_bounds();
    let mut bullets = vec![
        bullet_at(0, 479_000, 0, 1000, 0),
        bullet_at(1, 0, 0, 1000, 0),
    ];
    bullet_movement(&mut bullets, bounds, 10);
    // the first moved to 483 units, past the 480-unit edge, and is gone
    assert_eq!(bullets.len(), 1);
    assert_eq!(bullets[0].id, 1);
    assert_eq!(bullets[0].position, Vec2 { x: 4_000, y: 0 });
}

#[test]
fn enemy_reflects_and_clamps_at_left_edge() {
    let bounds = test_bounds();
    let mut e = enemy_at(1, -495_000, 0, -1000, 0);
    enemy_step(&mut e, Vec2 { x: 1000, y: 0 }, bounds, 100);
    // moved to -505 units, past the 480-unit edge: direction flips and the
    // position clamps to -465 units (the edge minus the 15-unit margin)
    assert_eq!(e.position, Vec2 { x: -465_000, y: 0 });
    assert_eq!(e.direction, Vec2 { x: 1000, y: 0 });
}

#[test]
fn enemy_wanders_plainly_inside_the_arena() {
    let bounds = test_bounds();
    let mut e = enemy_at(1, 10_000, 20_000, 1000, 0);
    enemy_step(&mut e, Vec2 { x: 0, y: 1000 }, bounds, 100);
    // redirect timer (3 s) has not fired after 0.1 s: direction kept
    assert_eq!(e.direction, Vec2 { x: 1000, y: 0 });
    assert_eq!(e.position, Vec2 { x: 20_000, y: 20_000 });
    assert_eq!(e.change_direction_timer.elapsed_ms, 100);
}

#[test]
fn enemy_rerolls_direction_when_redirect_timer_fires() {
    let bounds = test_bounds();
    let mut e = enemy_at(1, 0, 0, 1000, 0);
    enemy_step(&mut e, Vec2 { x: 0, y: -1000 }, bounds, 3000);
    assert_eq!(e.direction, Vec2 { x: 0, y: -1000 });
    // it moved along the fresh direction: 100 units per second for 3 s
    assert_eq!(e.position, Vec2 { x: 0, y: -300_000 });
}

#[test]
fn hit_removes_bullet_and_enemy_scores_and_respawns() {
    let bounds = test_bounds();
    let mut bullets = vec![bullet_at(0, 100_000, 100_000, 1000, 0)];
    let mut enemies = vec![enemy_at(1, 105_000, 100_000, -1000, 0)];
    let mut score = Score { value: 0 };
    let mut next_id: u64 = 2;
    bullet_collision(&mut bullets, &mut enemies, &mut score, &mut next_id, bounds);
    // distance 5 < 20: both are removed, the score rises by 10, and one
    // replacement enemy appears inside the spawn rectangle
    assert!(bullets.is_empty());
    assert_eq!(score.value, 10);
    assert_eq!(enemies.len(), 1);
    assert_eq!(enemies[0].id, 2);
    assert!(enemies[0].position.x >= -400_000 && enemies[0].position.x < 400_000);
    assert!(enemies[0].position.y >= -300_000 && enemies[0].position.y < 300_000);
    // the replacement carries a reset 3 s repeating redirect timer and a
    // near-unit direction
    assert_eq!(enemies[0].change_direction_timer, fresh_redirect_timer());
    assert_eq!(enemies[0].speed, 100);
    let d = enemies[0].direction;
    let len_sq = d.x * d.x + d.y * d.y;
    assert!((995_000..=1_000_000).contains(&len_sq));
    assert_eq!(next_id, 3);
}

#[test]
fn pair_exactly_at_hit_radius_does_not_collide() {
    let bounds = test_bounds();
    let mut bullets = vec![bullet_at(0, 120_000, 100_000, 1000, 0)];
    let mut enemies = vec![enemy_at(1, 100_000, 100_000, 1000, 0)];
    let mut score = Score { value: 0 };
    let mut next_id: u64 = 2;
    bullet_collision(&mut bullets, &mut enemies, &mut score, &mut next_id, bounds);
    // the distance is exactly 20 units, not strictly below it
    assert_eq!(bullets.len(), 1);
    assert_eq!(enemies.len(), 1);
    assert_eq!(enemies[0].id, 1);
    assert_eq!(score.value, 0);
    assert_eq!(next_id, 2);
}

#[test]
fn one_bullet_overlapping_two_enemies_kills_at_most_one() {
    let bounds = test_bounds();
    let mut bullets = vec![bullet_at(0, 0, 0, 1000, 0)];
    let mut enemies = vec![enemy_at(1, 5_000, 0, 1000, 0), enemy_at(2, 0, 5_000, 1000, 0)];
    let mut score = Score { value: 0 };
    let mut next_id: u64 = 3;
    bullet_collision(&mut bullets, &mut enemies, &mut score, &mut next_id, bounds);
    // both enemies were in radius; only the first found is destroyed and
    // the score rises exactly once
    assert!(bullets.is_empty());
    assert_eq!(score.value, 10);
    assert_eq!(enemies.len(), 2);
    assert_eq!(enemies[0].id, 2);
    assert_eq!(enemies[1].id, 3);
}

#[test]
fn population_stays_at_five_across_kills() {
    let bounds = test_bounds();
    let mut enemies: Vec<Enemy> = Vec::new();
    for id in 0..5u64 {
        let mut e = spawn_enemy(id);
        e.position = Vec2 { x: -200_000 + 100_000 * id as i64, y: 0 };
        e.direction = Vec2 { x: 1000, y: 0 };
        enemies.push(e);
    }
    let mut score = Score { value: 0 };
    let mut next_id: u64 = 5;
    // three rounds: each fires one bullet point-blank at some enemy
    for round in 0..3u64 {
        let target_x = enemies[0].position.x;
        let mut bullets = vec![bullet_at(100 + round, target_x + 1_000, 0, 1000, 0)];
        bullet_collision(&mut bullets, &mut enemies, &mut score, &mut next_id, bounds);
        assert_eq!(enemies.len(), 5, "population changed in round {round}");
    }
    assert_eq!(score.value, 30);
}

#[test]
fn tick_fires_and_scores_against_a_still_enemy() {
    let bounds = test_bounds();
    // five stationary enemies; the first sits 100 units ahead of the player
    let spots = [(100_000i64, 0i64), (-300_000, 200_000), (300_000, 200_000), (-300_000, -200_000), (300_000, -200_000)];
    let mut enemies: Vec<Enemy> = Vec::new();
    for (id, (x, y)) in spots.iter().enumerate() {
        let mut e = enemy_at(id as u64, *x, *y, 1000, 0);
        e.speed = 0;
        enemies.push(e);
    }
    let mut w = World {
        player: spawn_player(),
        weapon: Weapon::new(),
        enemies,
        bullets: Vec::new(),
        score: Score { value: 0 },
        bounds,
        next_id: 5,
    };
    let input = TickInput {
        movement: MoveInput { up: false, down: false, left: false, right: false },
        fire: true,
        target: None,
    };
    // four quiet ticks while the cooldown runs
    for _ in 0..4 {
        w.tick(input, 100);
        assert_eq!(w.bullets.len(), 0);
        assert_eq!(w.score.value, 0);
    }
    // the fifth tick completes the 500 ms cooldown: a bullet appears at
    // 20 units and flies 40 more before the collision scan
    w.tick(input, 100);
    assert_eq!(w.bullets.len(), 1);
    assert_eq!(w.bullets[0].position, Vec2 { x: 60_000, y: 0 });
    assert_eq!(w.score.value, 0);
    // the sixth tick carries it onto the enemy: both go, the score rises
    // by 10, and the population is backfilled to five
    w.tick(input, 100);
    assert_eq!(w.bullets.len(), 0);
    assert_eq!(w.score.value, 10);
    assert_eq!(w.enemies.len(), 5);
    assert!(w.enemies.iter().all(|e| e.id != 0));
}

#[test]
fn random_spawn_point_stays_in_rectangle() {
    for _ in 0..200 {
        let p = random_spawn_point();
        assert!(p.x >= -400_000 && p.x < 400_000);
        assert!(p.y >= -300_000 && p.y < 300_000);
    }
}

#[test]
fn random_unit_dir_is_usable() {
    for _ in 0..200 {
        let d = random_unit_dir();
        assert!(d.x != 0 || d.y != 0);
        assert!(d.x.abs() <= 1000 && d.y.abs() <= 1000);
    }
}

#[test]
fn fresh_world_holds_population_and_score_through_ticks() {
    let bounds = test_bounds();
    let mut w = World::new(bounds);
    assert_eq!(w.enemies.len(), 5);
    assert_eq!(w.score.value, 0);
    assert_eq!(w.bullets.len(), 0);
    let quiet = TickInput {
        movement: MoveInput { up: false, down: false, left: false, right: true },
        fire: false,
        target: Some(Vec2 { x: 300_000, y: 100_000 }),
    };
    for _ in 0..50 {
        w.tick(quiet, 16);
        assert_eq!(w.enemies.len(), 5);
        assert_eq!(w.score.value, 0);
        assert_eq!(w.bullets.len(), 0);
    }
    let firing = TickInput { fire: true, ..quiet };
    let mut last_score = w.score.value;
    for _ in 0..200 {
        w.tick(firing, 16);
        assert_eq!(w.enemies.len(), 5);
        assert!(w.score.value >= last_score);
        assert_eq!((w.score.value - last_score) % 10, 0);
        last_score = w.score.value;
    }
}
