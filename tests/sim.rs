use shooty::body::{Bullet, Obj, BOUNCE_MARGIN, HEIGHT, SPIN, TURN, WIDTH};
use shooty::geom::{isqrt, sat, trunc_div, wrap_coord, Vec2, LIM};
use shooty::world::{
    prune, Controls, Draws, ShardDraw, World, BULLET_TTL_MAX, BULLET_TTL_MIN, CRATE_LIMIT, SPAWN_BACKLOG,
    SPAWN_INTERVAL, SPLINTER_TTL_MAX, SPLINTER_TTL_MIN,
};

fn idle(facing: Vec2) -> Controls {
    Controls {
        rotate_left: false,
        rotate_right: false,
        forward: false,
        back: false,
        strafe_right: false,
        strafe_left: false,
        brake: false,
        fire: false,
        force_spawn: false,
        toggle_bounce: false,
        facing,
        turned_facing: facing,
    }
}

const EAST: Vec2 = Vec2 { x: 1000, y: 0 };

#[test]
fn constructors_fill_fields() {
    let a = Obj::new(5, 6);
    assert_eq!(a, Obj { pos: Vec2 { x: 5, y: 6 }, vel: Vec2 { x: 0, y: 0 }, rot: 0, rot_v: 0 });
    let b = Obj::from(Vec2::new(1, 2), Vec2::new(3, 4), 7);
    assert_eq!(b.rot_v, 0);
    assert_eq!(b.vel, Vec2 { x: 3, y: 4 });
    let c = Obj::with(1, 2, 3, 4, 5, 6);
    assert_eq!(c.rot_v, 6);
    assert_eq!(c.bullet(9), Bullet { obj: c, ttl: 9 });
}

#[test]
fn pushed_moves_exactly_and_jitters_in_range() {
    let c = Obj::with(100, 200, 10, 20, 1000, 5);
    for _ in 0..50 {
        let p = c.pushed(7, -8, 3, -4);
        assert_eq!(p.pos, Vec2 { x: 107, y: 192 });
        assert_eq!(p.vel, Vec2 { x: 13, y: 16 });
        assert!(p.rot - 1000 >= 0 && p.rot - 1000 < TURN);
        assert!(p.rot_v - 5 >= -SPIN && p.rot_v - 5 < SPIN);
    }
    let q = c.pushed_by(1, 1, 1, 1, 11, -12);
    assert_eq!(q.rot, 1011);
    assert_eq!(q.rot_v, -7);
}

#[test]
fn arithmetic_helpers() {
    assert_eq!(trunc_div(-7, 2), -3);
    assert_eq!(trunc_div(7, 2), 3);
    assert_eq!(isqrt(0), 0);
    assert_eq!(isqrt(24), 4);
    assert_eq!(isqrt(25), 5);
    assert_eq!(wrap_coord(-1, WIDTH), WIDTH - 1);
    assert_eq!(wrap_coord(WIDTH + 5, WIDTH), 5);
    assert_eq!(sat(i128::from(LIM) + 10), LIM);
    assert_eq!(sat(-i128::from(LIM) - 10), -LIM);
}

#[test]
fn wrap_brings_bodies_back_into_the_arena() {
    let mut o = Obj::with(WIDTH - 10, 5, 30, -20, 0, 3);
    o.step(false);
    assert_eq!(o.pos, Vec2 { x: 20, y: HEIGHT - 15 });
    assert_eq!(o.vel, Vec2 { x: 30, y: -20 });
    assert_eq!(o.rot, 3);
    let once = wrap_coord(-123_456_789, WIDTH);
    assert!(once >= 0 && once < WIDTH);
    assert_eq!(wrap_coord(once, WIDTH), once);
}

#[test]
fn integration_is_linear_under_wrap() {
    let start = Obj::with(WIDTH - 1000, 500, 700, -300, 0, 0);
    let mut o = start;
    for _ in 0..10 {
        o.step(false);
    }
    assert_eq!(o.pos.x, (WIDTH - 1000 + 7000) % WIDTH);
    assert_eq!(o.pos.y, (500 - 3000 + HEIGHT) % HEIGHT);
}

#[test]
fn bounce_turns_velocity_inward() {
    let mut o = Obj::with(10, HEIGHT - 10, -50, 40, 0, 0);
    o.step(true);
    assert_eq!(o.pos, Vec2 { x: -40, y: HEIGHT + 30 });
    assert_eq!(o.vel, Vec2 { x: 50, y: -40 });
    let mut inner = Obj::with(BOUNCE_MARGIN + 100, 1_000_000, -50, 40, 0, 0);
    inner.step(true);
    assert_eq!(inner.vel, Vec2 { x: -50, y: 40 });
}

#[test]
fn prune_drops_spent_projectiles_in_order() {
    let o = Obj::new(0, 0);
    let mut v = vec![o.bullet(3), o.bullet(1), o.bullet(2), o.bullet(0)];
    prune(&mut v);
    assert_eq!(v, vec![o.bullet(2), o.bullet(1)]);
    prune(&mut v);
    assert_eq!(v, vec![o.bullet(1)]);
    prune(&mut v);
    assert!(v.is_empty());
}

#[test]
fn ttl_counts_ticks_of_presence() {
    let mut v = vec![Obj::new(0, 0).bullet(5)];
    let mut present = 0;
    for _ in 0..10 {
        prune(&mut v);
        if !v.is_empty() {
            present += 1;
        }
    }
    assert_eq!(present, 4);
}

#[test]
fn collision_conserves_momentum_and_separates() {
    let mut a = Obj::with(1_000_000, 1_000_000, 500, 0, 0, 0);
    let mut b = Obj::with(1_240_000, 1_000_000, -300, 100, 0, 0);
    a.resolve(&mut b);
    assert_eq!(a.vel.x + b.vel.x, 200);
    assert_eq!(a.vel.y + b.vel.y, 100);
    assert_eq!(a.vel, Vec2 { x: -300, y: 0 });
    assert_eq!(b.vel, Vec2 { x: 500, y: 100 });
    let d = b.pos.x - a.pos.x;
    assert!((d - 768_000).abs() <= 2, "distance {}", d);
    assert_eq!(a.pos.y, b.pos.y);
}

#[test]
fn coincident_or_distant_bodies_are_left_alone() {
    let a0 = Obj::with(5, 5, 10, 0, 0, 0);
    let mut a = a0;
    let mut b = Obj::with(5, 5, -10, 0, 0, 0);
    let b0 = b;
    a.resolve(&mut b);
    assert_eq!((a, b), (a0, b0));
    let mut c = Obj::with(5_000_000, 5, -10, 0, 0, 0);
    let c0 = c;
    a.resolve(&mut c);
    assert_eq!((a, c), (a0, c0));
}

#[test]
fn firing_from_the_centre() {
    let mut w = World::new();
    assert_eq!(w.ship.pos, Vec2 { x: WIDTH / 2, y: HEIGHT / 2 });
    assert_eq!(w.crate_spawn_time, SPAWN_BACKLOG);
    w.fire(EAST);
    assert_eq!(w.bullets.len(), 1);
    let b = w.bullets[0];
    assert_eq!(b.obj.pos, Vec2 { x: WIDTH / 2 + 480_000, y: HEIGHT / 2 });
    assert_eq!(b.obj.vel, Vec2 { x: 188_000, y: 0 });
    assert!(b.ttl >= BULLET_TTL_MIN && b.ttl < BULLET_TTL_MAX);
    assert_eq!(BULLET_TTL_MIN, 270);
    assert_eq!(BULLET_TTL_MAX, 372);
}

#[test]
fn fire_once_gives_one_bullet_next_tick() {
    let mut w = World::new();
    w.crate_spawn_time = 1000;
    let mut c = idle(EAST);
    c.fire = true;
    w.tick(&c);
    assert_eq!(w.bullets.len(), 1);
    let b = w.bullets[0];
    assert_eq!(b.obj.pos, Vec2 { x: WIDTH / 2 + 480_000 + 188_000, y: HEIGHT / 2 });
    w.tick(&idle(EAST));
    assert_eq!(w.bullets.len(), 1);
}

#[test]
fn destruction_fans_out_into_four_splinters() {
    let mut w = World::new();
    w.crates.push(Obj::with(1_000_000, 1_000_000, 0, 0, 0, 0));
    w.crates.push(Obj::with(20_000_000, 1_000_000, 0, 0, 0, 0));
    w.bullets.push(Obj::with(1_100_000, 1_000_000, 5000, 0, 0, 0).bullet(100));
    w.bullets.push(Obj::with(9_000_000, 9_000_000, 0, 0, 0, 0).bullet(100));
    let draws: Vec<ShardDraw> = (0..8).map(|i| ShardDraw { ttl: 100 + i, turn: 10 * i, spin: i - 4 }).collect();
    let hits = w.shoot_with(&draws);
    assert_eq!(hits, 1);
    assert_eq!(w.crates.len(), 1);
    assert_eq!(w.crates[0].pos.x, 20_000_000);
    assert_eq!(w.bullets.len(), 1);
    assert_eq!(w.bullets[0].obj.pos.x, 9_000_000);
    assert_eq!(w.splinters.len(), 4);
    let xs: Vec<i64> = w.splinters.iter().map(|s| s.obj.pos.x).collect();
    assert_eq!(xs, vec![1_192_000, 808_000, 1_000_000, 1_000_000]);
    let vxs: Vec<i64> = w.splinters.iter().map(|s| s.obj.vel.x).collect();
    assert_eq!(vxs, vec![22_000, -18_000, 2_000, 2_000]);
    let ys: Vec<i64> = w.splinters.iter().map(|s| s.obj.pos.y).collect();
    assert_eq!(ys, vec![1_000_000, 1_000_000, 1_192_000, 808_000]);
    let vys: Vec<i64> = w.splinters.iter().map(|s| s.obj.vel.y).collect();
    assert_eq!(vys, vec![0, 0, 20_000, -20_000]);
    let ttls: Vec<i64> = w.splinters.iter().map(|s| s.ttl).collect();
    assert_eq!(ttls, vec![100, 101, 102, 103]);
    let rots: Vec<i64> = w.splinters.iter().map(|s| s.obj.rot).collect();
    assert_eq!(rots, vec![0, 10, 20, 30]);
    let spins: Vec<i64> = w.splinters.iter().map(|s| s.obj.rot_v).collect();
    assert_eq!(spins, vec![-4, -3, -2, -1]);
}

#[test]
fn one_obstacle_goes_to_one_bullet() {
    let mut w = World::new();
    w.crates.push(Obj::with(1_000_000, 1_000_000, 0, 0, 0, 0));
    w.bullets.push(Obj::with(1_000_000, 1_000_000, 0, 0, 0, 0).bullet(100));
    w.bullets.push(Obj::with(1_000_010, 1_000_000, 0, 0, 0, 0).bullet(100));
    let draws = vec![ShardDraw { ttl: 100, turn: 0, spin: 0 }; 8];
    assert_eq!(w.shoot_with(&draws), 1);
    assert_eq!(w.bullets.len(), 1);
    assert_eq!(w.bullets[0].obj.pos.x, 1_000_010);
    assert!(w.crates.is_empty());
}

#[test]
fn spawning_respects_countdown_and_ship_distance() {
    let mut w = World::new();
    let (cx, cy) = (WIDTH / 2, HEIGHT / 2);
    assert!(!w.spawn_at(cx + 100, cy, 1, 2, 3, 4));
    assert!(w.spawn_at(1000, 1000, 1, 2, 3, 4));
    assert_eq!(w.crates[0], Obj::with(1000, 1000, 1, 2, 3, 4));
    assert_eq!(w.crate_spawn_time, SPAWN_BACKLOG + SPAWN_INTERVAL);
    w.crate_spawn_time = 1;
    assert!(!w.spawn_at(1000, 1000, 1, 2, 3, 4));
    assert!(!w.try_spawn());
    assert_eq!(w.crates.len(), 1);
}

#[test]
fn countdown_freezes_at_the_limit() {
    let mut w = World::new();
    w.crate_spawn_time = 10;
    w.count_down();
    assert_eq!(w.crate_spawn_time, 9);
    for _ in 0..CRATE_LIMIT {
        w.crates.push(Obj::new(0, 0));
    }
    w.count_down();
    assert_eq!(w.crate_spawn_time, 9);
}

#[test]
fn steering_turns_thrusts_and_brakes() {
    let mut w = World::new();
    let mut c = idle(EAST);
    c.rotate_left = true;
    assert_eq!(w.turned_rotation(&c), -553);
    c.rotate_left = false;
    c.rotate_right = true;
    c.forward = true;
    w.steer(&c);
    assert_eq!(w.ship.rot, 553);
    assert_eq!(w.ship.vel, Vec2 { x: 1000, y: 0 });
    let mut d = idle(EAST);
    d.forward = true;
    d.strafe_right = true;
    w.ship.vel = Vec2 { x: 0, y: 0 };
    w.steer(&d);
    assert_eq!(w.ship.vel, Vec2 { x: 707, y: 707 });
    let mut b = idle(EAST);
    b.brake = true;
    w.ship.vel = Vec2 { x: 3000, y: 500 };
    w.steer(&b);
    assert_eq!(w.ship.vel, Vec2 { x: 3000, y: 0 });
    w.ship.vel = Vec2 { x: -3000, y: 4000 };
    w.steer(&b);
    assert_eq!(w.ship.vel, Vec2 { x: -2400, y: 3200 });
}

#[test]
fn tick_toggles_boundary_policy_and_forces_spawns() {
    let mut w = World::new();
    w.crate_spawn_time = 100;
    let mut c = idle(EAST);
    c.toggle_bounce = true;
    c.force_spawn = true;
    w.tick(&c);
    assert!(w.bounce_edge);
    assert_eq!(w.crate_spawn_time, 100 - 1 - SPAWN_INTERVAL);
    w.tick(&c);
    assert!(!w.bounce_edge);
}

#[test]
fn obstacles_stay_under_the_limit_when_every_draw_is_clear() {
    let mut w = World::new();
    for _ in 0..10_000 {
        w.spawn_at(1000, 1000, 0, 0, 0, 0);
        w.count_down();
        assert!(w.crates.len() <= CRATE_LIMIT);
    }
    assert_eq!(w.crates.len(), CRATE_LIMIT);
    assert!(w.crate_spawn_time > 0);
}

#[test]
fn a_backlog_never_spawns_past_the_limit() {
    let mut w = World::new();
    for _ in 0..CRATE_LIMIT - 1 {
        w.crates.push(Obj::new(0, 0));
    }
    w.crate_spawn_time = 0;
    let (cx, cy) = (WIDTH / 2, HEIGHT / 2);
    for _ in 0..SPAWN_INTERVAL {
        assert!(!w.spawn_at(cx, cy, 0, 0, 0, 0));
        w.count_down();
    }
    assert_eq!(w.crate_spawn_time, -SPAWN_INTERVAL);
    assert!(w.spawn_at(1000, 1000, 0, 0, 0, 0));
    w.count_down();
    assert!(!w.spawn_at(1000, 1000, 0, 0, 0, 0));
    assert_eq!(w.crates.len(), CRATE_LIMIT);
}

#[test]
fn collisions_sweep_pairs_in_order() {
    let mut w = World::new();
    w.ship.pos = Vec2 { x: 100_000, y: 100_000 };
    w.crates.push(Obj::with(10_000_000, 10_000_000, 100, 0, 0, 0));
    w.crates.push(Obj::with(10_600_000, 10_000_000, 0, 0, 0, 0));
    w.crates.push(Obj::with(20_000_000, 10_000_000, 0, 0, 0, 0));
    w.collide();
    assert_eq!(w.crates[0].vel, Vec2 { x: 0, y: 0 });
    assert_eq!(w.crates[1].vel, Vec2 { x: 100, y: 0 });
    assert_eq!(w.crates[0].pos.x, 9_916_000);
    assert_eq!(w.crates[1].pos.x, 10_684_000);
    assert_eq!(w.crates[2], Obj::with(20_000_000, 10_000_000, 0, 0, 0, 0));
    assert_eq!(w.ship.vel, Vec2 { x: 0, y: 0 });
}

fn draws(n_shards: usize) -> Draws {
    Draws {
        spawn_x: 1000,
        spawn_y: 1000,
        spawn_vx: 5,
        spawn_vy: -5,
        spawn_rot: 7,
        spawn_rot_v: 1,
        bullet_ttl: 300,
        shards: vec![ShardDraw { ttl: 100, turn: 0, spin: 0 }; n_shards],
    }
}

#[test]
fn tick_with_fires_exactly_one_bullet_ahead_of_the_ship() {
    let mut w = World::new();
    w.crate_spawn_time = 1000;
    let mut c = idle(EAST);
    c.fire = true;
    w.tick_with(&c, &draws(4));
    assert_eq!(w.bullets.len(), 1);
    let b = w.bullets[0];
    assert_eq!(b.ttl, 300);
    assert_eq!(b.obj.vel, Vec2 { x: 188_000, y: 0 });
    assert_eq!(b.obj.pos, Vec2 { x: WIDTH / 2 + 480_000 + 188_000, y: HEIGHT / 2 });
    assert_eq!(b.obj.rot, 0);
    assert_eq!(w.ship, Obj::new(WIDTH / 2, HEIGHT / 2));
}

#[test]
fn tick_with_spawns_the_drawn_obstacle_and_moves_it() {
    let mut w = World::new();
    w.tick_with(&idle(EAST), &draws(4));
    assert_eq!(w.crates, vec![Obj::with(1005, 995, 5, -5, 8, 1)]);
    assert_eq!(w.crate_spawn_time, SPAWN_BACKLOG + SPAWN_INTERVAL - 1);
}

#[test]
fn tick_with_prunes_then_shatters() {
    let mut w = World::new();
    w.crate_spawn_time = 1000;
    w.crates.push(Obj::with(1_000_000, 1_000_000, 0, 0, 0, 0));
    w.bullets.push(Obj::with(1_100_000, 1_000_000, 0, 0, 0, 0).bullet(100));
    w.bullets.push(Obj::with(9_000_000, 9_000_000, 0, 0, 0, 0).bullet(1));
    w.splinters.push(Obj::new(5, 5).bullet(1));
    w.tick_with(&idle(EAST), &draws(12));
    assert!(w.bullets.is_empty());
    assert!(w.crates.is_empty());
    assert_eq!(w.splinters.len(), 4);
}

#[test]
fn opacity_follows_remaining_life() {
    let o = Obj::new(0, 0);
    assert_eq!(o.bullet(-5).opacity(), 0);
    assert_eq!(o.bullet(15).opacity(), 500);
    assert_eq!(o.bullet(30).opacity(), 1000);
    assert_eq!(o.bullet(10_000).opacity(), 1000);
}

#[test]
fn random_tick_shatters_with_draws_in_range() {
    let mut w = World::new();
    w.crate_spawn_time = 1000;
    w.crates.push(Obj::with(1_000_000, 1_000_000, 0, 0, 0, 0));
    w.bullets.push(Obj::with(1_100_000, 1_000_000, 0, 0, 0, 0).bullet(100));
    w.tick(&idle(EAST));
    assert_eq!(w.splinters.len(), 4);
    for s in &w.splinters {
        assert!(s.ttl >= SPLINTER_TTL_MIN && s.ttl < SPLINTER_TTL_MAX);
    }
}

#[test]
fn splinters_near_the_edge_stay_in_the_arena_under_wrap() {
    let mut w = World::new();
    w.crate_spawn_time = 1000;
    w.crates.push(Obj::with(0, 1_000_000, 0, 0, 0, 0));
    w.bullets.push(Obj::with(0, 1_000_000, 0, 0, 0, 0).bullet(100));
    w.tick_with(&idle(EAST), &draws(8));
    assert_eq!(w.splinters.len(), 4);
    assert_eq!(w.splinters[1].obj.pos.x, WIDTH - 192_000);
    for s in &w.splinters {
        assert!(s.obj.pos.x >= 0 && s.obj.pos.x < WIDTH);
        assert!(s.obj.pos.y >= 0 && s.obj.pos.y < HEIGHT);
    }
}

#[test]
fn collision_pushes_stay_in_the_arena_under_wrap() {
    let mut w = World::new();
    w.crate_spawn_time = 1000;
    w.crates.push(Obj::with(10, 1_000_000, 0, 0, 0, 0));
    w.crates.push(Obj::with(100_000, 1_000_000, 0, 0, 0, 0));
    w.tick_with(&idle(EAST), &draws(4));
    for c in &w.crates {
        assert!(c.pos.x >= 0 && c.pos.x < WIDTH);
    }
    assert!(w.crates[0].pos.x > WIDTH / 2);
}
