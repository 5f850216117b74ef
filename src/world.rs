use vstd::prelude::*;
use crate::geom::{Vec2, LIM, clamp, tdiv, is_isqrt, sat, trunc_div, isqrt};
use crate::body::{Obj, Bullet, WIDTH, HEIGHT, TURN, SPIN, root};
use crate::chance::random_in;
use self_compare::SliceCompareExt;

verus! {

/// Most obstacles the spawner keeps alive.
pub const CRATE_LIMIT: usize = 200;
/// Ticks between two spawns (0.65 s).
pub const SPAWN_INTERVAL: i64 = 39;
/// Starting spawn countdown: a backlog of twenty spawns.
pub const SPAWN_BACKLOG: i64 = -780;
/// Radius around the ship in which no obstacle is spawned (160 px).
pub const SPAWN_CLEAR: i64 = 3_840_000;
/// Bound on each velocity component of a spawned obstacle (150 px/s).
pub const SPAWN_SPEED: i64 = 60_000;
/// Scale of a facing vector: a unit vector has length `ONE`.
pub const ONE: i64 = 1000;
/// `ONE` over the square root of two, rounded.
pub const HALF_DIAG: i64 = 707;
/// Turn per tick while a rotate intent is held (5.53 rad/s).
pub const ROT_STEP: i64 = 553;
/// Bullet spawn offset ahead of the ship, per unit of facing (20 px).
pub const BULLET_OFFSET: i64 = 480;
/// Bullet speed added along facing, per unit of facing (470 px/s).
pub const BULLET_SPEED: i64 = 188;
/// Speed change per tick from thrust or brake (150 px/s²).
pub const ACCEL: i64 = 1000;
/// Bullet lifetime range in ticks: `[4.5 s, 6.2 s)`.
pub const BULLET_TTL_MIN: i64 = 270;
pub const BULLET_TTL_MAX: i64 = 372;
/// Splinter lifetime range in ticks: `[1.6 s, 4.2 s)`.
pub const SPLINTER_TTL_MIN: i64 = 96;
pub const SPLINTER_TTL_MAX: i64 = 252;
/// Offset of a splinter from its obstacle (8 px).
pub const SPLINTER_OFFSET: i64 = 192_000;
/// Velocity kick of a splinter away from its obstacle (50 px/s).
pub const SPLINTER_KICK: i64 = 20_000;
/// Centre distance below which a bullet hits an obstacle (24 px).
pub const HIT_DIST: i64 = 576_000;

/// The simulation state: ship, projectiles, obstacles, spawn countdown and
/// boundary policy.
pub struct World {
    pub ship: Obj,
    pub bullets: Vec<Bullet>,
    pub crates: Vec<Obj>,
    pub splinters: Vec<Bullet>,
    /// Ticks until the next spawn; non-positive values are a backlog.
    pub crate_spawn_time: i64,
    /// Bounce at the edges instead of wrapping.
    pub bounce_edge: bool,
}

/// Intents sampled for one tick, with the ship's facing as unit vectors scaled
/// by `ONE`: `facing` at its current rotation, `turned_facing` at the rotation
/// this tick turns it to (see `World::turned_rotation`).
#[derive(Clone, Copy, Debug, PartialEq, Eq, Structural)]
pub struct Controls {
    pub rotate_left: bool,
    pub rotate_right: bool,
    pub forward: bool,
    pub back: bool,
    pub strafe_right: bool,
    pub strafe_left: bool,
    pub brake: bool,
    pub fire: bool,
    pub force_spawn: bool,
    pub toggle_bounce: bool,
    pub facing: Vec2,
    pub turned_facing: Vec2,
}

pub open spec fn facing_ok(d: Vec2) -> bool {
    -ONE <= d.x <= ONE && -ONE <= d.y <= ONE
}

impl Controls {
    pub open spec fn wf(self) -> bool {
        facing_ok(self.facing) && facing_ok(self.turned_facing)
    }
}

pub open spec fn all_wf(s: Seq<Obj>) -> bool {
    forall|i: int| 0 <= i < s.len() ==> #[trigger] s[i].wf()
}

pub open spec fn all_bullets_wf(s: Seq<Bullet>) -> bool {
    forall|i: int| 0 <= i < s.len() ==> #[trigger] s[i].obj.wf()
}

/// The projectiles that survive one tick, with their lifetimes one tick shorter.
pub open spec fn pruned(s: Seq<Bullet>) -> Seq<Bullet>
    decreases s.len(),
{
    if s.len() == 0 {
        Seq::empty()
    } else {
        let rest = pruned(s.drop_last());
        let b = s.last();
        if b.ttl > 1 {
            rest.push(Bullet { ttl: (b.ttl - 1) as i64, ..b })
        } else {
            rest
        }
    }
}

/// Squared distance between two points.
pub open spec fn dist_sq(a: Vec2, b: Vec2) -> int {
    (a.x - b.x) * (a.x - b.x) + (a.y - b.y) * (a.y - b.y)
}

/// The bullet fired from `ship` facing `d`, with lifetime `ttl`.
pub open spec fn shot(ship: Obj, d: Vec2, ttl: int) -> Bullet {
    Bullet {
        obj: Obj {
            pos: Vec2 {
                x: clamp(ship.pos.x + BULLET_OFFSET * d.x) as i64,
                y: clamp(ship.pos.y + BULLET_OFFSET * d.y) as i64,
            },
            vel: Vec2 {
                x: clamp(ship.vel.x + BULLET_SPEED * d.x) as i64,
                y: clamp(ship.vel.y + BULLET_SPEED * d.y) as i64,
            },
            rot: ship.rot,
            rot_v: 0,
        },
        ttl: ttl as i64,
    }
}

/// Removes spent projectiles and shortens the lives of the others by one tick,
/// keeping their order.
pub fn prune(v: &mut Vec<Bullet>)
    requires
        all_bullets_wf(old(v)@),
    ensures
        final(v)@ == pruned(old(v)@),
        all_bullets_wf(final(v)@),
{
    let ghost s = v@;
    let mut out: Vec<Bullet> = Vec::new();
    let mut i: usize = 0;
    while i < v.len()
        invariant
            v@ == s,
            i <= s.len(),
            out@ == pruned(s.take(i as int)),
            all_bullets_wf(s),
            all_bullets_wf(out@),
        decreases s.len() - i,
    {
        let b = v[i];
        assert(s.take(i as int + 1).drop_last() == s.take(i as int));
        if b.ttl > 1 {
            let ghost before = out@;
            out.push(Bullet { ttl: b.ttl - 1, ..b });
            assert(s[i as int].obj.wf());
            assert forall|k: int| 0 <= k < out@.len() implies #[trigger] out@[k].obj.wf() by {
                if k < before.len() {
                    assert(out@[k] == before[k]);
                } else {
                    assert(out@[k].obj == s[i as int].obj);
                }
            }
        }
        i = i + 1;
    }
    assert(s.take(s.len() as int) == s);
    *v = out;
}

impl World {
    pub open spec fn wf(self) -> bool {
        self.ship.wf() && all_bullets_wf(self.bullets@) && all_wf(self.crates@) && all_bullets_wf(
            self.splinters@,
        ) && -LIM <= self.crate_spawn_time <= LIM
    }

    /// A world with the ship at rest in the middle of the arena.
    pub fn new() -> (r: World)
        ensures
            r.wf(),
            r.ship == Obj::new_spec(14_400_000, 10_800_000),
            r.bullets@.len() == 0 && r.crates@.len() == 0 && r.splinters@.len() == 0,
            r.crate_spawn_time == SPAWN_BACKLOG,
            !r.bounce_edge,
    {
        World {
            ship: Obj::new(WIDTH / 2, HEIGHT / 2),
            bullets: Vec::new(),
            crates: Vec::new(),
            splinters: Vec::new(),
            crate_spawn_time: SPAWN_BACKLOG,
            bounce_edge: false,
        }
    }

    /// Whether a spawn at `(x, y)` is clear of the ship.
    pub open spec fn clear_of_ship(self, x: int, y: int) -> bool {
        dist_sq(self.ship.pos, Vec2 { x: x as i64, y: y as i64 }) >= SPAWN_CLEAR * SPAWN_CLEAR
    }

    /// Spawns `Obj::with(x, y, vx, vy, rot, rot_v)` when the countdown has run
    /// out and `(x, y)` is clear of the ship, and then extends the countdown by
    /// one interval. Otherwise nothing changes.
    pub fn spawn_at(&mut self, x: i64, y: i64, vx: i64, vy: i64, rot: i64, rot_v: i64) -> (spawned: bool)
        requires
            old(self).wf(),
            0 <= x < WIDTH && 0 <= y < HEIGHT,
            -LIM <= vx <= LIM && -LIM <= vy <= LIM && -LIM <= rot <= LIM && -LIM <= rot_v <= LIM,
        ensures
            final(self).wf(),
            spawned == (old(self).crates@.len() < CRATE_LIMIT && old(self).crate_spawn_time <= 0
                && old(self).clear_of_ship(x as int, y as int)),
            spawned ==> final(self).crates@ == old(self).crates@.push(
                Obj::with_spec(x, y, vx, vy, rot, rot_v),
            ) && final(self).crate_spawn_time == old(self).crate_spawn_time + SPAWN_INTERVAL,
            !spawned ==> *final(self) == *old(self),
            final(self).ship == old(self).ship && final(self).bullets@ == old(self).bullets@
                && final(self).splinters@ == old(self).splinters@ && final(self).bounce_edge == old(
                self,
            ).bounce_edge,
    {
        if self.crates.len() >= CRATE_LIMIT || self.crate_spawn_time > 0 {
            return false;
        }
        let dx: i128 = self.ship.pos.x as i128 - x as i128;
        let dy: i128 = self.ship.pos.y as i128 - y as i128;
        assert(-4 * LIM <= dx <= 4 * LIM && -4 * LIM <= dy <= 4 * LIM);
        assert(dx * dx <= 16 * LIM * LIM && dy * dy <= 16 * LIM * LIM) by (nonlinear_arith)
            requires
                -4 * LIM <= dx <= 4 * LIM,
                -4 * LIM <= dy <= 4 * LIM,
        ;
        assert(dx * dx >= 0 && dy * dy >= 0) by (nonlinear_arith);
        let d: i128 = dx * dx + dy * dy;
        let c: i128 = SPAWN_CLEAR as i128;
        if d < c * c {
            return false;
        }
        self.crate_spawn_time = self.crate_spawn_time + SPAWN_INTERVAL;
        self.crates.push(Obj::with(x, y, vx, vy, rot, rot_v));
        true
    }

    /// The spawner's turn: when the countdown has run out, draws a position in
    /// the arena, a velocity within `SPAWN_SPEED`, a rotation within a turn and a
    /// spin within `SPIN`, and hands them to `spawn_at`.
    pub fn try_spawn(&mut self) -> (spawned: bool)
        requires
            old(self).wf(),
        ensures
            final(self).wf(),
            spawned ==> ({
                let o = final(self).crates@.last();
                &&& 0 <= o.pos.x < WIDTH && 0 <= o.pos.y < HEIGHT
                &&& old(self).clear_of_ship(o.pos.x as int, o.pos.y as int)
                &&& -SPAWN_SPEED <= o.vel.x < SPAWN_SPEED && -SPAWN_SPEED <= o.vel.y < SPAWN_SPEED
                &&& 0 <= o.rot < TURN && -SPIN <= o.rot_v < SPIN
            }),
            spawned ==> old(self).crates@.len() < CRATE_LIMIT && old(self).crate_spawn_time <= 0 && final(self).crates@.len() == old(
                self,
            ).crates@.len() + 1 && final(self).crates@.drop_last() == old(self).crates@
                && final(self).crate_spawn_time == old(self).crate_spawn_time + SPAWN_INTERVAL,
            !spawned && old(self).crates@.len() < CRATE_LIMIT && old(self).crate_spawn_time <= 0
                ==> exists|x: int, y: int|
                0 <= x < WIDTH && 0 <= y < HEIGHT && !old(self).clear_of_ship(x, y),
            !spawned ==> *final(self) == *old(self),
            final(self).ship == old(self).ship && final(self).bullets@ == old(self).bullets@
                && final(self).splinters@ == old(self).splinters@ && final(self).bounce_edge == old(
                self,
            ).bounce_edge,
    {
        if self.crates.len() >= CRATE_LIMIT || self.crate_spawn_time > 0 {
            return false;
        }
        let x = random_in(0, WIDTH);
        let y = random_in(0, HEIGHT);
        let vx = random_in(-SPAWN_SPEED, SPAWN_SPEED);
        let vy = random_in(-SPAWN_SPEED, SPAWN_SPEED);
        let rot = random_in(0, TURN);
        let rot_v = random_in(-SPIN, SPIN);
        let r = self.spawn_at(x, y, vx, vy, rot, rot_v);
        proof {
            if !r && old(self).crates@.len() < CRATE_LIMIT && old(self).crate_spawn_time <= 0 {
                assert(!old(self).clear_of_ship(x as int, y as int));
            }
            if r {
                assert(self.crates@.drop_last() == old(self).crates@);
            }
        }
        r
    }

    /// The countdown runs only while there is room for another obstacle.
    pub fn count_down(&mut self)
        requires
            old(self).wf(),
        ensures
            final(self).wf(),
            final(self).crate_spawn_time == if old(self).crates@.len() < CRATE_LIMIT {
                clamp(old(self).crate_spawn_time - 1)
            } else {
                old(self).crate_spawn_time as int
            },
            final(self).ship == old(self).ship && final(self).bullets@ == old(self).bullets@
                && final(self).crates@ == old(self).crates@ && final(self).splinters@ == old(
                self,
            ).splinters@ && final(self).bounce_edge == old(self).bounce_edge,
    {
        if self.crates.len() < CRATE_LIMIT {
            self.crate_spawn_time = sat(self.crate_spawn_time as i128 - 1);
        }
    }

    /// Fires a bullet with lifetime `ttl` from the ship along the unit vector `d`.
    pub fn fire_with(&mut self, d: Vec2, ttl: i64)
        requires
            old(self).wf(),
            facing_ok(d),
        ensures
            final(self).wf(),
            final(self).bullets@ == old(self).bullets@.push(shot(old(self).ship, d, ttl as int)),
            final(self).ship == old(self).ship && final(self).crates@ == old(self).crates@
                && final(self).splinters@ == old(self).splinters@ && final(self).crate_spawn_time
                == old(self).crate_spawn_time && final(self).bounce_edge == old(self).bounce_edge,
    {
        let s = self.ship;
        assert(-ONE * ONE <= BULLET_OFFSET * d.x <= ONE * ONE && -ONE * ONE <= BULLET_OFFSET * d.y
            <= ONE * ONE && -ONE * ONE <= BULLET_SPEED * d.x <= ONE * ONE && -ONE * ONE
            <= BULLET_SPEED * d.y <= ONE * ONE) by (nonlinear_arith)
            requires
                facing_ok(d),
        ;
        let pos = Vec2 {
            x: sat(s.pos.x as i128 + BULLET_OFFSET as i128 * d.x as i128),
            y: sat(s.pos.y as i128 + BULLET_OFFSET as i128 * d.y as i128),
        };
        let vel = Vec2 {
            x: sat(s.vel.x as i128 + BULLET_SPEED as i128 * d.x as i128),
            y: sat(s.vel.y as i128 + BULLET_SPEED as i128 * d.y as i128),
        };
        let b = Obj::from(pos, vel, s.rot).bullet(ttl);
        self.bullets.push(b);
        proof {
            assert(all_bullets_wf(self.bullets@)) by {
                assert forall|i: int| 0 <= i < self.bullets@.len() implies #[trigger] self.bullets@[i].obj.wf() by {
                    if i < old(self).bullets@.len() {
                        assert(self.bullets@[i] == old(self).bullets@[i]);
                    } else {
                        assert(self.bullets@[i] == b);
                        assert(b.obj.pos.bounded() && b.obj.vel.bounded());
                    }
                }
            }
        }
    }

    /// Fires a bullet along `d` with a lifetime drawn from
    /// `[BULLET_TTL_MIN, BULLET_TTL_MAX)`.
    pub fn fire(&mut self, d: Vec2)
        requires
            old(self).wf(),
            facing_ok(d),
        ensures
            final(self).wf(),
            exists|ttl: int|
                BULLET_TTL_MIN <= ttl < BULLET_TTL_MAX && final(self).bullets@ == old(
                    self,
                ).bullets@.push(shot(old(self).ship, d, ttl)),
            final(self).ship == old(self).ship && final(self).crates@ == old(self).crates@
                && final(self).splinters@ == old(self).splinters@ && final(self).crate_spawn_time
                == old(self).crate_spawn_time && final(self).bounce_edge == old(self).bounce_edge,
    {
        let ttl = random_in(BULLET_TTL_MIN, BULLET_TTL_MAX);
        self.fire_with(d, ttl);
    }

    /// The ship's rotation after this tick's turn intents.
    pub open spec fn turned(rot: i64, c: Controls) -> int {
        let r1 = if c.rotate_left { clamp(rot - ROT_STEP) } else { rot as int };
        if c.rotate_right { clamp(r1 + ROT_STEP) } else { r1 }
    }

    /// The rotation the ship turns to this tick; its facing is `Controls::turned_facing`.
    pub fn turned_rotation(&self, c: &Controls) -> (r: i64)
        requires
            self.wf(),
        ensures
            r == Self::turned(self.ship.rot, *c),
    {
        let mut r: i64 = self.ship.rot;
        if c.rotate_left {
            r = sat(r as i128 - ROT_STEP as i128);
        }
        if c.rotate_right {
            r = sat(r as i128 + ROT_STEP as i128);
        }
        r
    }

    /// The velocity component to cancel when braking: all but the forward part
    /// along the unit vector `d`.
    pub open spec fn to_cancel(v: Vec2, d: Vec2) -> (int, int) {
        let dot = v.x * d.x + v.y * d.y;
        let along = if dot > 0 { dot } else { 0 };
        (v.x - tdiv(along * d.x, (ONE * ONE) as int), v.y - tdiv(along * d.y, (ONE * ONE) as int))
    }

    /// The velocity after braking: the part to cancel shrinks by `ACCEL`, and
    /// vanishes if it was no larger.
    pub open spec fn braked(v: Vec2, d: Vec2) -> Vec2 {
        let (cx, cy) = Self::to_cancel(v, d);
        let m = root(cx * cx + cy * cy);
        if m <= ACCEL {
            Vec2 { x: clamp(v.x - cx) as i64, y: clamp(v.y - cy) as i64 }
        } else {
            Vec2 {
                x: clamp(v.x - tdiv(cx * ACCEL, m)) as i64,
                y: clamp(v.y - tdiv(cy * ACCEL, m)) as i64,
            }
        }
    }

    /// The thrust intents as a direction in the ship's frame, scaled by `ONE`.
    pub open spec fn wish(c: Controls) -> (int, int) {
        let wx = (if c.forward { 1int } else { 0 }) - (if c.back { 1int } else { 0 });
        let wy = (if c.strafe_right { 1int } else { 0 }) - (if c.strafe_left { 1int } else { 0 });
        if wx != 0 && wy != 0 {
            (wx * HALF_DIAG, wy * HALF_DIAG)
        } else {
            (wx * ONE, wy * ONE)
        }
    }

    /// The velocity after thrust: the wish rotated into the world by `d`, at `ACCEL`.
    pub open spec fn thrusted(v: Vec2, d: Vec2, c: Controls) -> Vec2 {
        let (wx, wy) = Self::wish(c);
        Vec2 {
            x: clamp(v.x + tdiv(d.x * wx - d.y * wy, ONE as int)) as i64,
            y: clamp(v.y + tdiv(d.y * wx + d.x * wy, ONE as int)) as i64,
        }
    }

    /// The ship after this tick's control intents.
    pub open spec fn steered(ship: Obj, c: Controls) -> Obj {
        let v1 = if c.brake { Self::braked(ship.vel, c.turned_facing) } else { ship.vel };
        Obj { rot: Self::turned(ship.rot, c) as i64, vel: Self::thrusted(v1, c.turned_facing, c), ..ship }
    }

    fn brake_vel(v: Vec2, d: Vec2) -> (r: Vec2)
        requires
            v.bounded(),
            facing_ok(d),
        ensures
            r == Self::braked(v, d),
    {
        let vx: i128 = v.x as i128;
        let vy: i128 = v.y as i128;
        let dx: i128 = d.x as i128;
        let dy: i128 = d.y as i128;
        assert(-LIM * ONE <= vx * dx <= LIM * ONE && -LIM * ONE <= vy * dy <= LIM * ONE) by (nonlinear_arith)
            requires
                v.bounded(),
                facing_ok(d),
                vx == v.x,
                vy == v.y,
                dx == d.x,
                dy == d.y,
        ;
        let dot: i128 = vx * dx + vy * dy;
        let along: i128 = if dot > 0 { dot } else { 0 };
        assert(-2 * LIM * ONE * ONE <= along * dx <= 2 * LIM * ONE * ONE && -2 * LIM * ONE * ONE
            <= along * dy <= 2 * LIM * ONE * ONE) by (nonlinear_arith)
            requires
                0 <= along <= 2 * LIM * ONE,
                facing_ok(d),
                dx == d.x,
                dy == d.y,
        ;
        let ax: i128 = trunc_div(along * dx, (ONE * ONE) as i128);
        let ay: i128 = trunc_div(along * dy, (ONE * ONE) as i128);
        proof {
            lemma_tdiv_small(along * dx, ONE * ONE, 2 * LIM);
            lemma_tdiv_small(along * dy, ONE * ONE, 2 * LIM);
        }
        let cx: i128 = vx - ax;
        let cy: i128 = vy - ay;
        assert(0 <= cx * cx <= 9 * LIM * LIM && 0 <= cy * cy <= 9 * LIM * LIM) by (nonlinear_arith)
            requires
                -3 * LIM <= cx <= 3 * LIM,
                -3 * LIM <= cy <= 3 * LIM,
        ;
        let n: i128 = cx * cx + cy * cy;
        let m: u128 = isqrt(n as u128);
        assert(m <= 5 * LIM) by {
            if m > 5 * LIM {
                assert(m * m > 25 * LIM * LIM) by (nonlinear_arith)
                    requires
                        m > 5 * LIM,
                ;
            }
        }
        proof {
            crate::body::lemma_root_unique(n as int, m as int);
        }
        if m <= ACCEL as u128 {
            Vec2 { x: sat(vx - cx), y: sat(vy - cy) }
        } else {
            let mi: i128 = m as i128;
            let qx: i128 = trunc_div(cx * (ACCEL as i128), mi);
            let qy: i128 = trunc_div(cy * (ACCEL as i128), mi);
            proof {
                crate::body::lemma_tdiv_bound(cx * ACCEL, mi as int, 3 * LIM * ACCEL);
                crate::body::lemma_tdiv_bound(cy * ACCEL, mi as int, 3 * LIM * ACCEL);
            }
            Vec2 { x: sat(vx - qx), y: sat(vy - qy) }
        }
    }

    fn thrust_vel(v: Vec2, d: Vec2, c: &Controls) -> (r: Vec2)
        requires
            v.bounded(),
            facing_ok(d),
        ensures
            r == Self::thrusted(v, d, *c),
    {
        let wx: i128 = (if c.forward { 1i128 } else { 0 }) - (if c.back { 1i128 } else { 0 });
        let wy: i128 = (if c.strafe_right { 1i128 } else { 0 }) - (if c.strafe_left { 1i128 } else { 0 });
        let (nx, ny) = if wx != 0 && wy != 0 {
            (wx * HALF_DIAG as i128, wy * HALF_DIAG as i128)
        } else {
            (wx * ONE as i128, wy * ONE as i128)
        };
        let dx: i128 = d.x as i128;
        let dy: i128 = d.y as i128;
        assert(-ONE * ONE <= dx * nx <= ONE * ONE && -ONE * ONE <= dy * ny <= ONE * ONE && -ONE * ONE
            <= dy * nx <= ONE * ONE && -ONE * ONE <= dx * ny <= ONE * ONE) by (nonlinear_arith)
            requires
                -ONE <= nx <= ONE,
                -ONE <= ny <= ONE,
                -ONE <= dx <= ONE,
                -ONE <= dy <= ONE,
        ;
        let ax: i128 = trunc_div(dx * nx - dy * ny, ONE as i128);
        let ay: i128 = trunc_div(dy * nx + dx * ny, ONE as i128);
        proof {
            lemma_tdiv_small(dx * nx - dy * ny, ONE as int, 2 * ONE * ONE);
            lemma_tdiv_small(dy * nx + dx * ny, ONE as int, 2 * ONE * ONE);
        }
        Vec2 { x: sat(v.x as i128 + ax), y: sat(v.y as i128 + ay) }
    }

    /// Applies this tick's turn, brake and thrust intents to the ship.
    pub fn steer(&mut self, c: &Controls)
        requires
            old(self).wf(),
            c.wf(),
        ensures
            final(self).wf(),
            final(self).ship == Self::steered(old(self).ship, *c),
            final(self).bullets@ == old(self).bullets@ && final(self).crates@ == old(self).crates@
                && final(self).splinters@ == old(self).splinters@ && final(self).crate_spawn_time
                == old(self).crate_spawn_time && final(self).bounce_edge == old(self).bounce_edge,
    {
        let rot = self.turned_rotation(c);
        let mut v = self.ship.vel;
        if c.brake {
            v = Self::brake_vel(v, c.turned_facing);
        }
        v = Self::thrust_vel(v, c.turned_facing, c);
        self.ship.rot = rot;
        self.ship.vel = v;
    }
}

proof fn lemma_tdiv_small(n: int, d: int, m: int)
    requires
        -m * d <= n <= m * d,
        d > 0,
        m >= 0,
    ensures
        -m <= tdiv(n, d) <= m,
{
    if n >= 0 {
        assert(n / d <= m) by (nonlinear_arith)
            requires
                0 <= n <= m * d,
                d > 0,
        ;
        assert(n / d >= 0) by (nonlinear_arith)
            requires
                0 <= n,
                d > 0,
        ;
    } else {
        assert(-m * d == -(m * d)) by (nonlinear_arith);
        assert((-n) / d <= m) by (nonlinear_arith)
            requires
                0 <= -n <= m * d,
                d > 0,
        ;
        assert((-n) / d >= 0) by (nonlinear_arith)
            requires
                0 <= -n,
                d > 0,
        ;
    }
}

/// Number of `true` entries.
pub open spec fn count_true(s: Seq<bool>) -> int
    decreases s.len(),
{
    if s.len() == 0 {
        0
    } else {
        count_true(s.drop_last()) + if s.last() { 1int } else { 0 }
    }
}

proof fn lemma_count_set(s: Seq<bool>, i: int)
    requires
        0 <= i < s.len(),
        !s[i],
    ensures
        count_true(s.update(i, true)) == count_true(s) + 1,
    decreases s.len(),
{
    let t = s.update(i, true);
    if i == s.len() - 1 {
        assert(t.drop_last() == s.drop_last());
    } else {
        assert(t.drop_last() == s.drop_last().update(i, true));
        lemma_count_set(s.drop_last(), i);
    }
}

proof fn lemma_count_bound(s: Seq<bool>)
    ensures
        0 <= count_true(s) <= s.len(),
    decreases s.len(),
{
    if s.len() > 0 {
        lemma_count_bound(s.drop_last());
    }
}

fn all_false(n: usize) -> (r: Vec<bool>)
    ensures
        r@.len() == n,
        forall|i: int| 0 <= i < n ==> !#[trigger] r@[i],
        count_true(r@) == 0,
{
    let mut r: Vec<bool> = Vec::new();
    let mut i: usize = 0;
    while i < n
        invariant
            i <= n,
            r@.len() == i,
            forall|k: int| 0 <= k < i ==> !#[trigger] r@[k],
            count_true(r@) == 0,
        decreases n - i,
    {
        let ghost before = r@;
        r.push(false);
        assert(r@.drop_last() == before);
        i = i + 1;
    }
    r
}

/// The entries of `s` whose flag in `flags` is clear, in order.
pub open spec fn kept<T>(s: Seq<T>, flags: Seq<bool>) -> Seq<T>
    decreases s.len(),
{
    if s.len() == 0 {
        Seq::empty()
    } else {
        let rest = kept(s.drop_last(), flags.take(s.len() - 1));
        if flags[s.len() - 1] {
            rest
        } else {
            rest.push(s.last())
        }
    }
}

fn keep_unflagged<T: Copy>(s: &Vec<T>, flags: &Vec<bool>) -> (r: Vec<T>)
    requires
        s@.len() == flags@.len(),
    ensures
        r@ == kept(s@, flags@),
        r@.len() == s@.len() - count_true(flags@),
        forall|k: int| 0 <= k < r@.len() ==> exists|j: int| 0 <= j < s@.len() && !flags@[j] && #[trigger] r@[k] == s@[j],
{
    let mut r: Vec<T> = Vec::new();
    let mut i: usize = 0;
    while i < s.len()
        invariant
            i <= s@.len(),
            s@.len() == flags@.len(),
            r@.len() == i - count_true(flags@.take(i as int)),
            r@ == kept(s@.take(i as int), flags@.take(i as int)),
            forall|k: int| 0 <= k < r@.len() ==> exists|j: int| 0 <= j < s@.len() && !flags@[j] && #[trigger] r@[k] == s@[j],
        decreases s@.len() - i,
    {
        assert(flags@.take(i as int + 1).drop_last() == flags@.take(i as int));
        assert(s@.take(i as int + 1).drop_last() == s@.take(i as int));
        assert(flags@.take(i as int + 1).take(i as int) == flags@.take(i as int));
        if !flags[i] {
            let ghost before = r@;
            r.push(s[i]);
            assert forall|k: int| 0 <= k < r@.len() implies exists|j: int| 0 <= j < s@.len() && !flags@[j] && #[trigger] r@[k] == s@[j] by {
                if k < before.len() {
                    assert(r@[k] == before[k]);
                } else {
                    assert(r@[k] == s@[i as int]);
                }
            }
        }
        i = i + 1;
    }
    assert(flags@.take(s@.len() as int) == flags@);
    assert(s@.take(s@.len() as int) == s@);
    r
}

/// Advances every body of `v` by one tick.
fn step_objs(v: &mut Vec<Obj>, bounce_edge: bool)
    requires
        all_wf(old(v)@),
    ensures
        final(v)@.len() == old(v)@.len(),
        forall|i: int| 0 <= i < final(v)@.len() ==> #[trigger] final(v)@[i] == old(v)@[i].stepped(bounce_edge),
        all_wf(final(v)@),
{
    let ghost s = v@;
    let mut i: usize = 0;
    while i < v.len()
        invariant
            v@.len() == s.len(),
            i <= s.len(),
            forall|k: int| 0 <= k < i ==> #[trigger] v@[k] == s[k].stepped(bounce_edge),
            forall|k: int| i <= k < s.len() ==> #[trigger] v@[k] == s[k],
            all_wf(s),
            all_wf(v@),
        decreases s.len() - i,
    {
        let mut o = v[i];
        o.step(bounce_edge);
        v.set(i, o);
        i = i + 1;
    }
}

/// Advances every projectile of `v` by one tick; lifetimes are unchanged.
fn step_bullets(v: &mut Vec<Bullet>, bounce_edge: bool)
    requires
        all_bullets_wf(old(v)@),
    ensures
        final(v)@.len() == old(v)@.len(),
        forall|i: int| 0 <= i < final(v)@.len() ==> #[trigger] final(v)@[i] == (Bullet { obj: old(v)@[i].obj.stepped(bounce_edge), ..old(v)@[i] }),
        all_bullets_wf(final(v)@),
{
    let ghost s = v@;
    let mut i: usize = 0;
    while i < v.len()
        invariant
            v@.len() == s.len(),
            i <= s.len(),
            forall|k: int| 0 <= k < i ==> #[trigger] v@[k] == (Bullet { obj: s[k].obj.stepped(bounce_edge), ..s[k] }),
            forall|k: int| i <= k < s.len() ==> #[trigger] v@[k] == s[k],
            all_bullets_wf(s),
            all_bullets_wf(v@),
        decreases s.len() - i,
    {
        let mut b = v[i];
        b.obj.step(bounce_edge);
        v.set(i, b);
        i = i + 1;
    }
}

/// `s` with bodies `i` and `j` resolved against each other.
pub open spec fn resolve_at(s: Seq<Obj>, i: int, j: int) -> Seq<Obj> {
    let (a, b) = s[i].resolved(s[j]);
    s.update(i, a).update(j, b)
}

/// Resolves body `i` against bodies `j`, `j + 1`, ..., `n - 1`, in order.
pub open spec fn sweep_row(s: Seq<Obj>, i: int, j: int, n: int) -> Seq<Obj>
    decreases n - j,
{
    if j < n {
        sweep_row(resolve_at(s, i, j), i, j + 1, n)
    } else {
        s
    }
}

/// Resolves every pair `(i, j)` with `start <= i < j < n` once, row by row.
pub open spec fn sweep(s: Seq<Obj>, start: int, n: int) -> Seq<Obj>
    decreases n - start,
{
    if start < n {
        sweep(sweep_row(s, start, start + 1, n), start + 1, n)
    } else {
        s
    }
}

/// Resolves `ship` against bodies `j`, ..., `n - 1` of `s`, in order.
pub open spec fn ship_sweep(ship: Obj, s: Seq<Obj>, j: int, n: int) -> (Obj, Seq<Obj>)
    decreases n - j,
{
    if j < n {
        let (a, b) = ship.resolved(s[j]);
        ship_sweep(a, s.update(j, b), j + 1, n)
    } else {
        (ship, s)
    }
}

/// Resolves every unordered pair of `v` once, in index order.
///
/// Relies on self_compare's `compare_self_mut`: it hands its closure the pairs
/// `(i, j)` with `i < j` row by row, `(0, 1), (0, 2), ..., (1, 2), ...`, each
/// once, and nothing for fewer than two elements. The closure is `Obj::resolve`.
#[verifier::external_body]
fn collide_pairs(v: &mut Vec<Obj>)
    requires
        all_wf(old(v)@),
    ensures
        final(v)@.len() == old(v)@.len(),
        final(v)@ == sweep(old(v)@, 0, old(v)@.len() as int),
        all_wf(final(v)@),
{
    v.compare_self_mut(|a: &mut Obj, b: &mut Obj| a.resolve(b))
}

/// The drawn lifetime, turn and spin of one splinter.
#[derive(Clone, Copy, Debug, PartialEq, Eq, Structural)]
pub struct ShardDraw {
    pub ttl: i64,
    pub turn: i64,
    pub spin: i64,
}

impl ShardDraw {
    pub open spec fn in_range(self) -> bool {
        SPLINTER_TTL_MIN <= self.ttl < SPLINTER_TTL_MAX && 0 <= self.turn < TURN && -SPIN
            <= self.spin < SPIN
    }
}

/// An obstacle after a bullet moving at `hit_vel` struck it: it gains two fifths
/// of the bullet's velocity.
pub open spec fn struck(crat: Obj, hit_vel: Vec2) -> Obj {
    Obj {
        vel: Vec2 {
            x: clamp(crat.vel.x + tdiv(2 * hit_vel.x, 5)) as i64,
            y: clamp(crat.vel.y + tdiv(2 * hit_vel.y, 5)) as i64,
        },
        ..crat
    }
}

/// One splinter of the struck obstacle `c`, pushed by `(dx, dy)` and `(dvx, dvy)`.
pub open spec fn shard(c: Obj, dx: int, dy: int, dvx: int, dvy: int, d: ShardDraw) -> Bullet {
    Bullet { obj: c.pushed_spec(dx, dy, dvx, dvy, d.turn as int, d.spin as int), ttl: d.ttl }
}

/// The four splinters of `crat` struck at `hit_vel`, using draws `4k .. 4k + 4`:
/// pushed along `+x`, `-x`, `+y` and `-y`.
pub open spec fn shards_of(crat: Obj, hit_vel: Vec2, draws: Seq<ShardDraw>, k: int) -> Seq<Bullet> {
    let c = struck(crat, hit_vel);
    let d = SPLINTER_OFFSET as int;
    let v = SPLINTER_KICK as int;
    seq![
        shard(c, d, 0, v, 0, draws[4 * k]),
        shard(c, -d, 0, -v, 0, draws[4 * k + 1]),
        shard(c, 0, d, 0, v, draws[4 * k + 2]),
        shard(c, 0, -d, 0, -v, draws[4 * k + 3]),
    ]
}

/// Appends to `out` the four splinters of `crat` struck by a bullet moving at
/// `hit_vel`, with the draws `4k .. 4k + 4` of `draws`.
fn shatter(crat: Obj, hit_vel: Vec2, draws: &Vec<ShardDraw>, k: usize, out: &mut Vec<Bullet>)
    requires
        crat.wf(),
        hit_vel.bounded(),
        all_bullets_wf(old(out)@),
        4 * k + 4 <= draws@.len(),
    ensures
        final(out)@ == old(out)@ + shards_of(crat, hit_vel, draws@, k as int),
        all_bullets_wf(final(out)@),
{
    let kx: i128 = trunc_div(2 * hit_vel.x as i128, 5);
    let ky: i128 = trunc_div(2 * hit_vel.y as i128, 5);
    proof {
        crate::body::lemma_tdiv_bound(2 * hit_vel.x, 5, 2 * LIM);
        crate::body::lemma_tdiv_bound(2 * hit_vel.y, 5, 2 * LIM);
    }
    let mut c = crat;
    c.vel = Vec2 { x: sat(c.vel.x as i128 + kx), y: sat(c.vel.y as i128 + ky) };
    let ghost n0 = out@.len();
    let ghost s0 = out@;
    let d = SPLINTER_OFFSET;
    let dv = SPLINTER_KICK;
    let len = draws.len();
    assert(4 * k + 4 <= len);
    let d0 = draws[4 * k];
    let d1 = draws[4 * k + 1];
    let d2 = draws[4 * k + 2];
    let d3 = draws[4 * k + 3];
    let b0 = c.pushed_by(d, 0, dv, 0, d0.turn, d0.spin).bullet(d0.ttl);
    out.push(b0);
    let b1 = c.pushed_by(-d, 0, -dv, 0, d1.turn, d1.spin).bullet(d1.ttl);
    out.push(b1);
    let b2 = c.pushed_by(0, d, 0, dv, d2.turn, d2.spin).bullet(d2.ttl);
    out.push(b2);
    let b3 = c.pushed_by(0, -d, 0, -dv, d3.turn, d3.spin).bullet(d3.ttl);
    out.push(b3);
    assert(out@ == s0 + seq![b0, b1, b2, b3]);
    assert(seq![b0, b1, b2, b3] == shards_of(crat, hit_vel, draws@, k as int));
    assert(all_bullets_wf(out@)) by {
        assert forall|j: int| 0 <= j < out@.len() implies #[trigger] out@[j].obj.wf() by {
            if j < n0 {
                assert(out@[j] == s0[j]);
            } else if j == n0 {
                assert(out@[j] == b0);
            } else if j == n0 + 1 {
                assert(out@[j] == b1);
            } else if j == n0 + 2 {
                assert(out@[j] == b2);
            } else {
                assert(out@[j] == b3);
            }
        }
    }
}

/// The first obstacle from index `j` on that is not yet taken and that bullet `b`
/// reaches.
pub open spec fn first_hit(b: Bullet, crates: Seq<Obj>, taken: Seq<bool>, j: int) -> Option<int>
    decreases crates.len() - j,
{
    if j < 0 || j >= crates.len() {
        None
    } else if !taken[j] && World::hits(b, crates[j]) {
        Some(j)
    } else {
        first_hit(b, crates, taken, j + 1)
    }
}

/// Progress of the bullet scan: obstacles taken, bullets spent, splinters so
/// far, and the number of hits.
pub struct Scan {
    pub taken: Seq<bool>,
    pub dead: Seq<bool>,
    pub splinters: Seq<Bullet>,
    pub hits: int,
}

/// The scan after the first `i` bullets, each in turn taking the first free
/// obstacle in its reach.
pub open spec fn scan(bullets: Seq<Bullet>, crates: Seq<Obj>, splinters: Seq<Bullet>, draws: Seq<ShardDraw>, i: int) -> Scan
    decreases i,
{
    if i <= 0 {
        Scan {
            taken: Seq::new(crates.len(), |k: int| false),
            dead: Seq::new(bullets.len(), |k: int| false),
            splinters,
            hits: 0,
        }
    } else {
        let st = scan(bullets, crates, splinters, draws, i - 1);
        let b = bullets[i - 1];
        match first_hit(b, crates, st.taken, 0) {
            Some(c) => Scan {
                taken: st.taken.update(c, true),
                dead: st.dead.update(i - 1, true),
                splinters: st.splinters + shards_of(crates[c], b.obj.vel, draws, st.hits),
                hits: st.hits + 1,
            },
            None => st,
        }
    }
}

impl World {
    /// Moves every body by one tick under the boundary policy.
    pub fn step_all(&mut self)
        requires
            old(self).wf(),
        ensures
            final(self).wf(),
            final(self).ship == old(self).ship.stepped(old(self).bounce_edge),
            final(self).bullets@.len() == old(self).bullets@.len(),
            forall|i: int| 0 <= i < final(self).bullets@.len() ==> #[trigger] final(self).bullets@[i] == (Bullet { obj: old(self).bullets@[i].obj.stepped(old(self).bounce_edge), ..old(self).bullets@[i] }),
            final(self).crates@.len() == old(self).crates@.len(),
            forall|i: int| 0 <= i < final(self).crates@.len() ==> #[trigger] final(self).crates@[i] == old(self).crates@[i].stepped(old(self).bounce_edge),
            final(self).splinters@.len() == old(self).splinters@.len(),
            forall|i: int| 0 <= i < final(self).splinters@.len() ==> #[trigger] final(self).splinters@[i] == (Bullet { obj: old(self).splinters@[i].obj.stepped(old(self).bounce_edge), ..old(self).splinters@[i] }),
            final(self).crate_spawn_time == old(self).crate_spawn_time,
            final(self).bounce_edge == old(self).bounce_edge,
    {
        let b = self.bounce_edge;
        self.ship.step(b);
        step_bullets(&mut self.bullets, b);
        step_objs(&mut self.crates, b);
        step_bullets(&mut self.splinters, b);
    }

    /// Whether bullet `b` is within reach of obstacle `c`.
    pub open spec fn hits(b: Bullet, c: Obj) -> bool {
        dist_sq(b.obj.pos, c.pos) < HIT_DIST * HIT_DIST
    }

    fn near(b: &Bullet, c: &Obj) -> (r: bool)
        requires
            b.obj.wf(),
            c.wf(),
        ensures
            r == Self::hits(*b, *c),
    {
        let dx: i128 = b.obj.pos.x as i128 - c.pos.x as i128;
        let dy: i128 = b.obj.pos.y as i128 - c.pos.y as i128;
        proof {
            crate::body::lemma_square_bound(dx as int);
            crate::body::lemma_square_bound(dy as int);
        }
        let h: i128 = HIT_DIST as i128;
        dx * dx + dy * dy < h * h
    }

    /// Each bullet, in order, destroys the first obstacle still standing within
    /// its reach: both leave, and the obstacle's four splinters are appended.
    /// Returns the number of obstacles destroyed.
    pub fn shoot_with(&mut self, shards: &Vec<ShardDraw>) -> (hits: usize)
        requires
            old(self).wf(),
            4 * old(self).bullets@.len() <= shards@.len(),
        ensures
            final(self).wf(),
            ({
                let st = scan(old(self).bullets@, old(self).crates@, old(self).splinters@, shards@, old(self).bullets@.len() as int);
                &&& final(self).bullets@ == kept(old(self).bullets@, st.dead)
                &&& final(self).crates@ == kept(old(self).crates@, st.taken)
                &&& final(self).splinters@ == st.splinters
                &&& hits == st.hits
            }),
            final(self).bullets@.len() == old(self).bullets@.len() - hits,
            final(self).crates@.len() == old(self).crates@.len() - hits,
            final(self).splinters@.len() == old(self).splinters@.len() + 4 * hits,
            final(self).bullets@.len() + final(self).crates@.len() + final(self).splinters@.len()
                == old(self).bullets@.len() + old(self).crates@.len() + old(self).splinters@.len()
                + 2 * hits,
            final(self).splinters@.take(old(self).splinters@.len() as int) == old(self).splinters@,
            forall|i: int| 0 <= i < final(self).bullets@.len() ==> old(self).bullets@.contains(#[trigger] final(self).bullets@[i]),
            forall|i: int| 0 <= i < final(self).crates@.len() ==> old(self).crates@.contains(#[trigger] final(self).crates@[i]),
            final(self).ship == old(self).ship,
            final(self).crate_spawn_time == old(self).crate_spawn_time,
            final(self).bounce_edge == old(self).bounce_edge,
            (exists|i: int, j: int| 0 <= i < old(self).bullets@.len() && 0 <= j < old(self).crates@.len() && Self::hits(old(self).bullets@[i], old(self).crates@[j])) ==> hits > 0,
            forall|i: int, j: int| 0 <= i < final(self).bullets@.len() && 0 <= j < final(self).crates@.len() ==> !Self::hits(#[trigger] final(self).bullets@[i], #[trigger] final(self).crates@[j]),
    {
        let nb = self.bullets.len();
        let nc = self.crates.len();
        let mut taken = all_false(nc);
        let mut dead = all_false(nb);
        let mut hits: usize = 0;
        let ghost s0 = self.splinters@;
        let ghost bs = self.bullets@;
        let ghost cs = self.crates@;
        assert(taken@ == Seq::new(nc as nat, |k: int| false));
        assert(dead@ == Seq::new(nb as nat, |k: int| false));
        let mut i: usize = 0;
        while i < nb
            invariant
                self.wf(),
                self.bullets@.len() == nb,
                self.crates@.len() == nc,
                self.bullets@ == old(self).bullets@,
                self.crates@ == old(self).crates@,
                self.ship == old(self).ship,
                self.crate_spawn_time == old(self).crate_spawn_time,
                self.bounce_edge == old(self).bounce_edge,
                taken@.len() == nc,
                dead@.len() == nb,
                i <= nb,
                hits <= i,
                count_true(taken@) == hits,
                count_true(dead@) == hits,
                self.splinters@.len() == s0.len() + 4 * hits,
                self.splinters@.take(s0.len() as int) == s0,
                bs == old(self).bullets@,
                cs == old(self).crates@,
                s0 == old(self).splinters@,
                4 * nb <= shards@.len(),
                taken@ == scan(bs, cs, s0, shards@, i as int).taken,
                dead@ == scan(bs, cs, s0, shards@, i as int).dead,
                self.splinters@ == scan(bs, cs, s0, shards@, i as int).splinters,
                hits == scan(bs, cs, s0, shards@, i as int).hits,
                forall|k: int| i <= k < nb ==> !#[trigger] dead@[k],
                forall|a: int, k: int| 0 <= a < i && 0 <= k < nc && !#[trigger] dead@[a] ==> taken@[k] || !Self::hits(old(self).bullets@[a], #[trigger] old(self).crates@[k]),
                (exists|a: int, c: int| 0 <= a < i && 0 <= c < nc && Self::hits(old(self).bullets@[a], old(self).crates@[c])) ==> hits > 0,
            decreases nb - i,
        {
            let b = self.bullets[i];
            assert(self.bullets@[i as int].obj.wf());
            let mut j: usize = 0;
            let mut found: Option<usize> = None;
            while j < nc && found.is_none()
                invariant
                    self.wf(),
                    self.crates@.len() == nc,
                    self.bullets@ == old(self).bullets@,
                    self.crates@ == old(self).crates@,
                    self.bullets@.len() == nb,
                    i < nb,
                    b == self.bullets@[i as int],
                    b.obj.wf(),
                    taken@.len() == nc,
                    j <= nc,
                    found.is_none() ==> forall|k: int| 0 <= k < j ==> taken@[k] || !Self::hits(b, #[trigger] self.crates@[k]),
                    found matches Some(c) ==> c < nc && !taken@[c as int] && Self::hits(b, self.crates@[c as int]),
                    found.is_none() ==> first_hit(b, self.crates@, taken@, 0) == first_hit(b, self.crates@, taken@, j as int),
                    found matches Some(c) ==> first_hit(b, self.crates@, taken@, 0) == Some(c as int),
                decreases nc - j,
            {
                if !taken[j] && Self::near(&b, &self.crates[j]) {
                    found = Some(j);
                }
                j = j + 1;
            }
            proof {
                if found.is_none() {
                    assert(first_hit(b, self.crates@, taken@, j as int) == None::<int>);
                }
                if hits == 0 && found.is_none() {
                    assert forall|c: int| 0 <= c < nc implies !Self::hits(old(self).bullets@[i as int], old(self).crates@[c]) by {
                        if taken@[c] {
                            lemma_count_pos(taken@, c);
                        }
                    }
                }
            }
            if let Some(c) = found {
                proof {
                    lemma_count_set(taken@, c as int);
                    lemma_count_set(dead@, i as int);
                    lemma_count_bound(taken@.update(c as int, true));
                }
                taken.set(c, true);
                dead.set(i, true);
                hits = hits + 1;
                let crat = self.crates[c];
                let ghost before = self.splinters@;
                assert(self.crates@[c as int].wf());
                shatter(crat, b.obj.vel, shards, hits - 1, &mut self.splinters);
                assert(self.splinters@.take(s0.len() as int) == before.take(s0.len() as int));
            }
            i = i + 1;
        }
        let kept_bullets = keep_unflagged(&self.bullets, &dead);
        let kept_crates = keep_unflagged(&self.crates, &taken);
        proof {
            assert forall|a: int, k: int| 0 <= a < kept_bullets@.len() && 0 <= k < kept_crates@.len() implies !Self::hits(#[trigger] kept_bullets@[a], #[trigger] kept_crates@[k]) by {
                let ja = choose|j: int| 0 <= j < old(self).bullets@.len() && !dead@[j] && kept_bullets@[a] == old(self).bullets@[j];
                let jk = choose|j: int| 0 <= j < old(self).crates@.len() && !taken@[j] && kept_crates@[k] == old(self).crates@[j];
                assert(!dead@[ja]);
                assert(taken@[jk] || !Self::hits(old(self).bullets@[ja], old(self).crates@[jk]));
            }
            assert(all_bullets_wf(kept_bullets@)) by {
                assert forall|k: int| 0 <= k < kept_bullets@.len() implies #[trigger] kept_bullets@[k].obj.wf() by {
                    let j = choose|j: int| 0 <= j < old(self).bullets@.len() && !dead@[j] && kept_bullets@[k] == old(self).bullets@[j];
                    assert(old(self).bullets@[j].obj.wf());
                }
            }
            assert(all_wf(kept_crates@)) by {
                assert forall|k: int| 0 <= k < kept_crates@.len() implies #[trigger] kept_crates@[k].wf() by {
                    let j = choose|j: int| 0 <= j < old(self).crates@.len() && !taken@[j] && kept_crates@[k] == old(self).crates@[j];
                    assert(old(self).crates@[j].wf());
                }
            }
            assert forall|k: int| 0 <= k < kept_bullets@.len() implies old(self).bullets@.contains(#[trigger] kept_bullets@[k]) by {
                let j = choose|j: int| 0 <= j < old(self).bullets@.len() && !dead@[j] && kept_bullets@[k] == old(self).bullets@[j];
            }
            assert forall|k: int| 0 <= k < kept_crates@.len() implies old(self).crates@.contains(#[trigger] kept_crates@[k]) by {
                let j = choose|j: int| 0 <= j < old(self).crates@.len() && !taken@[j] && kept_crates@[k] == old(self).crates@[j];
            }
        }
        self.bullets = kept_bullets;
        self.crates = kept_crates;
        hits
    }

    /// The world as plain values.
    pub open spec fn model(&self) -> WorldModel {
        WorldModel {
            ship: self.ship,
            bullets: self.bullets@,
            crates: self.crates@,
            splinters: self.splinters@,
            crate_spawn_time: self.crate_spawn_time as int,
            bounce_edge: self.bounce_edge,
        }
    }

    /// One fixed tick with the random values `d`: spawn check, countdown,
    /// lifetime pruning, the edge-triggered fire / force-spawn / boundary-toggle
    /// intents, steering, motion, bullet hits, then collisions.
    pub fn tick_with(&mut self, c: &Controls, d: &Draws)
        requires
            old(self).wf(),
            c.wf(),
            d.in_range(),
            4 * (old(self).bullets@.len() + 1) <= d.shards@.len(),
        ensures
            final(self).wf(),
            final(self).model() == ticked(old(self).model(), *c, *d),
            !final(self).bounce_edge ==> final(self).model().in_arena(),
    {
        let ghost m0 = self.model();
        self.spawn_at(d.spawn_x, d.spawn_y, d.spawn_vx, d.spawn_vy, d.spawn_rot, d.spawn_rot_v);
        assert(self.model() == spawn_stage(m0, *d));
        let ghost m1 = self.model();
        self.count_down();
        assert(self.model() == count_down_stage(m1));
        let ghost m2 = self.model();
        prune(&mut self.bullets);
        prune(&mut self.splinters);
        assert(self.model() == prune_stage(m2));
        let ghost m3 = self.model();
        proof {
            lemma_pruned_len(m2.bullets);
        }
        if c.fire {
            self.fire_with(c.facing, d.bullet_ttl);
        }
        if c.force_spawn {
            self.crate_spawn_time = sat(self.crate_spawn_time as i128 - SPAWN_INTERVAL as i128);
        }
        if c.toggle_bounce {
            self.bounce_edge = !self.bounce_edge;
        }
        self.steer(c);
        assert(self.model() == input_stage(m3, *c, *d));
        let ghost m4 = self.model();
        self.step_all();
        assert(self.bullets@ =~= move_stage(m4).bullets);
        assert(self.crates@ =~= move_stage(m4).crates);
        assert(self.splinters@ =~= move_stage(m4).splinters);
        assert(self.model() == move_stage(m4));
        let ghost m5 = self.model();
        self.shoot_with(&d.shards);
        assert(self.model() == shoot_stage(m5, d.shards@));
        let ghost m6 = self.model();
        self.collide();
        assert(self.model() == collide_stage(m6));
        let ghost m7 = self.model();
        if !self.bounce_edge {
            self.wrap_all();
            assert(self.bullets@ =~= wrap_stage(m7).bullets);
            assert(self.crates@ =~= wrap_stage(m7).crates);
            assert(self.splinters@ =~= wrap_stage(m7).splinters);
        }
        assert(self.model() == wrap_stage(m7));
    }

    /// Brings every body back into the arena, after offsets and pushes that
    /// came after motion.
    pub fn wrap_all(&mut self)
        requires
            old(self).wf(),
        ensures
            final(self).wf(),
            final(self).ship == old(self).ship.wrapped_in(),
            final(self).bullets@.len() == old(self).bullets@.len(),
            forall|i: int| 0 <= i < final(self).bullets@.len() ==> #[trigger] final(self).bullets@[i] == (Bullet { obj: old(self).bullets@[i].obj.wrapped_in(), ..old(self).bullets@[i] }),
            final(self).crates@.len() == old(self).crates@.len(),
            forall|i: int| 0 <= i < final(self).crates@.len() ==> #[trigger] final(self).crates@[i] == old(self).crates@[i].wrapped_in(),
            final(self).splinters@.len() == old(self).splinters@.len(),
            forall|i: int| 0 <= i < final(self).splinters@.len() ==> #[trigger] final(self).splinters@[i] == (Bullet { obj: old(self).splinters@[i].obj.wrapped_in(), ..old(self).splinters@[i] }),
            final(self).crate_spawn_time == old(self).crate_spawn_time,
            final(self).bounce_edge == old(self).bounce_edge,
            final(self).model().in_arena(),
    {
        self.ship.wrap_in();
        wrap_bullets(&mut self.bullets);
        wrap_objs(&mut self.crates);
        wrap_bullets(&mut self.splinters);
    }

    /// One fixed tick with fresh random values: a spawn candidate in the arena
    /// with velocity, rotation and spin in range, a bullet lifetime, and enough
    /// splinter draws for every bullet to hit.
    pub fn tick(&mut self, c: &Controls)
        requires
            old(self).wf(),
            c.wf(),
        ensures
            final(self).wf(),
            exists|d: Draws|
                #![auto]
                d.in_range() && 4 * (old(self).bullets@.len() + 1) <= d.shards@.len()
                    && final(self).model() == ticked(old(self).model(), *c, d),
            !final(self).bounce_edge ==> final(self).model().in_arena(),
    {
        let ghost m0 = self.model();
        let mut shards: Vec<ShardDraw> = Vec::new();
        draw_shards(&mut shards);
        let n = self.bullets.len();
        let mut k: usize = 0;
        while k < n
            invariant
                n == self.bullets@.len(),
                k <= n,
                shards@.len() == 4 * (k + 1),
                forall|j: int| 0 <= j < shards@.len() ==> #[trigger] shards@[j].in_range(),
            decreases n - k,
        {
            draw_shards(&mut shards);
            k = k + 1;
        }
        let d = Draws {
            spawn_x: random_in(0, WIDTH),
            spawn_y: random_in(0, HEIGHT),
            spawn_vx: random_in(-SPAWN_SPEED, SPAWN_SPEED),
            spawn_vy: random_in(-SPAWN_SPEED, SPAWN_SPEED),
            spawn_rot: random_in(0, TURN),
            spawn_rot_v: random_in(-SPIN, SPIN),
            bullet_ttl: random_in(BULLET_TTL_MIN, BULLET_TTL_MAX),
            shards,
        };
        self.tick_with(c, &d);
        assert(d.in_range() && 4 * (m0.bullets.len() + 1) <= d.shards@.len() && self.model()
            == ticked(m0, *c, d));
    }

    /// Resolves every pair of obstacles once, then the ship against each obstacle.
    pub fn collide(&mut self)
        requires
            old(self).wf(),
        ensures
            final(self).wf(),
            final(self).crates@.len() == old(self).crates@.len(),
            (final(self).ship, final(self).crates@) == ship_sweep(
                old(self).ship,
                sweep(old(self).crates@, 0, old(self).crates@.len() as int),
                0,
                old(self).crates@.len() as int,
            ),
            final(self).bullets@ == old(self).bullets@,
            final(self).splinters@ == old(self).splinters@,
            final(self).crate_spawn_time == old(self).crate_spawn_time,
            final(self).bounce_edge == old(self).bounce_edge,
    {
        collide_pairs(&mut self.crates);
        let ghost ship0 = self.ship;
        let ghost c0 = self.crates@;
        let n = self.crates.len();
        let mut i: usize = 0;
        while i < n
            invariant
                self.wf(),
                self.crates@.len() == n,
                i <= n,
                ship_sweep(self.ship, self.crates@, i as int, n as int) == ship_sweep(ship0, c0, 0, n as int),
                self.bullets@ == old(self).bullets@,
                self.splinters@ == old(self).splinters@,
                self.crate_spawn_time == old(self).crate_spawn_time,
                self.bounce_edge == old(self).bounce_edge,
            decreases n - i,
        {
            let mut c = self.crates[i];
            let mut s = self.ship;
            s.resolve(&mut c);
            self.ship = s;
            self.crates.set(i, c);
            i = i + 1;
        }
        assert(ship_sweep(self.ship, self.crates@, n as int, n as int) == (self.ship, self.crates@));
    }
}

proof fn lemma_count_pos(s: Seq<bool>, i: int)
    requires
        0 <= i < s.len(),
        s[i],
    ensures
        count_true(s) >= 1,
    decreases s.len(),
{
    lemma_count_bound(s.drop_last());
    if i < s.len() - 1 {
        lemma_count_pos(s.drop_last(), i);
    }
}


/// Appends the draws for the four splinters of one hit.
fn draw_shards(out: &mut Vec<ShardDraw>)
    requires
        forall|j: int| 0 <= j < old(out)@.len() ==> #[trigger] old(out)@[j].in_range(),
    ensures
        final(out)@.len() == old(out)@.len() + 4,
        forall|j: int| 0 <= j < final(out)@.len() ==> #[trigger] final(out)@[j].in_range(),
{
    let mut q: usize = 0;
    let ghost n0 = out@.len();
    while q < 4
        invariant
            q <= 4,
            out@.len() == n0 + q,
            forall|j: int| 0 <= j < out@.len() ==> #[trigger] out@[j].in_range(),
        decreases 4 - q,
    {
        let ttl = random_in(SPLINTER_TTL_MIN, SPLINTER_TTL_MAX);
        let turn = random_in(0, TURN);
        let spin = random_in(-SPIN, SPIN);
        let ghost before = out@;
        out.push(ShardDraw { ttl, turn, spin });
        assert forall|j: int| 0 <= j < out@.len() implies #[trigger] out@[j].in_range() by {
            if j < before.len() {
                assert(out@[j] == before[j]);
            }
        }
        q = q + 1;
    }
}

/// The random values one tick uses.
pub struct Draws {
    pub spawn_x: i64,
    pub spawn_y: i64,
    pub spawn_vx: i64,
    pub spawn_vy: i64,
    pub spawn_rot: i64,
    pub spawn_rot_v: i64,
    pub bullet_ttl: i64,
    /// Four per bullet hit, in order of the hits.
    pub shards: Vec<ShardDraw>,
}

impl Draws {
    pub open spec fn in_range(&self) -> bool {
        &&& 0 <= self.spawn_x < WIDTH && 0 <= self.spawn_y < HEIGHT
        &&& -SPAWN_SPEED <= self.spawn_vx < SPAWN_SPEED && -SPAWN_SPEED <= self.spawn_vy < SPAWN_SPEED
        &&& 0 <= self.spawn_rot < TURN && -SPIN <= self.spawn_rot_v < SPIN
        &&& BULLET_TTL_MIN <= self.bullet_ttl < BULLET_TTL_MAX
        &&& forall|j: int| 0 <= j < self.shards@.len() ==> #[trigger] self.shards@[j].in_range()
    }
}

/// The simulation state as plain values.
pub struct WorldModel {
    pub ship: Obj,
    pub bullets: Seq<Bullet>,
    pub crates: Seq<Obj>,
    pub splinters: Seq<Bullet>,
    pub crate_spawn_time: int,
    pub bounce_edge: bool,
}

/// The spawner's turn with the drawn candidate (see `World::spawn_at`).
pub open spec fn spawn_stage(m: WorldModel, d: Draws) -> WorldModel {
    let clear = dist_sq(m.ship.pos, Vec2 { x: d.spawn_x, y: d.spawn_y }) >= SPAWN_CLEAR * SPAWN_CLEAR;
    if m.crates.len() < CRATE_LIMIT && m.crate_spawn_time <= 0 && clear {
        WorldModel {
            crates: m.crates.push(
                Obj::with_spec(d.spawn_x, d.spawn_y, d.spawn_vx, d.spawn_vy, d.spawn_rot, d.spawn_rot_v),
            ),
            crate_spawn_time: m.crate_spawn_time + SPAWN_INTERVAL,
            ..m
        }
    } else {
        m
    }
}

/// The countdown's turn (see `World::count_down`).
pub open spec fn count_down_stage(m: WorldModel) -> WorldModel {
    WorldModel {
        crate_spawn_time: if m.crates.len() < CRATE_LIMIT {
            clamp(m.crate_spawn_time - 1)
        } else {
            m.crate_spawn_time
        },
        ..m
    }
}

/// Lifetime pruning of bullets and splinters.
pub open spec fn prune_stage(m: WorldModel) -> WorldModel {
    WorldModel { bullets: pruned(m.bullets), splinters: pruned(m.splinters), ..m }
}

/// Fire, force-spawn and boundary-toggle intents, then steering.
pub open spec fn input_stage(m: WorldModel, c: Controls, d: Draws) -> WorldModel {
    WorldModel {
        ship: World::steered(m.ship, c),
        bullets: if c.fire {
            m.bullets.push(shot(m.ship, c.facing, d.bullet_ttl as int))
        } else {
            m.bullets
        },
        crate_spawn_time: if c.force_spawn {
            clamp(m.crate_spawn_time - SPAWN_INTERVAL)
        } else {
            m.crate_spawn_time
        },
        bounce_edge: m.bounce_edge != c.toggle_bounce,
        ..m
    }
}

/// Every body advanced by one tick under the boundary policy.
pub open spec fn move_stage(m: WorldModel) -> WorldModel {
    let e = m.bounce_edge;
    WorldModel {
        ship: m.ship.stepped(e),
        bullets: Seq::new(m.bullets.len(), |i: int| Bullet { obj: m.bullets[i].obj.stepped(e), ..m.bullets[i] }),
        crates: Seq::new(m.crates.len(), |i: int| m.crates[i].stepped(e)),
        splinters: Seq::new(m.splinters.len(), |i: int| Bullet { obj: m.splinters[i].obj.stepped(e), ..m.splinters[i] }),
        ..m
    }
}

/// Bullet hits (see `World::shoot_with`).
pub open spec fn shoot_stage(m: WorldModel, shards: Seq<ShardDraw>) -> WorldModel {
    let st = scan(m.bullets, m.crates, m.splinters, shards, m.bullets.len() as int);
    WorldModel {
        bullets: kept(m.bullets, st.dead),
        crates: kept(m.crates, st.taken),
        splinters: st.splinters,
        ..m
    }
}

/// Obstacle pairs, then the ship against each obstacle (see `World::collide`).
pub open spec fn collide_stage(m: WorldModel) -> WorldModel {
    let n = m.crates.len() as int;
    let r = ship_sweep(m.ship, sweep(m.crates, 0, n), 0, n);
    WorldModel { ship: r.0, crates: r.1, ..m }
}

/// Under the wrap policy, every body brought back into the arena.
pub open spec fn wrap_stage(m: WorldModel) -> WorldModel {
    if m.bounce_edge {
        m
    } else {
        WorldModel {
            ship: m.ship.wrapped_in(),
            bullets: Seq::new(m.bullets.len(), |i: int| Bullet { obj: m.bullets[i].obj.wrapped_in(), ..m.bullets[i] }),
            crates: Seq::new(m.crates.len(), |i: int| m.crates[i].wrapped_in()),
            splinters: Seq::new(m.splinters.len(), |i: int| Bullet { obj: m.splinters[i].obj.wrapped_in(), ..m.splinters[i] }),
            ..m
        }
    }
}

impl WorldModel {
    /// Every body lies in `[0, WIDTH) × [0, HEIGHT)`.
    pub open spec fn in_arena(self) -> bool {
        &&& self.ship.in_arena()
        &&& forall|i: int| 0 <= i < self.bullets.len() ==> #[trigger] self.bullets[i].obj.in_arena()
        &&& forall|i: int| 0 <= i < self.crates.len() ==> #[trigger] self.crates[i].in_arena()
        &&& forall|i: int| 0 <= i < self.splinters.len() ==> #[trigger] self.splinters[i].obj.in_arena()
    }
}

fn wrap_objs(v: &mut Vec<Obj>)
    requires
        all_wf(old(v)@),
    ensures
        final(v)@.len() == old(v)@.len(),
        forall|i: int| 0 <= i < final(v)@.len() ==> #[trigger] final(v)@[i] == old(v)@[i].wrapped_in(),
        forall|i: int| 0 <= i < final(v)@.len() ==> #[trigger] final(v)@[i].in_arena(),
        all_wf(final(v)@),
{
    let ghost s = v@;
    let mut i: usize = 0;
    while i < v.len()
        invariant
            v@.len() == s.len(),
            i <= s.len(),
            forall|k: int| 0 <= k < i ==> #[trigger] v@[k] == s[k].wrapped_in(),
            forall|k: int| 0 <= k < i ==> #[trigger] v@[k].in_arena(),
            forall|k: int| i <= k < s.len() ==> #[trigger] v@[k] == s[k],
            all_wf(s),
            all_wf(v@),
        decreases s.len() - i,
    {
        let mut o = v[i];
        o.wrap_in();
        v.set(i, o);
        i = i + 1;
    }
}

fn wrap_bullets(v: &mut Vec<Bullet>)
    requires
        all_bullets_wf(old(v)@),
    ensures
        final(v)@.len() == old(v)@.len(),
        forall|i: int| 0 <= i < final(v)@.len() ==> #[trigger] final(v)@[i] == (Bullet { obj: old(v)@[i].obj.wrapped_in(), ..old(v)@[i] }),
        forall|i: int| 0 <= i < final(v)@.len() ==> #[trigger] final(v)@[i].obj.in_arena(),
        all_bullets_wf(final(v)@),
{
    let ghost s = v@;
    let mut i: usize = 0;
    while i < v.len()
        invariant
            v@.len() == s.len(),
            i <= s.len(),
            forall|k: int| 0 <= k < i ==> #[trigger] v@[k] == (Bullet { obj: s[k].obj.wrapped_in(), ..s[k] }),
            forall|k: int| 0 <= k < i ==> #[trigger] v@[k].obj.in_arena(),
            forall|k: int| i <= k < s.len() ==> #[trigger] v@[k] == s[k],
            all_bullets_wf(s),
            all_bullets_wf(v@),
        decreases s.len() - i,
    {
        let mut b = v[i];
        b.obj.wrap_in();
        v.set(i, b);
        i = i + 1;
    }
}

/// The world after one tick with the random values `d`.
pub open spec fn ticked(m: WorldModel, c: Controls, d: Draws) -> WorldModel {
    wrap_stage(collide_stage(
        shoot_stage(
            move_stage(input_stage(prune_stage(count_down_stage(spawn_stage(m, d))), c, d)),
            d.shards@,
        ),
    ))
}

pub proof fn lemma_pruned_len(s: Seq<Bullet>)
    ensures
        pruned(s).len() <= s.len(),
    decreases s.len(),
{
    if s.len() > 0 {
        lemma_pruned_len(s.drop_last());
    }
}

} // verus!
