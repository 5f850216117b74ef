use vstd::prelude::*;
use crate::geom::{Vec2, LIM, clamp, tdiv, wrapped, is_isqrt, sat, trunc_div, wrap_coord, isqrt};
use crate::chance::random_in;

verus! {

/// Arena width in sub-pixel units (1200 px).
pub const WIDTH: i64 = 28_800_000;
/// Arena height in sub-pixel units (900 px).
pub const HEIGHT: i64 = 21_600_000;
/// A full turn in angle units (2π × 6000).
pub const TURN: i64 = 37699;
/// Bound on the random spin of spawned bodies and splinters, per tick (3 rad/s).
pub const SPIN: i64 = 300;
/// Distance from an edge inside which bouncing turns a body back (16 px).
pub const BOUNCE_MARGIN: i64 = 384_000;
/// Centre distance below which two bodies collide (32 px).
pub const COLLIDE_DIST: i64 = 768_000;

/// A kinematic body: position, velocity per tick, rotation and spin per tick.
#[derive(Clone, Copy, Debug, PartialEq, Eq, Structural)]
pub struct Obj {
    pub pos: Vec2,
    pub vel: Vec2,
    pub rot: i64,
    pub rot_v: i64,
}

/// A body with a remaining lifetime in ticks.
#[derive(Clone, Copy, Debug, PartialEq, Eq, Structural)]
pub struct Bullet {
    pub obj: Obj,
    pub ttl: i64,
}

impl Bullet {
    /// Opacity in thousandths: twice the remaining lifetime in seconds, capped at
    /// five seconds and clamped to `[0, 1]`.
    pub open spec fn opacity_spec(self) -> int {
        let t: int = if self.ttl > 300 { 300int } else if self.ttl < 0 { 0int } else { self.ttl as int };
        if t * 1000 / 30 > 1000 { 1000int } else { t * 1000 / 30 }
    }

    pub fn opacity(&self) -> (a: i64)
        ensures
            a == self.opacity_spec(),
            0 <= a <= 1000,
    {
        let t: i64 = if self.ttl > 300 { 300 } else if self.ttl < 0 { 0 } else { self.ttl };
        let a: i64 = t * 1000 / 30;
        if a > 1000 {
            1000
        } else {
            a
        }
    }
}

/// Boundary policy selected at run time.
pub open spec fn wraps(bounce_edge: bool) -> bool {
    !bounce_edge
}

impl Obj {
    pub open spec fn wf(self) -> bool {
        self.pos.bounded() && self.vel.bounded() && -LIM <= self.rot <= LIM && -LIM <= self.rot_v
            <= LIM
    }

    pub open spec fn new_spec(x: i64, y: i64) -> Obj {
        Obj { pos: Vec2 { x, y }, vel: Vec2 { x: 0, y: 0 }, rot: 0, rot_v: 0 }
    }

    pub open spec fn with_spec(x: i64, y: i64, vx: i64, vy: i64, rot: i64, rot_v: i64) -> Obj {
        Obj { pos: Vec2 { x, y }, vel: Vec2 { x: vx, y: vy }, rot, rot_v }
    }

    pub fn new(x: i64, y: i64) -> (r: Obj)
        ensures
            r == Obj::new_spec(x, y),
    {
        Obj { pos: Vec2 { x, y }, vel: Vec2 { x: 0, y: 0 }, rot: 0, rot_v: 0 }
    }

    pub fn from(pos: Vec2, vel: Vec2, rot: i64) -> (r: Obj)
        ensures
            r == (Obj { pos, vel, rot, rot_v: 0 }),
    {
        Obj { pos, vel, rot, rot_v: 0 }
    }

    pub fn with(x: i64, y: i64, vx: i64, vy: i64, rot: i64, rot_v: i64) -> (r: Obj)
        ensures
            r == Obj::with_spec(x, y, vx, vy, rot, rot_v),
    {
        Obj { pos: Vec2 { x, y }, vel: Vec2 { x: vx, y: vy }, rot, rot_v }
    }

    pub fn bullet(self, ttl: i64) -> (r: Bullet)
        ensures
            r == (Bullet { obj: self, ttl }),
    {
        Bullet { obj: self, ttl }
    }

    /// The body displaced by `(dx, dy)`, sped up by `(dvx, dvy)`, turned by `drot`
    /// and spun by `drot_v`, each saturating.
    pub open spec fn pushed_spec(self, dx: int, dy: int, dvx: int, dvy: int, drot: int, drot_v: int) -> Obj {
        Obj {
            pos: Vec2 { x: clamp(self.pos.x + dx) as i64, y: clamp(self.pos.y + dy) as i64 },
            vel: Vec2 { x: clamp(self.vel.x + dvx) as i64, y: clamp(self.vel.y + dvy) as i64 },
            rot: clamp(self.rot + drot) as i64,
            rot_v: clamp(self.rot_v + drot_v) as i64,
        }
    }

    pub fn pushed_by(self, dx: i64, dy: i64, dvx: i64, dvy: i64, drot: i64, drot_v: i64) -> (r: Obj)
        ensures
            r == self.pushed_spec(dx as int, dy as int, dvx as int, dvy as int, drot as int, drot_v as int),
            r.wf(),
    {
        Obj {
            pos: Vec2 {
                x: sat(self.pos.x as i128 + dx as i128),
                y: sat(self.pos.y as i128 + dy as i128),
            },
            vel: Vec2 {
                x: sat(self.vel.x as i128 + dvx as i128),
                y: sat(self.vel.y as i128 + dvy as i128),
            },
            rot: sat(self.rot as i128 + drot as i128),
            rot_v: sat(self.rot_v as i128 + drot_v as i128),
        }
    }

    /// `pushed_by` with a turn drawn from `[0, TURN)` and a spin from `[-SPIN, SPIN)`.
    pub fn pushed(self, dx: i64, dy: i64, dvx: i64, dvy: i64) -> (r: Obj)
        ensures
            r.wf(),
            exists|drot: int, drot_v: int|
                0 <= drot < TURN && -SPIN <= drot_v < SPIN && r == self.pushed_spec(
                    dx as int,
                    dy as int,
                    dvx as int,
                    dvy as int,
                    drot,
                    drot_v,
                ),
    {
        let drot = random_in(0, TURN);
        let drot_v = random_in(-SPIN, SPIN);
        self.pushed_by(dx, dy, dvx, dvy, drot, drot_v)
    }

    /// Lies in `[0, WIDTH) × [0, HEIGHT)`.
    pub open spec fn in_arena(self) -> bool {
        0 <= self.pos.x < WIDTH && 0 <= self.pos.y < HEIGHT
    }

    /// The body with its position reduced into the arena.
    pub open spec fn wrapped_in(self) -> Obj {
        Obj {
            pos: Vec2 {
                x: wrapped(self.pos.x as int, WIDTH as int) as i64,
                y: wrapped(self.pos.y as int, HEIGHT as int) as i64,
            },
            ..self
        }
    }

    /// Reduces the position into the arena.
    pub fn wrap_in(&mut self)
        requires
            old(self).wf(),
        ensures
            *final(self) == old(self).wrapped_in(),
            final(self).wf(),
            final(self).in_arena(),
    {
        self.pos = Vec2 { x: wrap_coord(self.pos.x, WIDTH), y: wrap_coord(self.pos.y, HEIGHT) };
    }

    /// One coordinate after one tick of motion: wrapped into the arena, or saturated.
    pub open spec fn moved_coord(p: int, v: int, extent: int, wrap: bool) -> int {
        if wrap {
            wrapped(p + v, extent)
        } else {
            clamp(p + v)
        }
    }

    /// The velocity component after bouncing at a coordinate `p` of an axis of length `extent`.
    pub open spec fn bounced_vel(p: int, v: int, extent: int) -> int {
        if p < BOUNCE_MARGIN {
            if v < 0 { -v } else { v }
        } else if p >= extent - BOUNCE_MARGIN {
            if v > 0 { -v } else { v }
        } else {
            v
        }
    }

    /// The body after one tick: integration, then the boundary policy.
    pub open spec fn stepped(self, bounce_edge: bool) -> Obj {
        let wrap = wraps(bounce_edge);
        let px = Self::moved_coord(self.pos.x as int, self.vel.x as int, WIDTH as int, wrap);
        let py = Self::moved_coord(self.pos.y as int, self.vel.y as int, HEIGHT as int, wrap);
        Obj {
            pos: Vec2 { x: px as i64, y: py as i64 },
            vel: if wrap {
                self.vel
            } else {
                Vec2 {
                    x: Self::bounced_vel(px, self.vel.x as int, WIDTH as int) as i64,
                    y: Self::bounced_vel(py, self.vel.y as int, HEIGHT as int) as i64,
                }
            },
            rot: clamp(self.rot + self.rot_v) as i64,
            rot_v: self.rot_v,
        }
    }

    fn move_coord(p: i64, v: i64, extent: i64, wrap: bool) -> (r: i64)
        requires
            -LIM <= p <= LIM,
            -LIM <= v <= LIM,
            extent == WIDTH || extent == HEIGHT,
        ensures
            r == Self::moved_coord(p as int, v as int, extent as int, wrap),
            -LIM <= r <= LIM,
    {
        if wrap {
            wrap_coord(p + v, extent)
        } else {
            sat(p as i128 + v as i128)
        }
    }

    fn bounce_vel(p: i64, v: i64, extent: i64) -> (r: i64)
        requires
            -LIM <= v <= LIM,
            extent == WIDTH || extent == HEIGHT,
        ensures
            r == Self::bounced_vel(p as int, v as int, extent as int),
    {
        if p < BOUNCE_MARGIN {
            if v < 0 { -v } else { v }
        } else if p >= extent - BOUNCE_MARGIN {
            if v > 0 { -v } else { v }
        } else {
            v
        }
    }

    /// Advances the body by one tick and applies the boundary policy.
    pub fn step(&mut self, bounce_edge: bool)
        requires
            old(self).wf(),
        ensures
            *final(self) == old(self).stepped(bounce_edge),
            final(self).wf(),
    {
        let wrap = !bounce_edge;
        let px = Self::move_coord(self.pos.x, self.vel.x, WIDTH, wrap);
        let py = Self::move_coord(self.pos.y, self.vel.y, HEIGHT, wrap);
        self.pos = Vec2 { x: px, y: py };
        if !wrap {
            let vx = Self::bounce_vel(px, self.vel.x, WIDTH);
            let vy = Self::bounce_vel(py, self.vel.y, HEIGHT);
            self.vel = Vec2 { x: vx, y: vy };
        }
        self.rot = sat(self.rot as i128 + self.rot_v as i128);
    }

    /// The offset from `other` to `self`, and its squared length.
    pub open spec fn sep(self, other: Obj) -> (int, int, int) {
        let dx = self.pos.x - other.pos.x;
        let dy = self.pos.y - other.pos.y;
        (dx, dy, dx * dx + dy * dy)
    }

    /// Whether `self` and `other` overlap and can be told apart.
    pub open spec fn touching(self, other: Obj) -> bool {
        let (dx, dy, dsq) = self.sep(other);
        0 < dsq < COLLIDE_DIST * COLLIDE_DIST
    }

    /// Velocity handed from `self` to `other`: the relative velocity projected onto
    /// the separation.
    pub open spec fn impulse(self, other: Obj) -> (int, int) {
        let (dx, dy, dsq) = self.sep(other);
        let rvd = (self.vel.x - other.vel.x) * dx + (self.vel.y - other.vel.y) * dy;
        (tdiv(rvd * dx, dsq), tdiv(rvd * dy, dsq))
    }

    /// Displacement that moves `self` and `other` apart to the collision distance.
    pub open spec fn push_apart(self, other: Obj) -> (int, int) {
        let (dx, dy, dsq) = self.sep(other);
        let dist = root(dsq);
        (tdiv((COLLIDE_DIST - dist) * dx, 2 * dist), tdiv((COLLIDE_DIST - dist) * dy, 2 * dist))
    }

    /// The pair after an elastic collision between equal masses and de-penetration.
    pub open spec fn resolved(self, other: Obj) -> (Obj, Obj) {
        if self.touching(other) {
            let (ix, iy) = self.impulse(other);
            let (px, py) = self.push_apart(other);
            (
                Obj {
                    pos: Vec2 { x: clamp(self.pos.x + px) as i64, y: clamp(self.pos.y + py) as i64 },
                    vel: Vec2 { x: clamp(self.vel.x - ix) as i64, y: clamp(self.vel.y - iy) as i64 },
                    ..self
                },
                Obj {
                    pos: Vec2 {
                        x: clamp(other.pos.x - px) as i64,
                        y: clamp(other.pos.y - py) as i64,
                    },
                    vel: Vec2 {
                        x: clamp(other.vel.x + ix) as i64,
                        y: clamp(other.vel.y + iy) as i64,
                    },
                    ..other
                },
            )
        } else {
            (self, other)
        }
    }

    /// Resolves a collision between `self` and `other`, if they overlap.
    pub fn resolve(&mut self, other: &mut Obj)
        requires
            old(self).wf(),
            old(other).wf(),
        ensures
            (*final(self), *final(other)) == old(self).resolved(*old(other)),
            final(self).wf(),
            final(other).wf(),
    {
        let ghost a0 = *self;
        let ghost b0 = *other;
        let dx: i128 = self.pos.x as i128 - other.pos.x as i128;
        let dy: i128 = self.pos.y as i128 - other.pos.y as i128;
        proof {
            lemma_square_bound(dx as int);
            lemma_square_bound(dy as int);
        }
        let dsq: i128 = dx * dx + dy * dy;
        let r: i128 = COLLIDE_DIST as i128;
        if 0 < dsq && dsq < r * r {
            proof {
                lemma_close(dx as int, dy as int, r as int);
                lemma_close(dy as int, dx as int, r as int);
            }
            let rvx: i128 = self.vel.x as i128 - other.vel.x as i128;
            let rvy: i128 = self.vel.y as i128 - other.vel.y as i128;
            proof {
                lemma_product_bound(rvx as int, dx as int, 2 * LIM, r as int);
                lemma_product_bound(rvy as int, dy as int, 2 * LIM, r as int);
            }
            let rvd: i128 = rvx * dx + rvy * dy;
            proof {
                lemma_product_bound(rvd as int, dx as int, 4 * LIM * r, r as int);
                lemma_product_bound(rvd as int, dy as int, 4 * LIM * r, r as int);
            }
            let ix: i128 = trunc_div(rvd * dx, dsq);
            let iy: i128 = trunc_div(rvd * dy, dsq);
            proof {
                lemma_tdiv_bound(rvd * dx, dsq as int, 4 * LIM * r * r);
                lemma_tdiv_bound(rvd * dy, dsq as int, 4 * LIM * r * r);
            }
            let root_u: u128 = isqrt(dsq as u128);
            proof {
                lemma_root_below(dsq as int, root_u as int, r as int);
            }
            let dist: i128 = root_u as i128;
            proof {
                lemma_root_unique(dsq as int, dist as int);
                lemma_product_bound(r - dist, dx as int, r as int, r as int);
                lemma_product_bound(r - dist, dy as int, r as int, r as int);
            }
            let px: i128 = trunc_div((r - dist) * dx, 2 * dist);
            let py: i128 = trunc_div((r - dist) * dy, 2 * dist);
            proof {
                lemma_tdiv_bound((r - dist) * dx, 2 * dist, r * r);
                lemma_tdiv_bound((r - dist) * dy, 2 * dist, r * r);
            }
            self.vel = Vec2 {
                x: sat(self.vel.x as i128 - ix),
                y: sat(self.vel.y as i128 - iy),
            };
            other.vel = Vec2 {
                x: sat(other.vel.x as i128 + ix),
                y: sat(other.vel.y as i128 + iy),
            };
            self.pos = Vec2 {
                x: sat(self.pos.x as i128 + px),
                y: sat(self.pos.y as i128 + py),
            };
            other.pos = Vec2 {
                x: sat(other.pos.x as i128 - px),
                y: sat(other.pos.y as i128 - py),
            };
        }
    }
}

/// The floor of the square root of a non-negative `n`.
pub open spec fn root(n: int) -> int {
    choose|r: int| is_isqrt(n, r)
}

pub proof fn lemma_square_bound(d: int)
    requires
        -4 * LIM <= d <= 4 * LIM,
    ensures
        0 <= d * d <= 16 * LIM * LIM,
{
    assert(0 <= d * d <= 16 * LIM * LIM) by (nonlinear_arith)
        requires
            -4 * LIM <= d <= 4 * LIM,
    ;
}

proof fn lemma_close(a: int, b: int, r: int)
    requires
        a * a + b * b < r * r,
        r > 0,
    ensures
        -r < a < r,
{
    assert(b * b >= 0) by (nonlinear_arith);
    assert(-r < a < r) by (nonlinear_arith)
        requires
            a * a < r * r,
            r > 0,
    ;
}

proof fn lemma_product_bound(a: int, b: int, ma: int, mb: int)
    requires
        -ma <= a <= ma,
        -mb <= b <= mb,
    ensures
        -(ma * mb) <= a * b <= ma * mb,
{
    assert(-(ma * mb) <= a * b <= ma * mb) by (nonlinear_arith)
        requires
            -ma <= a <= ma,
            -mb <= b <= mb,
    ;
}

pub proof fn lemma_tdiv_bound(n: int, d: int, m: int)
    requires
        -m <= n <= m,
        d > 0,
    ensures
        -m <= tdiv(n, d) <= m,
{
    if n >= 0 {
        assert(0 <= n / d <= n) by (nonlinear_arith)
            requires
                n >= 0,
                d > 0,
        ;
    } else {
        assert(0 <= (-n) / d <= -n) by (nonlinear_arith)
            requires
                -n >= 0,
                d > 0,
        ;
    }
}

pub proof fn lemma_root_unique(n: int, r: int)
    requires
        is_isqrt(n, r),
    ensures
        root(n) == r,
{
    let s = root(n);
    assert(is_isqrt(n, s));
    if s < r {
        assert(false) by (nonlinear_arith)
            requires
                is_isqrt(n, r),
                is_isqrt(n, s),
                s < r,
        {
            assert((s + 1) * (s + 1) <= r * r) by (nonlinear_arith)
                requires
                    0 <= s + 1 <= r,
            ;
        }
    } else if s > r {
        assert(false) by (nonlinear_arith)
            requires
                is_isqrt(n, r),
                is_isqrt(n, s),
                r < s,
        {
            assert((r + 1) * (r + 1) <= s * s) by (nonlinear_arith)
                requires
                    0 <= r + 1 <= s,
            ;
        }
    }
}

proof fn lemma_root_below(n: int, d: int, r: int)
    requires
        is_isqrt(n, d),
        0 < n < r * r,
        r > 0,
    ensures
        1 <= d < r,
{
    assert(1 <= d < r) by (nonlinear_arith)
        requires
            d >= 0,
            d * d <= n,
            n < (d + 1) * (d + 1),
            0 < n < r * r,
            r > 0,
    ;
}

} // verus!
