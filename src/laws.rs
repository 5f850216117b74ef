use vstd::prelude::*;
use vstd::arithmetic::div_mod::{lemma_add_mod_noop, lemma_mod_bound, lemma_small_mod};
use crate::geom::{LIM, clamp, wrapped};
use crate::body::{Obj, Bullet, WIDTH, HEIGHT, BOUNCE_MARGIN};
use crate::world::{
    pruned, kept, scan, sweep, sweep_row, ship_sweep, resolve_at, ticked, spawn_stage,
    count_down_stage, prune_stage, input_stage, move_stage, shoot_stage, Controls, Draws,
    WorldModel, CRATE_LIMIT,
};

verus! {

/// The body after `n` ticks with no collisions.
pub open spec fn stepped_n(o: Obj, n: nat, bounce_edge: bool) -> Obj
    decreases n,
{
    if n == 0 {
        o
    } else {
        stepped_n(o, (n - 1) as nat, bounce_edge).stepped(bounce_edge)
    }
}

/// The projectiles after `n` ticks of pruning.
pub open spec fn pruned_n(s: Seq<Bullet>, n: nat) -> Seq<Bullet>
    decreases n,
{
    if n == 0 {
        s
    } else {
        pruned(pruned_n(s, (n - 1) as nat))
    }
}

/// Under wrapping, a body in the arena is after `n` ticks at its start plus `n`
/// times its velocity, reduced into the arena, and its velocity is unchanged.
pub proof fn lemma_integration_linear(o: Obj, n: nat)
    requires
        o.wf(),
        0 <= o.pos.x < WIDTH,
        0 <= o.pos.y < HEIGHT,
    ensures
        stepped_n(o, n, false).pos.x == wrapped(o.pos.x + n * o.vel.x, WIDTH as int),
        stepped_n(o, n, false).pos.y == wrapped(o.pos.y + n * o.vel.y, HEIGHT as int),
        stepped_n(o, n, false).vel == o.vel,
        stepped_n(o, n, false).rot_v == o.rot_v,
        -LIM <= o.rot + n * o.rot_v <= LIM ==> stepped_n(o, n, false).rot == o.rot + n * o.rot_v,
    decreases n,
{
    if n == 0 {
        assert(wrapped(o.pos.x as int, WIDTH as int) == o.pos.x);
        assert(wrapped(o.pos.y as int, HEIGHT as int) == o.pos.y);
    } else {
        let m = (n - 1) as nat;
        lemma_integration_linear(o, m);
        let p = stepped_n(o, m, false);
        lemma_add_mod_noop(o.pos.x + m * o.vel.x, o.vel.x as int, WIDTH as int);
        lemma_add_mod_noop(o.pos.y + m * o.vel.y, o.vel.y as int, HEIGHT as int);
        lemma_wrap_idempotent(o.vel.x as int, WIDTH as int);
        lemma_wrap_idempotent(o.vel.y as int, HEIGHT as int);
        lemma_wrap_idempotent(o.pos.x + m * o.vel.x, WIDTH as int);
        lemma_wrap_idempotent(o.pos.y + m * o.vel.y, HEIGHT as int);
        lemma_add_mod_noop(p.pos.x as int, o.vel.x as int, WIDTH as int);
        lemma_add_mod_noop(p.pos.y as int, o.vel.y as int, HEIGHT as int);
        assert(o.pos.x + m * o.vel.x + o.vel.x == o.pos.x + n * o.vel.x) by (nonlinear_arith)
            requires
                n == m + 1,
        ;
        assert(o.pos.y + m * o.vel.y + o.vel.y == o.pos.y + n * o.vel.y) by (nonlinear_arith)
            requires
                n == m + 1,
        ;
        assert(o.rot + m * o.rot_v + o.rot_v == o.rot + n * o.rot_v) by (nonlinear_arith)
            requires
                n == m + 1,
        ;
        if -LIM <= o.rot + n * o.rot_v <= LIM {
            assert(-LIM <= o.rot + m * o.rot_v <= LIM) by (nonlinear_arith)
                requires
                    -LIM <= o.rot <= LIM,
                    -LIM <= o.rot + n * o.rot_v <= LIM,
                    n == m + 1,
                    m >= 0,
            ;
        }
    }
}

/// Wrapping puts a coordinate in `[0, m)`, and wrapping again changes nothing.
pub proof fn lemma_wrap_idempotent(x: int, m: int)
    requires
        m > 0,
    ensures
        0 <= wrapped(x, m) < m,
        wrapped(wrapped(x, m), m) == wrapped(x, m),
{
    lemma_mod_bound(x, m);
    lemma_small_mod((x % m) as nat, m as nat);
}

/// After a tick under wrapping, a body lies in the arena, and wrapping its
/// position again leaves it where it is.
pub proof fn lemma_wrap_in_arena(o: Obj)
    requires
        o.wf(),
    ensures
        0 <= o.stepped(false).pos.x < WIDTH,
        0 <= o.stepped(false).pos.y < HEIGHT,
        wrapped(o.stepped(false).pos.x as int, WIDTH as int) == o.stepped(false).pos.x,
        wrapped(o.stepped(false).pos.y as int, HEIGHT as int) == o.stepped(false).pos.y,
{
    lemma_wrap_idempotent(o.pos.x + o.vel.x, WIDTH as int);
    lemma_wrap_idempotent(o.pos.y + o.vel.y, HEIGHT as int);
}

/// After a tick under bouncing, a body within the margin of an edge does not
/// move further out across that edge.
pub proof fn lemma_bounce_inward(o: Obj)
    requires
        o.wf(),
    ensures
        o.stepped(true).pos.x < BOUNCE_MARGIN ==> o.stepped(true).vel.x >= 0,
        o.stepped(true).pos.x >= WIDTH - BOUNCE_MARGIN ==> o.stepped(true).vel.x <= 0,
        o.stepped(true).pos.y < BOUNCE_MARGIN ==> o.stepped(true).vel.y >= 0,
        o.stepped(true).pos.y >= HEIGHT - BOUNCE_MARGIN ==> o.stepped(true).vel.y <= 0,
        -LIM <= o.pos.x + o.vel.x <= LIM ==> o.stepped(true).pos.x == o.pos.x + o.vel.x,
        -LIM <= o.pos.y + o.vel.y <= LIM ==> o.stepped(true).pos.y == o.pos.y + o.vel.y,
        o.stepped(true).vel.x == o.vel.x || o.stepped(true).vel.x == -o.vel.x,
        o.stepped(true).vel.y == o.vel.y || o.stepped(true).vel.y == -o.vel.y,
        BOUNCE_MARGIN <= o.stepped(true).pos.x < WIDTH - BOUNCE_MARGIN ==> o.stepped(true).vel.x == o.vel.x,
        BOUNCE_MARGIN <= o.stepped(true).pos.y < HEIGHT - BOUNCE_MARGIN ==> o.stepped(true).vel.y == o.vel.y,
{
}

/// A projectile with a lifetime of `b.ttl >= 1` ticks is present for the first
/// `b.ttl - 1` prunings after it was made, and gone from the `b.ttl`-th on.
pub proof fn lemma_ttl_expiry(b: Bullet, n: nat)
    requires
        b.ttl >= 1,
    ensures
        pruned_n(seq![b], n).len() == if n < b.ttl { 1int } else { 0 },
        n < b.ttl ==> pruned_n(seq![b], n) == seq![Bullet { ttl: (b.ttl - n) as i64, ..b }],
    decreases n,
{
    if n > 0 {
        let m = (n - 1) as nat;
        lemma_ttl_expiry(b, m);
        let prev = pruned_n(seq![b], m);
        if m < b.ttl {
            let c = Bullet { ttl: (b.ttl - m) as i64, ..b };
            assert(prev.drop_last() =~= Seq::<Bullet>::empty());
            assert(pruned(Seq::<Bullet>::empty()) == Seq::<Bullet>::empty());
            if c.ttl > 1 {
                assert(pruned(prev) == Seq::<Bullet>::empty().push(Bullet { ttl: (c.ttl - 1) as i64, ..c }));
                assert(Seq::<Bullet>::empty().push(Bullet { ttl: (c.ttl - 1) as i64, ..c }) =~= seq![Bullet { ttl: (b.ttl - n) as i64, ..b }]);
            }
        } else {
            assert(prev.len() == 0);
            assert(pruned(prev) == Seq::<Bullet>::empty());
        }
    }
}

/// Unless a velocity saturates, a collision moves velocity from one body to the
/// other: the sum of the two velocities is unchanged.
pub proof fn lemma_momentum_kept(a: Obj, b: Obj)
    requires
        a.wf(),
        b.wf(),
        clamp(a.vel.x - a.impulse(b).0) == a.vel.x - a.impulse(b).0,
        clamp(a.vel.y - a.impulse(b).1) == a.vel.y - a.impulse(b).1,
        clamp(b.vel.x + a.impulse(b).0) == b.vel.x + a.impulse(b).0,
        clamp(b.vel.y + a.impulse(b).1) == b.vel.y + a.impulse(b).1,
    ensures
        a.resolved(b).0.vel.x + a.resolved(b).1.vel.x == a.vel.x + b.vel.x,
        a.resolved(b).0.vel.y + a.resolved(b).1.vel.y == a.vel.y + b.vel.y,
        a.touching(b) ==> a.resolved(b).1.vel.x - b.vel.x == a.impulse(b).0,
        a.touching(b) ==> a.resolved(b).1.vel.y - b.vel.y == a.impulse(b).1,
{
}

/// A tick never takes the obstacle count past `CRATE_LIMIT`, whatever the
/// controls and the random values.
pub proof fn lemma_spawn_cap(m: WorldModel, c: Controls, d: Draws)
    requires
        m.crates.len() <= CRATE_LIMIT,
    ensures
        ticked(m, c, d).crates.len() <= CRATE_LIMIT,
{
    let m4 = move_stage(input_stage(prune_stage(count_down_stage(spawn_stage(m, d))), c, d));
    assert(m4.crates.len() <= CRATE_LIMIT);
    let st = scan(m4.bullets, m4.crates, m4.splinters, d.shards@, m4.bullets.len() as int);
    lemma_kept_len(m4.crates, st.taken);
    let m5 = shoot_stage(m4, d.shards@);
    let n = m5.crates.len() as int;
    lemma_sweep_len(m5.crates, 0, n);
    lemma_ship_sweep_len(m5.ship, sweep(m5.crates, 0, n), 0, n);
}

proof fn lemma_kept_len<T>(s: Seq<T>, flags: Seq<bool>)
    ensures
        kept(s, flags).len() <= s.len(),
    decreases s.len(),
{
    if s.len() > 0 {
        lemma_kept_len(s.drop_last(), flags.take(s.len() - 1));
    }
}

proof fn lemma_sweep_row_len(s: Seq<Obj>, i: int, j: int, n: int)
    requires
        n == s.len(),
        0 <= i < j,
    ensures
        sweep_row(s, i, j, n).len() == s.len(),
    decreases n - j,
{
    if j < n {
        lemma_sweep_row_len(resolve_at(s, i, j), i, j + 1, n);
    }
}

proof fn lemma_sweep_len(s: Seq<Obj>, start: int, n: int)
    requires
        n == s.len(),
        0 <= start,
    ensures
        sweep(s, start, n).len() == s.len(),
    decreases n - start,
{
    if start < n {
        lemma_sweep_row_len(s, start, start + 1, n);
        lemma_sweep_len(sweep_row(s, start, start + 1, n), start + 1, n);
    }
}

proof fn lemma_ship_sweep_len(ship: Obj, s: Seq<Obj>, j: int, n: int)
    requires
        n == s.len(),
        0 <= j,
    ensures
        ship_sweep(ship, s, j, n).1.len() == s.len(),
    decreases n - j,
{
    if j < n {
        let (a, b) = ship.resolved(s[j]);
        lemma_ship_sweep_len(a, s.update(j, b), j + 1, n);
    }
}

} // verus!
