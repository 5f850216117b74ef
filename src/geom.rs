use vstd::prelude::*;
use vstd::arithmetic::div_mod::{
    lemma_fundamental_div_mod, lemma_fundamental_div_mod_converse, lemma_mod_pos_bound,
};

verus! {

/// Sub-pixel units to a pixel.
pub const PX: i64 = 24000;

/// Largest magnitude any coordinate, velocity or angle may take; updates saturate here.
pub const LIM: i64 = 1_000_000_000_000_000;

/// A vector of sub-pixel units (or units per tick).
#[derive(Clone, Copy, Debug, PartialEq, Eq, Structural)]
pub struct Vec2 {
    pub x: i64,
    pub y: i64,
}

impl Vec2 {
    pub open spec fn bounded(self) -> bool {
        -LIM <= self.x <= LIM && -LIM <= self.y <= LIM
    }

    pub fn new(x: i64, y: i64) -> (r: Vec2)
        ensures
            r.x == x && r.y == y,
    {
        Vec2 { x, y }
    }
}

/// `x` saturated into `[-LIM, LIM]`.
pub open spec fn clamp(x: int) -> int {
    if x < -LIM {
        -LIM as int
    } else if x > LIM {
        LIM as int
    } else {
        x
    }
}

/// Division rounding toward zero, for a positive divisor.
pub open spec fn tdiv(n: int, d: int) -> int {
    if n >= 0 {
        n / d
    } else {
        -((-n) / d)
    }
}

/// The non-negative remainder of `x` by a positive `m`.
pub open spec fn wrapped(x: int, m: int) -> int {
    x % m
}

/// Floor of the square root.
pub open spec fn is_isqrt(n: int, r: int) -> bool {
    r >= 0 && r * r <= n < (r + 1) * (r + 1)
}

pub fn sat(x: i128) -> (r: i64)
    ensures
        r == clamp(x as int),
{
    if x < -(LIM as i128) {
        -LIM
    } else if x > LIM as i128 {
        LIM
    } else {
        x as i64
    }
}

pub fn trunc_div(n: i128, d: i128) -> (q: i128)
    requires
        d > 0,
        n > i128::MIN,
    ensures
        q == tdiv(n as int, d as int),
{
    if n >= 0 {
        n / d
    } else {
        let m: i128 = -n;
        let q: i128 = m / d;
        assert(0 <= q <= m) by (nonlinear_arith)
            requires
                m >= 0,
                d > 0,
                q == m / d,
        ;
        -q
    }
}

/// The coordinate `x` brought into `[0, m)` by adding a whole number of `m`.
pub fn wrap_coord(x: i64, m: i64) -> (r: i64)
    requires
        m > 0,
    ensures
        r == wrapped(x as int, m as int),
        0 <= r < m,
{
    if x >= 0 {
        x % m
    } else {
        let y: i128 = -(x as i128);
        let mm: i128 = m as i128;
        let rem: i128 = y % mm;
        proof {
            lemma_fundamental_div_mod(y as int, mm as int);
            lemma_mod_pos_bound(y as int, mm as int);
            let q = y / mm;
            if rem == 0 {
                assert(x == (-q) * mm) by (nonlinear_arith)
                    requires
                        y == mm * q + rem,
                        rem == 0,
                        x == -y,
                ;
                lemma_fundamental_div_mod_converse(x as int, mm as int, -q, 0);
            } else {
                assert(x == (-q - 1) * mm + (mm - rem)) by (nonlinear_arith)
                    requires
                        y == mm * q + rem,
                        x == -y,
                ;
                lemma_fundamental_div_mod_converse(x as int, mm as int, -q - 1, mm - rem);
            }
        }
        if rem == 0 {
            0
        } else {
            (mm - rem) as i64
        }
    }
}

/// Floor of the square root of `n`.
pub fn isqrt(n: u128) -> (r: u128)
    requires
        n < 0x1000_0000_0000_0000_0000_0000_0000_0000,
    ensures
        is_isqrt(n as int, r as int),
{
    let mut lo: u128 = 0;
    let mut hi: u128 = 0x4000_0000_0000_0000;
    assert(hi * hi == 0x1000_0000_0000_0000_0000_0000_0000_0000u128) by (nonlinear_arith)
        requires
            hi == 0x4000_0000_0000_0000u128,
    ;
    while lo + 1 < hi
        invariant
            lo < hi <= 0x4000_0000_0000_0000,
            lo * lo <= n < hi * hi,
        decreases hi - lo,
    {
        let mid: u128 = lo + (hi - lo) / 2;
        assert(mid * mid <= 0x1000_0000_0000_0000_0000_0000_0000_0000u128) by (nonlinear_arith)
            requires
                mid <= 0x4000_0000_0000_0000u128,
        ;
        if mid * mid <= n {
            lo = mid;
        } else {
            hi = mid;
        }
    }
    lo
}

} // verus!
