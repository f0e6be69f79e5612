//! Fixed-point units and the arithmetic primitives of the arena geometry.
//!
//! Lengths are carried in coordinate units: one arena side is `SCALE`
//! units, so a coordinate of `1.0` in real terms is the integer `SCALE`.
//! Angles are carried in angle units: one full circle is `TURN` units, so
//! the half circle `HALF_TURN` stands for the real angle of half a turn.

use vstd::prelude::*;
use vstd::arithmetic::div_mod::lemma_mod_division_less_than_divisor;

verus! {

/// One arena side in coordinate units: a real coordinate of 1.0.
pub const SCALE: u64 = 1_000_000;

/// One full circle in angle units: a real angle of two half-turns.
pub const TURN: i64 = 0x1_0000_0000;

/// Half a circle in angle units.
pub const HALF_TURN: i64 = 0x8000_0000;

/// The largest coordinate the geometry accepts: positions well past the
/// arena still have squares of differences that fit in 64 bits.
pub const MAX_COORD: u64 = 0x8000_0000;

/// A coordinate wrapped into the arena `[0, SCALE)`, as modular
/// wraparound of the mathematical value.
pub open spec fn wrap_coord_spec(p: int) -> int {
    p % (SCALE as int)
}

/// An angle normalized into the half-open half circle `(-HALF_TURN,
/// HALF_TURN]`, congruent to the mathematical value modulo a full turn.
pub open spec fn wrap_angle_spec(a: int) -> int {
    let m = a % (TURN as int);
    if m > HALF_TURN as int {
        m - TURN as int
    } else {
        m
    }
}

/// The wrapped angle lies in `(-HALF_TURN, HALF_TURN]`.
pub proof fn lemma_wrap_angle_range(a: int)
    ensures
        -(HALF_TURN as int) < wrap_angle_spec(a) <= HALF_TURN as int,
{
    lemma_mod_division_less_than_divisor(a, TURN as int);
}

/// Wrapping is invariant under shifts by any whole number of turns.
pub proof fn lemma_wrap_angle_shift(a: int, k: int)
    ensures
        wrap_angle_spec(a + k * (TURN as int)) == wrap_angle_spec(a),
{
    vstd::arithmetic::div_mod::lemma_mod_multiples_vanish(k, a, TURN as int);
}

/// The relative angle of two wrapped angles wraps to the relative angle of
/// the angles themselves.
pub proof fn lemma_wrap_angle_diff(b: int, h: int)
    ensures
        wrap_angle_spec(wrap_angle_spec(b) - wrap_angle_spec(h)) == wrap_angle_spec(b - h),
{
    let t = TURN as int;
    vstd::arithmetic::div_mod::lemma_fundamental_div_mod(b, t);
    vstd::arithmetic::div_mod::lemma_fundamental_div_mod(h, t);
    let kb = if b % t > HALF_TURN as int {
        b / t + 1
    } else {
        b / t
    };
    let kh = if h % t > HALF_TURN as int {
        h / t + 1
    } else {
        h / t
    };
    assert(wrap_angle_spec(b) == b - t * kb);
    assert(wrap_angle_spec(h) == h - t * kh);
    assert(wrap_angle_spec(b) - wrap_angle_spec(h) == (b - h) + (kh - kb) * t) by (nonlinear_arith)
        requires
            wrap_angle_spec(b) == b - t * kb,
            wrap_angle_spec(h) == h - t * kh,
    ;
    lemma_wrap_angle_shift(b - h, kh - kb);
}

/// Wraps a coordinate into the arena `[0, SCALE)`.
pub fn wrap_coord(p: i64) -> (r: u64)
    ensures
        r as int == wrap_coord_spec(p as int),
        r < SCALE,
{
    proof {
        lemma_mod_division_less_than_divisor(p as int, SCALE as int);
    }
    match p.checked_rem_euclid(SCALE as i64) {
        Some(m) => m as u64,
        None => 0,  // unreachable: the divisor is positive
    }
}

/// Normalizes an angle into `(-HALF_TURN, HALF_TURN]`.
pub fn wrap_angle(a: i64) -> (r: i64)
    ensures
        r as int == wrap_angle_spec(a as int),
{
    proof {
        lemma_mod_division_less_than_divisor(a as int, TURN as int);
    }
    match a.checked_rem_euclid(TURN) {
        Some(m) => {
            if m > HALF_TURN {
                m - TURN
            } else {
                m
            }
        },
        None => 0,  // unreachable: the divisor is positive
    }
}

/// The integer square root: the greatest `r` with `r * r <= n`.
pub open spec fn sqrt_floor(n: int) -> int
    decreases n,
{
    if n <= 0 {
        0
    } else {
        let r = sqrt_floor(n - 1);
        if (r + 1) * (r + 1) <= n {
            r + 1
        } else {
            r
        }
    }
}

/// `sqrt_floor(n)` squares to at most `n`, and the next integer squares
/// past `n`.
pub proof fn lemma_sqrt_floor_bounds(n: int)
    requires
        0 <= n,
    ensures
        0 <= sqrt_floor(n),
        sqrt_floor(n) * sqrt_floor(n) <= n,
        n < (sqrt_floor(n) + 1) * (sqrt_floor(n) + 1),
    decreases n,
{
    if n == 0 {
        assert(sqrt_floor(n) == 0);
    } else {
        lemma_sqrt_floor_bounds(n - 1);
        let r = sqrt_floor(n - 1);
        if (r + 1) * (r + 1) <= n {
            assert(sqrt_floor(n) == r + 1);
            assert(n < (r + 2) * (r + 2)) by (nonlinear_arith)
                requires
                    0 <= r,
                    n <= (r + 1) * (r + 1),
            ;
        } else {
            assert(sqrt_floor(n) == r);
        }
    }
}

/// Any `r` whose square brackets `n` is the integer square root of `n`.
pub proof fn lemma_sqrt_floor_is(n: int, r: int)
    requires
        0 <= r,
        r * r <= n,
        n < (r + 1) * (r + 1),
    ensures
        r == sqrt_floor(n),
{
    let s = sqrt_floor(n);
    lemma_sqrt_floor_bounds(n);
    if r < s {
        assert(false) by (nonlinear_arith)
            requires
                0 <= r < s,
                s * s <= n,
                n < (r + 1) * (r + 1),
        ;
    }
    if s < r {
        assert(false) by (nonlinear_arith)
            requires
                0 <= s < r,
                r * r <= n,
                n < (s + 1) * (s + 1),
        ;
    }
}

/// Computes the integer square root by bisection.
pub fn isqrt(n: u64) -> (r: u64)
    ensures
        r == sqrt_floor(n as int),
        r * r <= n,
{
    let nn = n as u128;
    let mut lo: u128 = 0;
    let mut hi: u128 = 0x1_0000_0000;
    proof {
        assert(nn < hi * hi) by (nonlinear_arith)
            requires
                nn < 0x1_0000_0000_0000_0000,
                hi == 0x1_0000_0000,
        ;
    }
    while hi - lo > 1
        invariant
            lo < hi,
            hi <= 0x1_0000_0000,
            lo * lo <= nn,
            nn < hi * hi,
            nn == n,
        decreases hi - lo,
    {
        let mid = lo + (hi - lo) / 2;
        proof {
            assert(mid * mid <= 0x1_0000_0000 * 0x1_0000_0000) by (nonlinear_arith)
                requires
                    mid <= 0x1_0000_0000,
            ;
        }
        if mid * mid <= nn {
            lo = mid;
        } else {
            hi = mid;
        }
    }
    proof {
        lemma_sqrt_floor_is(n as int, lo as int);
        lemma_sqrt_floor_bounds(n as int);
    }
    lo as u64
}

} // verus!
