//! The injectable source of randomness.
//!
//! All entropy the simulation consumes — initial placement, initial
//! direction, and food respawn — is drawn from a seedable `rand::rngs::StdRng`
//! through the one trusted draw below, so a run is reproducible from its
//! seed.

use vstd::prelude::*;
use crate::units::{isqrt, SCALE};

verus! {

#[verifier::external_type_specification]
#[verifier::external_body]
pub struct ExStdRng(rand::rngs::StdRng);

/// Relies on rand's `Rng::gen_range`: it returns a uniform value of the
/// given range, here `0..n`, which is nonempty since `n > 0`.
#[verifier::external_body]
fn rand_below(rng: &mut rand::rngs::StdRng, n: u64) -> (r: u64)
    requires
        n > 0,
    ensures
        r < n,
{
    rand::Rng::gen_range(rng, 0..n)
}

/// Draws one coordinate inside the arena.
pub fn random_coord(rng: &mut rand::rngs::StdRng) -> (r: u64)
    ensures
        r < SCALE,
{
    rand_below(rng, SCALE)
}

/// The shortest draw the direction sampler accepts, a quarter unit:
/// shorter draws would magnify the scaling's rounding.
pub const MIN_DIR_DRAW: u64 = 250_000;

/// Scaling a point of the accepted annulus out to the unit circle lands
/// within four units of it: the quotient loses less than one unit per
/// component, and the integer square root understates the length by
/// less than one part in `MIN_DIR_DRAW`.
proof fn lemma_scaled_direction_magnitude(ax: int, ay: int, s: int, r: int, mx: int, my: int)
    requires
        0 <= ax,
        0 <= ay,
        s == ax * ax + ay * ay,
        62_500_000_000 <= s,
        s <= 1_000_000_000_000,
        0 < r,
        r * r <= s,
        s < (r + 1) * (r + 1),
        mx == ax * 1_000_000 / r,
        my == ay * 1_000_000 / r,
    ensures
        0 <= mx <= 1_000_000,
        0 <= my <= 1_000_000,
        999_996 * 999_996 <= mx * mx + my * my,
        mx * mx + my * my <= 1_000_004 * 1_000_004,
{
    assert(250_000 <= r && r <= 1_000_000) by (nonlinear_arith)
        requires
            0 < r,
            r * r <= s,
            s < (r + 1) * (r + 1),
            62_500_000_000 <= s,
            s <= 1_000_000_000_000,
    ;
    vstd::arithmetic::div_mod::lemma_fundamental_div_mod(ax * 1_000_000, r);
    vstd::arithmetic::div_mod::lemma_mod_division_less_than_divisor(ax * 1_000_000, r);
    vstd::arithmetic::div_mod::lemma_fundamental_div_mod(ay * 1_000_000, r);
    vstd::arithmetic::div_mod::lemma_mod_division_less_than_divisor(ay * 1_000_000, r);
    assert(r * mx <= ax * 1_000_000 && ax * 1_000_000 < r * mx + r);
    assert(r * my <= ay * 1_000_000 && ay * 1_000_000 < r * my + r);
    assert(ax <= r && ay <= r) by (nonlinear_arith)
        requires
            0 <= ax,
            0 <= ay,
            s == ax * ax + ay * ay,
            0 <= r,
            s < (r + 1) * (r + 1),
    ;
    assert(0 <= mx <= 1_000_000 && 0 <= my <= 1_000_000) by (nonlinear_arith)
        requires
            0 < r,
            0 <= ax <= r,
            0 <= ay <= r,
            r * mx <= ax * 1_000_000,
            ax * 1_000_000 < r * mx + r,
            r * my <= ay * 1_000_000,
            ay * 1_000_000 < r * my + r,
    ;
    // the length scaled by r, squared, against s times the unit squared
    assert((r * mx) * (r * mx) + (r * my) * (r * my) <= s * 1_000_000_000_000)
        by (nonlinear_arith)
        requires
            0 <= r * mx,
            r * mx <= ax * 1_000_000,
            0 <= r * my,
            r * my <= ay * 1_000_000,
            s == ax * ax + ay * ay,
    ;
    assert((mx * mx + my * my) * (r * r) == (r * mx) * (r * mx) + (r * my) * (r * my))
        by (nonlinear_arith);
    assert(((r + 1) * (r + 1)) * 1_000_000_000_000 <= (1_000_004 * 1_000_004) * (r * r))
        by (nonlinear_arith)
        requires
            250_000 <= r,
    ;
    assert(mx * mx + my * my <= 1_000_004 * 1_000_004) by (nonlinear_arith)
        requires
            (mx * mx + my * my) * (r * r) < (1_000_004 * 1_000_004) * (r * r),
            0 < r,
    ;
    assert((r * (mx + 1)) * (r * (mx + 1)) + (r * (my + 1)) * (r * (my + 1)) > s
        * 1_000_000_000_000) by (nonlinear_arith)
        requires
            0 <= ax * 1_000_000,
            ax * 1_000_000 < r * mx + r,
            0 <= ay * 1_000_000,
            ay * 1_000_000 < r * my + r,
            s == ax * ax + ay * ay,
    ;
    assert(((mx + 1) * (mx + 1) + (my + 1) * (my + 1)) * (r * r) == (r * (mx + 1)) * (r * (mx
        + 1)) + (r * (my + 1)) * (r * (my + 1))) by (nonlinear_arith);
    assert((mx + 1) * (mx + 1) + (my + 1) * (my + 1) > 1_000_000_000_000) by (nonlinear_arith)
        requires
            ((mx + 1) * (mx + 1) + (my + 1) * (my + 1)) * (r * r) > s * 1_000_000_000_000,
            r * r <= s,
            0 < r,
    ;
    assert(mx * mx + my * my >= 999_996 * 999_996) by (nonlinear_arith)
        requires
            (mx + 1) * (mx + 1) + (my + 1) * (my + 1) > 1_000_000_000_000,
            0 <= mx <= 1_000_000,
            0 <= my <= 1_000_000,
    ;
}

/// Draws a direction of roughly unit length: its squared length lies
/// within four parts in `SCALE` of one unit, each component within
/// `[-SCALE, SCALE]`. Drawn by rejection: a point of the annulus between
/// a quarter unit and one unit, scaled out to the unit circle. Falls
/// back to the positive x axis when every draw of the bounding square
/// misses the annulus.
pub fn random_direction(rng: &mut rand::rngs::StdRng) -> (d: (i64, i64))
    ensures
        -(SCALE as int) <= d.0 <= SCALE as int,
        -(SCALE as int) <= d.1 <= SCALE as int,
        (SCALE - 4) * (SCALE - 4) <= d.0 * d.0 + d.1 * d.1 <= (SCALE + 4) * (SCALE + 4),
{
    let mut attempts: u64 = 8;
    while attempts > 0
        decreases attempts,
    {
        attempts = attempts - 1;
        let xr: i64 = rand_below(rng, 2 * SCALE + 1) as i64 - SCALE as i64;
        let yr: i64 = rand_below(rng, 2 * SCALE + 1) as i64 - SCALE as i64;
        let ax: u64 = if xr < 0 {
            (-xr) as u64
        } else {
            xr as u64
        };
        let ay: u64 = if yr < 0 {
            (-yr) as u64
        } else {
            yr as u64
        };
        proof {
            assert(ax * ax + ay * ay <= 2 * (SCALE as int) * (SCALE as int)) by (nonlinear_arith)
                requires
                    ax <= SCALE,
                    ay <= SCALE,
                    0 <= ax,
                    0 <= ay,
            ;
        }
        let s: u64 = ax * ax + ay * ay;
        if MIN_DIR_DRAW * MIN_DIR_DRAW <= s && s <= SCALE * SCALE {
            let r: u64 = isqrt(s);
            proof {
                crate::units::lemma_sqrt_floor_bounds(s as int);
                assert(0 < r) by (nonlinear_arith)
                    requires
                        0 <= r,
                        s < (r + 1) * (r + 1),
                        62_500_000_000 <= s,
                ;
            }
            let mx: u64 = ax * SCALE / r;
            let my: u64 = ay * SCALE / r;
            proof {
                lemma_scaled_direction_magnitude(
                    ax as int,
                    ay as int,
                    s as int,
                    r as int,
                    mx as int,
                    my as int,
                );
            }
            let dx: i64 = if xr < 0 {
                -(mx as i64)
            } else {
                mx as i64
            };
            let dy: i64 = if yr < 0 {
                -(my as i64)
            } else {
                my as i64
            };
            proof {
                assert(dx * dx == mx * mx && dy * dy == my * my) by (nonlinear_arith)
                    requires
                        dx == mx || dx == -mx,
                        dy == my || dy == -my,
                ;
            }
            return (dx, dy);
        }
    }
    (SCALE as i64, 0)
}

} // verus!
