//! Easing and spring animation, in exact fixed-point arithmetic.
//!
//! Times are milliseconds, positions are thousandths of a unit. The
//! scroll animation is a critically damped spring integrated with a fixed
//! 10 ms sub-step, so its behaviour does not depend on the frame rate.

use crate::fixed::{lemma_mul_abs_bound, spec_clamp, SUBUNIT};
use vstd::arithmetic::div_mod::{lemma_div_is_ordered, lemma_div_is_ordered_by_denominator};
use vstd::arithmetic::power2::{lemma2_to64, pow2};
use vstd::prelude::*;

verus! {

/// Positions handed to the spring stay within this bound (thousandths);
/// scroll distances are tiny compared to it.
pub const SPRING_LIMIT: i64 = 100_000_000;

/// The spring snaps to its target once within this distance
/// (thousandths of a row).
pub const SPRING_SNAP: i64 = 10;

/// Integration sub-step in milliseconds.
pub const SPRING_SUBSTEP_MS: i64 = 10;

/// Angular frequency (thousandths of 1/s) for a critically damped spring
/// reaching its target in roughly `length_ms` milliseconds.
pub open spec fn spec_spring_omega(length_ms: int) -> int {
    4_000_000int / length_ms
}

/// One 10 ms integration sub-step of the critically damped spring with
/// target zero: acceleration `-(omega^2 p + 2 omega v)`, then velocity
/// and position updates, clamped into the working range.
pub open spec fn spec_spring_step(p: int, v: int, omega: int) -> (int, int) {
    let t1 = omega * p / (SUBUNIT as int);
    let t2 = omega * t1 / (SUBUNIT as int);
    let a = -t2 - 2 * omega * v / (SUBUNIT as int);
    let v2 = spec_clamp(v + a / 100, -(SPRING_LIMIT as int), SPRING_LIMIT as int);
    let p2 = spec_clamp(p + v2 / 100, -(SPRING_LIMIT as int), SPRING_LIMIT as int);
    (p2, v2)
}

/// `n` sub-steps of the spring.
pub open spec fn spec_spring_run(p: int, v: int, omega: int, n: nat) -> (int, int)
    decreases n,
{
    if n == 0 {
        (p, v)
    } else {
        let stepped = spec_spring_step(p, v, omega);
        spec_spring_run(stepped.0, stepped.1, omega, (n - 1) as nat)
    }
}

/// The state and "still animating" flag that one `update` call leaves
/// behind: the spring integrated over the sub-steps covering `dt_ms`,
/// snapped to rest once it lands within `SPRING_SNAP` of the target.
pub open spec fn spec_spring_update(
    s: CriticallyDampedSpringAnimation,
    dt_ms: int,
    length_ms: int,
) -> (CriticallyDampedSpringAnimation, bool) {
    let n = ((dt_ms + SPRING_SUBSTEP_MS as int - 1) / (SPRING_SUBSTEP_MS as int)) as nat;
    let end = spec_spring_run(
        s.position as int,
        s.velocity as int,
        spec_spring_omega(length_ms),
        n,
    );
    if -(SPRING_SNAP as int) < end.0 < SPRING_SNAP as int {
        (CriticallyDampedSpringAnimation { position: 0, velocity: 0 }, false)
    } else {
        (
            CriticallyDampedSpringAnimation { position: end.0 as i64, velocity: end.1 as i64 },
            true,
        )
    }
}

/// Scroll animation state: a critically damped spring moving `position`
/// to zero.
pub struct CriticallyDampedSpringAnimation {
    /// Fixed-point rows away from the target.
    pub position: i64,
    /// Fixed-point rows per second.
    pub velocity: i64,
}

impl CriticallyDampedSpringAnimation {
    pub open spec fn wf(&self) -> bool {
        &&& -SPRING_LIMIT <= self.position <= SPRING_LIMIT
        &&& -SPRING_LIMIT <= self.velocity <= SPRING_LIMIT
    }

    pub fn new() -> (r: Self)
        ensures
            r.wf(),
            r.position == 0,
            r.velocity == 0,
    {
        CriticallyDampedSpringAnimation { position: 0, velocity: 0 }
    }

    /// Stop the animation and snap to the target.
    pub fn reset(&mut self)
        ensures
            final(self).position == 0,
            final(self).velocity == 0,
            final(self).wf(),
    {
        self.position = 0;
        self.velocity = 0;
    }

    /// Advance the spring by `dt_ms` milliseconds of an animation whose
    /// nominal length is `length_ms`, integrating in 10 ms sub-steps.
    /// Returns whether the animation is still running; once the position
    /// lands within `SPRING_SNAP` of the target it snaps to exactly zero
    /// and reports finished.
    pub fn update(&mut self, dt_ms: i64, length_ms: i64) -> (r: bool)
        requires
            old(self).wf(),
            0 <= dt_ms <= 100_000,
            1 <= length_ms <= 100_000,
        ensures
            final(self).wf(),
            *final(self) == spec_spring_update(*old(self), dt_ms as int, length_ms as int).0,
            r == spec_spring_update(*old(self), dt_ms as int, length_ms as int).1,
    {
        let omega = 4_000_000i64.checked_div_euclid(length_ms).unwrap();
        proof {
            lemma_div_is_ordered_by_denominator(4_000_000, 1, length_ms as int);
            lemma_div_is_ordered_by_denominator(4_000_000, length_ms as int, 100_000);
        }
        let n = (dt_ms + SPRING_SUBSTEP_MS - 1).checked_div_euclid(SPRING_SUBSTEP_MS).unwrap();
        let ghost w = spec_spring_omega(length_ms as int);
        let mut k: i64 = 0;
        while k < n
            invariant
                0 <= k <= n,
                n <= 10_000,
                omega == w,
                40 <= omega <= 4_000_000,
                self.wf(),
                (self.position as int, self.velocity as int) == spec_spring_run(
                    old(self).position as int,
                    old(self).velocity as int,
                    w,
                    k as nat,
                ),
            decreases n - k,
        {
            proof {
                lemma_mul_abs_bound(
                    omega as int,
                    self.position as int,
                    4_000_000,
                    SPRING_LIMIT as int,
                );
                lemma_mul_abs_bound(
                    omega as int,
                    self.velocity as int,
                    4_000_000,
                    SPRING_LIMIT as int,
                );
            }
            let t1 = (omega * self.position).checked_div_euclid(SUBUNIT).unwrap();
            proof {
                lemma_div_is_ordered(
                    -400_000_000_000_000,
                    omega * self.position,
                    SUBUNIT as int,
                );
                lemma_div_is_ordered(omega * self.position, 400_000_000_000_000, SUBUNIT as int);
                lemma_mul_abs_bound(omega as int, t1 as int, 4_000_000, 400_000_000_000);
                lemma_mul_abs_bound(
                    2 * (omega as int),
                    self.velocity as int,
                    8_000_000,
                    SPRING_LIMIT as int,
                );
            }
            let t2 = (omega * t1).checked_div_euclid(SUBUNIT).unwrap();
            proof {
                lemma_div_is_ordered(-1_600_000_000_000_000_000, omega * t1, SUBUNIT as int);
                lemma_div_is_ordered(omega * t1, 1_600_000_000_000_000_000, SUBUNIT as int);
                lemma_div_is_ordered(
                    -800_000_000_000_000,
                    2 * omega * self.velocity,
                    SUBUNIT as int,
                );
                lemma_div_is_ordered(
                    2 * omega * self.velocity,
                    800_000_000_000_000,
                    SUBUNIT as int,
                );
            }
            let a = -t2 - (2 * omega * self.velocity).checked_div_euclid(SUBUNIT).unwrap();
            let v2 = crate::fixed::clamp_i64(
                self.velocity + a.checked_div_euclid(100).unwrap(),
                -SPRING_LIMIT,
                SPRING_LIMIT,
            );
            let p2 = crate::fixed::clamp_i64(
                self.position + v2.checked_div_euclid(100).unwrap(),
                -SPRING_LIMIT,
                SPRING_LIMIT,
            );
            proof {
                let st = spec_spring_step(self.position as int, self.velocity as int, w);
                assert(st.0 == p2 && st.1 == v2);
                lemma_spring_run_extend(
                    old(self).position as int,
                    old(self).velocity as int,
                    w,
                    k as nat,
                );
            }
            self.velocity = v2;
            self.position = p2;
            k += 1;
        }
        if self.position > -SPRING_SNAP && self.position < SPRING_SNAP {
            self.position = 0;
            self.velocity = 0;
            false
        } else {
            true
        }
    }
}

/// Running one more sub-step after `n` equals stepping the result of
/// running `n`.
proof fn lemma_spring_run_extend(p: int, v: int, omega: int, n: nat)
    ensures
        spec_spring_run(p, v, omega, n + 1) == spec_spring_step(
            spec_spring_run(p, v, omega, n).0,
            spec_spring_run(p, v, omega, n).1,
            omega,
        ),
    decreases n,
{
    reveal_with_fuel(spec_spring_run, 2);
    if n > 0 {
        let stepped = spec_spring_step(p, v, omega);
        lemma_spring_run_extend(stepped.0, stepped.1, omega, (n - 1) as nat);
    }
}

/// A spring resting at its target stays there: any number of sub-steps
/// from position and velocity zero leaves both at zero, so `update`
/// keeps reporting the animation finished.
pub proof fn lemma_spring_settled(omega: int, n: nat)
    ensures
        spec_spring_run(0, 0, omega, n) == (0int, 0int),
    decreases n,
{
    reveal_with_fuel(spec_spring_run, 2);
    if n > 0 {
        lemma_spring_settled(omega, (n - 1) as nat);
    }
}

/// The eased fraction (thousandths) of an exponential ease-out curve at
/// parameter `t` (thousandths): starts at zero, ends at one, flat tail.
pub open spec fn spec_ease_out_expo(t: int) -> int {
    if t <= 0 {
        0
    } else if t >= SUBUNIT as int {
        SUBUNIT as int
    } else {
        let e = 10 * t;
        let q = e / (SUBUNIT as int);
        let r = e % (SUBUNIT as int);
        (SUBUNIT as int) - ((SUBUNIT as int) - r / 2) / pow2(q as nat) as int
    }
}

/// Exponential ease-out: `1 - 2^(-10 t)` in fixed point, by splitting the
/// exponent into whole halvings and a linearly interpolated remainder.
pub fn ease_out_expo(t: i64) -> (r: i64)
    ensures
        r == spec_ease_out_expo(t as int),
        0 <= r <= SUBUNIT,
{
    if t <= 0 {
        0
    } else if t >= SUBUNIT {
        SUBUNIT
    } else {
        let e = 10 * t;
        let q = e.checked_div_euclid(SUBUNIT).unwrap();
        let rem = e.checked_rem_euclid(SUBUNIT).unwrap();
        proof {
            lemma2_to64();
            vstd::arithmetic::div_mod::lemma_mod_bound(e as int, SUBUNIT as int);
        }
        let mut denom: i64 = 1;
        let mut j: i64 = 0;
        while j < q
            invariant
                0 <= j <= q,
                q <= 9,
                denom == pow2(j as nat),
                denom <= 512,
            decreases q - j,
        {
            proof {
                lemma2_to64();
                vstd::arithmetic::power2::lemma_pow2_unfold((j + 1) as nat);
            }
            denom = denom * 2;
            j += 1;
        }
        let scaled = (SUBUNIT - rem.checked_div_euclid(2).unwrap()).checked_div_euclid(
            denom,
        ).unwrap();
        proof {
            vstd::arithmetic::div_mod::lemma_div_pos_is_pos(
                (SUBUNIT - (rem as int) / 2) as int,
                denom as int,
            );
            lemma_div_is_ordered_by_denominator(
                (SUBUNIT - (rem as int) / 2) as int,
                1,
                denom as int,
            );
        }
        SUBUNIT - scaled
    }
}

} // verus!
