//! Deriving an orbit from one position/velocity sample: the inverse
//! Kepler problem.
//!
//! The derivation splits at the trigonometric calls, which this library
//! does not compute. [`Orbit::from_pos_dir`] takes the sample together
//! with the two direction angles and one sine the caller read off it,
//! and carries the vis-viva and angular-momentum arithmetic through to
//! the orbit, the cosine of the current true anomaly and the cosine of
//! the eccentric anomaly — every step an exact fixed-point formula. The
//! caller then takes the two arc cosines and one sine, and
//! [`Derived::finish`] resolves the apsidal-angle ambiguity, checks the
//! derived conic against the sampled radius, and converts the eccentric
//! anomaly to the time offset.

use vstd::prelude::*;

verus! {

use crate::num::{
    SCALE, mag, fits, tmod, tmod_i64, clamp_unit, scaled_mul, scaled_div, scaled_sqrt,
    scaled_mul_i64, scaled_div_i64, scaled_sqrt_i64, mul_div_i64, mul_div_checked,
    lemma_mag_mul_div, lemma_mul_div_pos, lemma_mul_div_cap, lemma_scaled_mul_square_nonneg,
    lemma_isqrt_bounds,
};
use crate::{Orbit, OrbitKind, kind_of, PI, TAU, KIND_BAND, MAX_P, MAX_EPSILON};

/// Largest coordinate magnitude a sample may carry, in ticks.
pub const MAX_COORD: i64 = 1_000_000_000_000;

/// Largest velocity-component magnitude a sample may carry, in ticks.
pub const MAX_SPEED: i64 = 10_000_000_000;

/// Half pi in ticks, rounded down.
pub const HALF_PI: i64 = 1_570_796_326;

/// Tolerance of the derivation self-check, in ticks.
pub const CHECK_TOL: i64 = 10_000;

/// One position/velocity sample, with the gravitational parameter
/// normalized to one, together with the three trigonometric readings of
/// it that the derivation needs: the position angle `phi = atan2(y, x)`,
/// the velocity direction `xi = atan2(dy, dx)`, and `sin(xi - phi)`.
#[derive(Clone, Copy, Debug, PartialEq, Eq, Structural)]
pub struct StateSample {
    pub x: i64,
    pub y: i64,
    pub dx: i64,
    pub dy: i64,
    pub phi: i64,
    pub xi: i64,
    pub sin_xi_phi: i64,
}

impl StateSample {
    /// The ranges within which the derivation is free of overflow.
    pub open spec fn bounded(self) -> bool {
        &&& mag(self.x as int) <= MAX_COORD
        &&& mag(self.y as int) <= MAX_COORD
        &&& mag(self.dx as int) <= MAX_SPEED
        &&& mag(self.dy as int) <= MAX_SPEED
        &&& mag(self.phi as int) <= TAU
        &&& mag(self.xi as int) <= TAU
        &&& mag(self.sin_xi_phi as int) <= SCALE
    }

    /// Squared distance from the central body.
    pub open spec fn spec_r_squared(self) -> int {
        scaled_mul(self.x as int, self.x as int) + scaled_mul(self.y as int, self.y as int)
    }

    /// Distance from the central body.
    pub open spec fn spec_r(self) -> int {
        scaled_sqrt(self.spec_r_squared())
    }

    /// Squared speed.
    pub open spec fn spec_v_squared(self) -> int {
        scaled_mul(self.dx as int, self.dx as int) + scaled_mul(self.dy as int, self.dy as int)
    }

    /// The vis-viva denominator `2 - r v^2`, whose sign separates bound
    /// from unbound trajectories.
    pub open spec fn spec_vis_viva_denom(self) -> int {
        2 * SCALE as int - scaled_mul(self.spec_r(), self.spec_v_squared())
    }

    /// Signed semi-major axis `r / (2 - r v^2)`; negative for a
    /// hyperbolic sample, an intermediate only.
    pub open spec fn spec_a(self) -> int {
        scaled_div(self.spec_r(), self.spec_vis_viva_denom())
    }

    /// Squared angular momentum `r^2 v^2 sin^2(xi - phi)`, which equals
    /// the semi-latus rectum when the gravitational parameter is one.
    pub open spec fn spec_rvs(self) -> int {
        scaled_mul(
            scaled_mul(self.spec_r_squared(), self.spec_v_squared()),
            scaled_mul(self.sin_xi_phi as int, self.sin_xi_phi as int),
        )
    }

    /// Squared eccentricity `1 - rvs / a`, clamped to be nonnegative:
    /// under the circular limit the rounding of the quotient can push
    /// the raw value just below zero, and the clamp absorbs that before
    /// the square root.
    pub open spec fn spec_e_squared(self) -> int {
        let raw = SCALE - scaled_div(self.spec_rvs(), self.spec_a());
        if raw < 0 {
            0
        } else {
            raw
        }
    }

    /// Eccentricity of the sampled trajectory.
    pub open spec fn spec_epsilon(self) -> int {
        scaled_sqrt(self.spec_e_squared())
    }

    /// Conic kind of the sampled trajectory.
    pub open spec fn spec_kind(self) -> OrbitKind {
        kind_of(self.spec_epsilon())
    }

    /// `rvs / r`, the conic equation's denominator times the radius'
    /// reciprocal — equal to `1 + epsilon cos(nu)` at the sample.
    pub open spec fn spec_rvs_over_r(self) -> int {
        scaled_div(self.spec_rvs(), self.spec_r())
    }

    /// Cosine of the true anomaly at the sample,
    /// `(rvs / r - 1) / epsilon`, clamped into the unit range as the
    /// arc cosine demands.
    pub open spec fn spec_cos_nu(self) -> int {
        clamp_unit(scaled_div(self.spec_rvs_over_r() - SCALE, self.spec_epsilon()))
    }

    /// Cosine of the eccentric anomaly at the sample,
    /// `(epsilon + cos(nu)) / (1 + epsilon cos(nu))`, clamped into the
    /// unit range.
    pub open spec fn spec_cos_big_e(self) -> int {
        clamp_unit(scaled_div(self.spec_epsilon() + self.spec_cos_nu(), self.spec_rvs_over_r()))
    }

    /// Semi-latus rectum by kind: `a` for a circle, `a (1 - e^2)` for an
    /// ellipse, `(cos(nu) + 1) r` for a parabola, `-a (e^2 - 1)` for a
    /// hyperbola.
    pub open spec fn spec_p(self) -> int {
        match self.spec_kind() {
            OrbitKind::Circle => self.spec_a(),
            OrbitKind::Ellipse => scaled_mul(self.spec_a(), SCALE - self.spec_e_squared()),
            OrbitKind::Parabola => scaled_mul(self.spec_cos_nu() + SCALE, self.spec_r()),
            OrbitKind::Hyperbola => scaled_mul(-self.spec_a(), self.spec_e_squared() - SCALE),
        }
    }

    /// Everything that must hold of a sample for the derivation to
    /// produce an orbit: no vanishing denominator, every intermediate
    /// within the 64-bit range, and the derived conic within the
    /// library's accepted ranges. Degenerate samples (at the origin, at
    /// exactly the escape boundary, or beyond the ranges) fail it.
    pub open spec fn derivable(self) -> bool {
        &&& self.spec_vis_viva_denom() != 0
        &&& fits(self.spec_a())
        &&& self.spec_a() != 0
        &&& fits(scaled_div(self.spec_rvs(), self.spec_a()))
        &&& SCALE - scaled_div(self.spec_rvs(), self.spec_a()) <= i64::MAX
        &&& self.spec_epsilon() <= MAX_EPSILON
        &&& (self.spec_kind() != OrbitKind::Circle ==> {
            &&& self.spec_r() >= 1
            &&& fits(self.spec_rvs_over_r())
            &&& fits(scaled_div(self.spec_rvs_over_r() - SCALE, self.spec_epsilon()))
            &&& self.spec_rvs_over_r() != 0
            &&& fits(scaled_div(self.spec_epsilon() + self.spec_cos_nu(), self.spec_rvs_over_r()))
            &&& fits(self.spec_p())
        })
        &&& 0 < self.spec_p() <= MAX_P
    }
}

/// The non-circular half of a derivation: the orbit itself plus the
/// values `finish` needs once the caller has taken the arc cosines.
#[derive(Clone, Copy, Debug, PartialEq, Eq, Structural)]
pub struct Derived {
    /// The derived conic.
    pub orbit: Orbit,
    /// Sampled distance from the central body, in ticks.
    pub r: i64,
    /// `rvs / r`, in ticks.
    pub rvs_over_r: i64,
    /// Cosine of the true anomaly at the sample, in ticks.
    pub cos_nu: i64,
    /// Cosine of the eccentric anomaly at the sample, in ticks.
    pub cos_big_e: i64,
}

impl Derived {
    /// Ranges within which `finish` is free of overflow.
    pub open spec fn wf(self) -> bool {
        &&& self.orbit.valid()
        &&& self.orbit.epsilon >= KIND_BAND
        &&& 1 <= self.r <= 1_500_000_000_000
        &&& 1 <= self.rvs_over_r
        &&& mag(self.cos_nu as int) <= SCALE
        &&& mag(self.cos_big_e as int) <= SCALE
    }
}

/// A finished derivation (circular samples need no arc cosine) or the
/// partial one that `finish` completes.
pub enum PosDir {
    Done { orbit: Orbit, angle: i64, t: i64 },
    Partial(Derived),
}

impl Orbit {
    /// Derive the conic trajectory from one position/velocity sample.
    /// A circular sample comes back finished: the apsidal angle is the
    /// position angle itself and the time offset zero. Any other kind
    /// comes back as a [`Derived`] partial result whose two cosines the
    /// caller must put through the arc cosine before calling
    /// [`Derived::finish`]. `None` reports a sample that is degenerate
    /// or out of the library's ranges, as `derivable` states exactly.
    pub fn from_pos_dir(s: StateSample) -> (out: Option<PosDir>)
        requires
            s.bounded(),
        ensures
            match out {
                Some(pd) => s.derivable() && match pd {
                    PosDir::Done { orbit, angle, t } => s.spec_kind() == OrbitKind::Circle
                        && orbit.p as int == s.spec_a() && orbit.epsilon as int == s.spec_epsilon()
                        && orbit.valid() && angle == s.phi && t == 0,
                    PosDir::Partial(d) => s.spec_kind() != OrbitKind::Circle && d.orbit.p as int
                        == s.spec_p() && d.orbit.epsilon as int == s.spec_epsilon()
                        && d.orbit.valid() && d.r as int == s.spec_r() && d.rvs_over_r as int
                        == s.spec_rvs_over_r() && d.cos_nu as int == s.spec_cos_nu()
                        && d.cos_big_e as int == s.spec_cos_big_e() && d.wf(),
                },
                None => !s.derivable(),
            },
    {
        proof {
            lemma_sq_bound(s.x as int, MAX_COORD as int);
            lemma_sq_bound(s.y as int, MAX_COORD as int);
            lemma_sq_bound(s.dx as int, MAX_SPEED as int);
            lemma_sq_bound(s.dy as int, MAX_SPEED as int);
        }
        let r2 = scaled_mul_i64(s.x, s.x) + scaled_mul_i64(s.y, s.y);
        let v2 = scaled_mul_i64(s.dx, s.dx) + scaled_mul_i64(s.dy, s.dy);
        let r = scaled_sqrt_i64(r2);
        proof {
            lemma_isqrt_bounds(r2 as int * SCALE as int);
            assert(r <= 1_500_000_000_000) by (nonlinear_arith)
                requires
                    r >= 0,
                    r as int * r as int <= r2 as int * SCALE as int,
                    0 <= r2 <= 2_000_000_000_000_000,
                    SCALE == 1_000_000_000i64,
                    r2 as int * SCALE as int <= 2_000_000_000_000_000int * 1_000_000_000int,
            ;
            vstd::arithmetic::mul::lemma_mul_upper_bound(r2 as int, 2_000_000_000_000_000,
                SCALE as int, SCALE as int);
            lemma_mul_div_cap(r as int, v2 as int, SCALE as int, 1_500_000_000_000,
                2_000_000_000_000, 3_000_000_000_000_000_000);
            lemma_mag_mul_div(r as int, v2 as int, SCALE as int);
        }
        let rv2 = scaled_mul_i64(r, v2);
        let den_a = 2 * SCALE - rv2;
        if den_a == 0 {
            return None;
        }
        let a = match mul_div_checked(r, SCALE, den_a) {
            Some(a) => a,
            None => {
                return None;
            },
        };
        if a == 0 {
            return None;
        }
        proof {
            lemma_mul_div_cap(r2 as int, v2 as int, SCALE as int, 2_000_000_000_000_000,
                2_000_000_000_000, 4_000_000_000_000_000_000);
            lemma_mag_mul_div(r2 as int, v2 as int, SCALE as int);
            lemma_nonneg_product(r2 as int, v2 as int);
            lemma_sq_bound(s.sin_xi_phi as int, SCALE as int);
            lemma_scaled_mul_square_nonneg(s.sin_xi_phi as int);
        }
        let r2v2 = scaled_mul_i64(r2, v2);
        let sin2 = scaled_mul_i64(s.sin_xi_phi, s.sin_xi_phi);
        proof {
            lemma_mul_div_cap(r2v2 as int, sin2 as int, SCALE as int, 4_000_000_000_000_000_000,
                SCALE as int, 4_000_000_000_000_000_000);
            lemma_mag_mul_div(r2v2 as int, sin2 as int, SCALE as int);
            lemma_nonneg_product(r2v2 as int, sin2 as int);
        }
        let rvs = scaled_mul_i64(r2v2, sin2);
        let one_neg_e2 = match mul_div_checked(rvs, SCALE, a) {
            Some(v) => v,
            None => {
                return None;
            },
        };
        let e2_wide: i128 = SCALE as i128 - one_neg_e2 as i128;
        if e2_wide > i64::MAX as i128 {
            return None;
        }
        let e2: i64 = if e2_wide < 0 {
            0
        } else {
            e2_wide as i64
        };
        let eps = scaled_sqrt_i64(e2);
        if eps > MAX_EPSILON {
            return None;
        }
        let kind = OrbitKind::from_eccentricity(eps);
        if let OrbitKind::Circle = kind {
            if a <= 0 || a > MAX_P {
                return None;
            }
            let orbit = Orbit { p: a, epsilon: eps };
            return Some(PosDir::Done { orbit, angle: s.phi, t: 0 });
        }
        if r == 0 {
            return None;
        }
        proof {
            lemma_nonneg_product(rvs as int, SCALE as int);
        }
        let rvs_over_r = match mul_div_checked(rvs, SCALE, r) {
            Some(v) => v,
            None => {
                return None;
            },
        };
        proof {
            lemma_mul_div_pos(rvs as int, SCALE as int, r as int);
            vstd::arithmetic::mul::lemma_mul_nonnegative(rvs as int, SCALE as int);
            vstd::arithmetic::div_mod::lemma_div_pos_is_pos(rvs as int * SCALE as int, r as int);
        }
        let cos_nu_raw = match mul_div_checked(rvs_over_r - SCALE, SCALE, eps) {
            Some(v) => v,
            None => {
                return None;
            },
        };
        let cos_nu = if cos_nu_raw > SCALE {
            SCALE
        } else if cos_nu_raw < -SCALE {
            -SCALE
        } else {
            cos_nu_raw
        };
        if rvs_over_r == 0 {
            return None;
        }
        let cos_big_e_raw = match mul_div_checked(eps + cos_nu, SCALE, rvs_over_r) {
            Some(v) => v,
            None => {
                return None;
            },
        };
        let cos_big_e = if cos_big_e_raw > SCALE {
            SCALE
        } else if cos_big_e_raw < -SCALE {
            -SCALE
        } else {
            cos_big_e_raw
        };
        let p = match kind {
            OrbitKind::Circle => vstd::pervasive::unreached(),
            OrbitKind::Ellipse => {
                proof {
                    lemma_ellipse_e2_below_scale(e2 as int, eps as int);
                    lemma_mul_div_cap(a as int, SCALE - e2 as int, SCALE as int, i64::MAX as int,
                        SCALE as int, i64::MAX as int);
                    lemma_mag_mul_div(a as int, SCALE - e2 as int, SCALE as int);
                }
                scaled_mul_i64(a, SCALE - e2)
            },
            OrbitKind::Parabola => {
                proof {
                    lemma_mul_div_cap(cos_nu as int + SCALE as int, r as int, SCALE as int,
                        2_000_000_000, 1_500_000_000_000, 3_000_000_000_000);
                    lemma_mag_mul_div(cos_nu as int + SCALE as int, r as int, SCALE as int);
                }
                scaled_mul_i64(cos_nu + SCALE, r)
            },
            OrbitKind::Hyperbola => {
                match mul_div_checked(-a, e2 - SCALE, SCALE) {
                    Some(v) => v,
                    None => {
                        return None;
                    },
                }
            },
        };
        if p <= 0 || p > MAX_P {
            return None;
        }
        let orbit = Orbit { p, epsilon: eps };
        Some(
            PosDir::Partial(
                Derived { orbit, r, rvs_over_r, cos_nu, cos_big_e },
            ),
        )
    }
}

/// Angular distance of `angle` shifted by `d` from zero: the magnitude
/// of the truncating remainder of `angle + d + 2 pi` by `2 pi`.
pub open spec fn spec_dd(angle: int, d: int) -> int {
    mag(tmod(angle + d + TAU, TAU as int))
}

/// The apsidal angle selected between the two candidate true anomalies
/// `phi - nu` and `phi + nu`: each candidate's implied tangent
/// direction (a quarter turn off the radius, either way) is compared
/// against the velocity direction `xi`, and the anomaly is shifted by
/// the smaller mismatch of the closer candidate.
pub open spec fn spec_apsidal(phi: int, xi: int, nu: int) -> int {
    let d0 = HALF_PI - xi;
    let d1 = -HALF_PI - xi;
    let lo0 = spec_dd(phi - nu, d0);
    let lo1 = spec_dd(phi - nu, d1);
    let hi0 = spec_dd(phi + nu, d0);
    let hi1 = spec_dd(phi + nu, d1);
    let lo = if lo0 <= lo1 {
        lo0
    } else {
        lo1
    };
    let hi = if hi0 <= hi1 {
        hi0
    } else {
        hi1
    };
    if lo < hi {
        nu - lo
    } else {
        nu + hi
    }
}

/// The eccentric anomaly on the correct branch: the raw arc cosine when
/// the apsidal angle is below pi, its reflection otherwise.
pub open spec fn spec_big_e_corr(angle: int, big_e: int) -> int {
    if angle < PI {
        big_e
    } else {
        TAU - big_e
    }
}

/// The sine matching the branch-corrected eccentric anomaly.
pub open spec fn spec_sin_corr(angle: int, sin_big_e: int) -> int {
    if angle < PI {
        sin_big_e
    } else {
        -sin_big_e
    }
}

impl Derived {
    /// Mean anomaly at the sample, by Kepler's equation
    /// `M = E - epsilon sin(E)` on the branch-corrected anomaly.
    pub open spec fn spec_m(self, phi: int, xi: int, nu: int, big_e: int, sin_big_e: int) -> int {
        let angle = spec_apsidal(phi, xi, nu);
        spec_big_e_corr(angle, big_e) - scaled_mul(
            self.orbit.epsilon as int,
            spec_sin_corr(angle, sin_big_e),
        )
    }

    /// Time offset: the mean anomaly over the mean motion.
    pub open spec fn spec_t(self, phi: int, xi: int, nu: int, big_e: int, sin_big_e: int) -> int {
        scaled_div(self.spec_m(phi, xi, nu, big_e, sin_big_e), self.orbit.spec_mean_motion())
    }

    /// The derived conic reproduces the sampled radius at a candidate
    /// anomaly whose cosine is `c`, within `CHECK_TOL`.
    pub open spec fn radius_check_ok(self, c: int) -> bool {
        &&& self.orbit.denom(c) != 0
        &&& fits(self.orbit.radius_at(c))
        &&& mag(self.orbit.radius_at(c) - self.r) < CHECK_TOL
    }

    /// Everything that must hold for `finish` to return a result: the
    /// self-check passes at both candidates, the mean anomaly is
    /// nonnegative, and the orbit's rates exist and fit.
    pub open spec fn finish_ok(
        self,
        phi: int,
        xi: int,
        nu: int,
        big_e: int,
        sin_big_e: int,
        cos_lo: int,
        cos_hi: int,
    ) -> bool {
        &&& self.radius_check_ok(cos_lo)
        &&& self.radius_check_ok(cos_hi)
        &&& self.spec_m(phi, xi, nu, big_e, sin_big_e) >= 0
        &&& 1 <= self.orbit.spec_semi_major()
        &&& fits(self.orbit.spec_semi_major())
        &&& 1 <= self.orbit.spec_mean_motion()
        &&& fits(self.orbit.spec_mean_motion())
        &&& fits(self.spec_t(phi, xi, nu, big_e, sin_big_e))
    }

    /// The derived conic reproduces the sampled radius at the candidate
    /// whose cosine is `c`. A failure here reflects a degenerate sample
    /// or a fault in the derivation, not recoverable input.
    fn radius_check(&self, c: i64) -> (ok: bool)
        requires
            self.wf(),
            mag(c as int) <= SCALE,
        ensures
            ok == self.radius_check_ok(c as int),
    {
        proof {
            lemma_mul_div_cap(self.orbit.epsilon as int, c as int, SCALE as int,
                MAX_EPSILON as int, SCALE as int, MAX_EPSILON as int);
            lemma_mag_mul_div(self.orbit.epsilon as int, c as int, SCALE as int);
        }
        let den = SCALE + scaled_mul_i64(self.orbit.epsilon, c);
        if den == 0 {
            return false;
        }
        match mul_div_checked(self.orbit.p, SCALE, den) {
            None => false,
            Some(rad) => {
                let diff: i128 = rad as i128 - self.r as i128;
                let m = if diff >= 0 {
                    diff
                } else {
                    -diff
                };
                m < CHECK_TOL as i128
            },
        }
    }

    /// Complete a derivation once the caller has the arc cosines: `nu`
    /// is `acos` of the derived `cos_nu`, `big_e` is `acos` of the
    /// derived `cos_big_e` with `sin_big_e` its sine, and `cos_lo`,
    /// `cos_hi` are the cosines of the candidate angles `phi - nu` and
    /// `phi + nu` for the self-check. Returns the apsidal angle and the
    /// nonnegative time offset, or `None` exactly when `finish_ok`
    /// fails: a failed self-check or a derived orbit whose rates
    /// degenerate, reflecting a malformed sample rather than bad input
    /// to this call.
    pub fn finish(
        &self,
        phi: i64,
        xi: i64,
        nu: i64,
        big_e: i64,
        sin_big_e: i64,
        cos_lo: i64,
        cos_hi: i64,
    ) -> (out: Option<(i64, i64)>)
        requires
            self.wf(),
            mag(phi as int) <= TAU,
            mag(xi as int) <= TAU,
            0 <= nu <= PI,
            0 <= big_e <= PI,
            mag(sin_big_e as int) <= SCALE,
            mag(cos_lo as int) <= SCALE,
            mag(cos_hi as int) <= SCALE,
        ensures
            match out {
                Some(r) => self.finish_ok(phi as int, xi as int, nu as int, big_e as int,
                    sin_big_e as int, cos_lo as int, cos_hi as int) && r.0 as int == spec_apsidal(
                    phi as int, xi as int, nu as int) && mag(r.0 as int) < TAU + PI
                    && r.1 as int == self.spec_t(phi as int, xi as int, nu as int, big_e as int,
                    sin_big_e as int) && r.1 >= 0,
                None => !self.finish_ok(phi as int, xi as int, nu as int, big_e as int,
                    sin_big_e as int, cos_lo as int, cos_hi as int),
            },
    {
        if !self.radius_check(cos_lo) {
            return None;
        }
        if !self.radius_check(cos_hi) {
            return None;
        }
        let d0 = HALF_PI - xi;
        let d1 = -HALF_PI - xi;
        let lo0 = direction_distance(phi - nu, d0);
        let lo1 = direction_distance(phi - nu, d1);
        let hi0 = direction_distance(phi + nu, d0);
        let hi1 = direction_distance(phi + nu, d1);
        let lo = if lo0 <= lo1 {
            lo0
        } else {
            lo1
        };
        let hi = if hi0 <= hi1 {
            hi0
        } else {
            hi1
        };
        let angle = if lo < hi {
            nu - lo
        } else {
            nu + hi
        };
        let big_corr = if angle < PI {
            big_e
        } else {
            TAU - big_e
        };
        let sin_corr = if angle < PI {
            sin_big_e
        } else {
            -sin_big_e
        };
        proof {
            lemma_mul_div_cap(self.orbit.epsilon as int, sin_corr as int, SCALE as int,
                MAX_EPSILON as int, SCALE as int, MAX_EPSILON as int);
            lemma_mag_mul_div(self.orbit.epsilon as int, sin_corr as int, SCALE as int);
        }
        let m = big_corr - scaled_mul_i64(self.orbit.epsilon, sin_corr);
        if m < 0 {
            return None;
        }
        let e2v = self.orbit.eps_squared();
        let sm = match mul_div_checked(self.orbit.p, SCALE, e2v) {
            Some(v) => v,
            None => {
                return None;
            },
        };
        if sm < 1 {
            return None;
        }
        proof {
            vstd::arithmetic::mul::lemma_mul_left_inequality(1_000_000_000_000_000_000, 1,
                sm as int);
            lemma_mul_div_cap(SCALE as int, SCALE as int, sm as int, SCALE as int, SCALE as int,
                1_000_000_000_000_000_000);
            lemma_mag_mul_div(SCALE as int, SCALE as int, sm as int);
            lemma_nonneg_product(SCALE as int, SCALE as int);
            lemma_mul_div_pos(SCALE as int, SCALE as int, sm as int);
            vstd::arithmetic::mul::lemma_mul_nonnegative(SCALE as int, SCALE as int);
            vstd::arithmetic::div_mod::lemma_div_pos_is_pos(SCALE as int * SCALE as int, sm as int);
        }
        let inv = mul_div_i64(SCALE, SCALE, sm);
        let root = scaled_sqrt_i64(inv);
        let mm = match mul_div_checked(root, SCALE, sm) {
            Some(v) => v,
            None => {
                return None;
            },
        };
        if mm < 1 {
            return None;
        }
        let t = match mul_div_checked(m, SCALE, mm) {
            Some(v) => v,
            None => {
                return None;
            },
        };
        proof {
            lemma_mul_div_pos(m as int, SCALE as int, mm as int);
            vstd::arithmetic::mul::lemma_mul_nonnegative(m as int, SCALE as int);
            vstd::arithmetic::div_mod::lemma_div_pos_is_pos(m as int * SCALE as int, mm as int);
        }
        Some((angle, t))
    }
}

/// Angular distance of `angle + d` from zero, modulo a full turn.
fn direction_distance(angle: i64, d: i64) -> (r: i64)
    requires
        mag(angle as int) <= 10_000_000_000,
        mag(d as int) <= 10_000_000_000,
    ensures
        r as int == spec_dd(angle as int, d as int),
        0 <= r < TAU,
{
    let t = tmod_i64(angle + d + TAU, TAU);
    if t >= 0 {
        t
    } else {
        -t
    }
}

/// The truncated square of a value bounded by `b` is bounded by
/// `b * b / SCALE` and nonnegative.
proof fn lemma_sq_bound(v: int, b: int)
    requires
        mag(v) <= b,
        0 <= b <= 2_000_000_000_000,
    ensures
        0 <= scaled_mul(v, v) <= b * b / SCALE as int,
        mag(v) * mag(v) / SCALE as int <= b * b / SCALE as int,
{
    lemma_scaled_mul_square_nonneg(v);
    vstd::arithmetic::mul::lemma_mul_upper_bound(mag(v), b, mag(v), b);
    vstd::arithmetic::div_mod::lemma_div_is_ordered(mag(v) * mag(v), b * b, SCALE as int);
}

/// A product of nonnegative scalars is nonnegative.
proof fn lemma_nonneg_product(a: int, b: int)
    requires
        a >= 0,
        b >= 0,
    ensures
        scaled_mul(a, b) >= 0,
        scaled_mul(a, b) == a * b / SCALE as int,
{
    lemma_mul_div_pos(a, b, SCALE as int);
    vstd::arithmetic::mul::lemma_mul_nonnegative(a, b);
    vstd::arithmetic::div_mod::lemma_div_pos_is_pos(a * b, SCALE as int);
}

/// For an elliptic eccentricity the raw squared eccentricity sits below
/// one.
proof fn lemma_ellipse_e2_below_scale(e2: int, eps: int)
    requires
        0 <= e2,
        eps == scaled_sqrt(e2),
        eps < SCALE,
    ensures
        e2 <= SCALE,
{
    lemma_isqrt_bounds(e2 * SCALE as int);
    assert(e2 <= SCALE as int) by (nonlinear_arith)
        requires
            e2 * (SCALE as int) < (eps + 1) * (eps + 1),
            eps + 1 <= SCALE as int,
            eps >= 0,
            SCALE == 1_000_000_000i64,
            e2 >= 0,
    ;
}

} // verus!