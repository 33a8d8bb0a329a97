//! Solving Kepler's equation: from a time to the eccentric anomaly and
//! on to the true anomaly, for each conic kind.
//!
//! The circular case is closed-form and fully computed here. The
//! parabolic case iterates a rational update (Barker's equation) that
//! needs no trigonometry, so its whole thirty-step loop is verified
//! here. The elliptic and hyperbolic updates need the sine and cosine
//! (or their hyperbolic counterparts) of the running estimate, which
//! this library does not compute: [`KeplerSolve`] holds the iteration
//! state, the caller evaluates the trigonometric functions of the
//! current estimate and hands them to a step function, and every step's
//! contract states the new estimate exactly in terms of those inputs.

use vstd::prelude::*;

verus! {

use crate::num::{
    SCALE, mag, sgn, scaled_mul, scaled_div, scaled_sqrt, scaled_mul_i64, scaled_div_i64,
    scaled_sqrt_i64, mul_div, mul_div_i64, lemma_mag_mul_div, lemma_mul_div_pos, lemma_mul_div_cap,
};
use crate::{Orbit, OrbitKind, PI, TAU};

/// Stop iterating once an update moves the estimate by less than this
/// many ticks.
pub const KEPLER_TOL: i64 = 1_000;

/// Hard cap on Kepler iterations: past this many, the current estimate
/// is returned as a best effort rather than stalling the caller.
pub const KEPLER_CAP: u32 = 30;

/// The square root of eighteen, in ticks rounded down.
pub const SQRT_18: i64 = 4_242_640_687;

/// Largest mean anomaly the solvers accept, in ticks.
pub const MAX_MEAN_ANOMALY: i64 = 1_000_000_000_000_000;

/// Largest anomaly estimate the solvers accept, in ticks.
pub const MAX_ANOMALY: i64 = 1_000_000_000_000_000;

/// Largest mean anomaly the parabolic solver accepts, in ticks.
pub const MAX_BARKER_MEAN: i64 = 1_000_000_000_000;

impl Orbit {
    /// The orbital period `2 pi / mean_motion`, in time ticks.
    pub open spec fn spec_period(self) -> int {
        scaled_div(TAU as int, self.spec_mean_motion())
    }

    /// Time since the last perihelion passage: for a closed trajectory
    /// (`epsilon < 1`) the time reduced modulo the period, else the time
    /// itself.
    pub open spec fn spec_time_in_orbit(self, time: int) -> int {
        if self.epsilon < SCALE {
            time % self.spec_period()
        } else {
            time
        }
    }

    /// Mean anomaly at `time`: `mean_motion * time_in_orbit`.
    pub open spec fn spec_mean_anomaly(self, time: int) -> int {
        scaled_mul(self.spec_mean_motion(), self.spec_time_in_orbit(time))
    }

    /// The preconditions shared by every time-domain query: the orbit's
    /// derived rates exist and fit, and the mean anomaly stays within
    /// the solvers' range.
    pub open spec fn time_query_ok(self, time: int) -> bool {
        &&& self.valid()
        &&& 0 <= time <= MAX_MEAN_ANOMALY
        &&& 1 <= self.spec_semi_major() <= i64::MAX
        &&& 1 <= self.spec_mean_motion() <= MAX_MEAN_ANOMALY
        &&& 1 <= self.spec_period()
        &&& 0 <= self.spec_mean_anomaly(time) <= MAX_MEAN_ANOMALY
    }

    /// Mean anomaly at `time`, in ticks.
    pub fn mean_anomaly(&self, time: i64) -> (m: i64)
        requires
            self.time_query_ok(time as int),
        ensures
            m as int == self.spec_mean_anomaly(time as int),
            0 <= m <= MAX_MEAN_ANOMALY,
    {
        let mm = self.mean_motion();
        proof {
            assert(TAU as int * SCALE as int <= i64::MAX as int * mm as int) by (nonlinear_arith)
                requires
                    mm >= 1,
                    TAU == 6_283_185_307i64,
                    SCALE == 1_000_000_000i64,
            ;
            lemma_mul_div_cap(TAU as int, SCALE as int, mm as int, TAU as int, SCALE as int,
                i64::MAX as int);
            lemma_mag_mul_div(TAU as int, SCALE as int, mm as int);
        }
        let period = scaled_div_i64(TAU, mm);
        let tio: i64 = if self.epsilon < SCALE {
            ((time as u64) % (period as u64)) as i64
        } else {
            time
        };
        proof {
            if self.epsilon < SCALE {
                vstd::arithmetic::div_mod::lemma_mod_bound(time as int, period as int);
            }
            lemma_mag_mul_div(mm as int, tio as int, SCALE as int);
            lemma_mul_div_pos(mm as int, tio as int, SCALE as int);
            vstd::arithmetic::mul::lemma_mul_nonnegative(mm as int, tio as int);
            vstd::arithmetic::div_mod::lemma_div_pos_is_pos(mm as int * tio as int, SCALE as int);
        }
        scaled_mul_i64(mm, tio)
    }
}

/// One rational update of Barker's equation:
/// `(2 E^2 + m pi sqrt(18)) / (3 + 3 E^2)`.
pub open spec fn spec_barker_c(m: int) -> int {
    scaled_mul(scaled_mul(m, PI as int), SQRT_18 as int)
}

/// The next parabolic anomaly estimate from the current one.
pub open spec fn spec_barker_step(m: int, est: int) -> int {
    scaled_div(
        2 * scaled_mul(est, est) + spec_barker_c(m),
        3 * SCALE as int + 3 * scaled_mul(est, est),
    )
}

/// The parabolic solver run to completion: step until an update moves
/// by less than `KEPLER_TOL` ticks or the fuel runs out, and return the
/// last estimate either way.
pub open spec fn spec_barker_solve(m: int, est: int, fuel: nat) -> int
    decreases fuel,
{
    let next = spec_barker_step(m, est);
    if fuel == 0 {
        next
    } else if mag(next - est) < KEPLER_TOL {
        next
    } else {
        spec_barker_solve(m, next, (fuel - 1) as nat)
    }
}

/// One verified Barker update. The estimate never leaves
/// `[0, m + c + 1]` (in units), which keeps every later step in range.
fn barker_step(m: i64, c: i64, est: i64) -> (next: i64)
    requires
        0 <= m <= MAX_BARKER_MEAN,
        c as int == spec_barker_c(m as int),
        0 <= c <= 13_340_000_000_000,
        0 <= est <= 14_400_000_000_000,
    ensures
        next as int == spec_barker_step(m as int, est as int),
        0 <= next <= c + SCALE,
{
    proof {
        lemma_mul_div_cap(est as int, est as int, SCALE as int, 14_400_000_000_000,
            14_400_000_000_000, 300_000_000_000_000_000);
        lemma_mag_mul_div(est as int, est as int, SCALE as int);
        lemma_mul_div_pos(est as int, est as int, SCALE as int);
        vstd::arithmetic::mul::lemma_mul_nonnegative(est as int, est as int);
        vstd::arithmetic::div_mod::lemma_div_pos_is_pos(est as int * est as int, SCALE as int);
    }
    let u2 = scaled_mul_i64(est, est);
    let numer = 2 * u2 + c;
    let denom = 3 * SCALE + 3 * u2;
    proof {
        lemma_mag_mul_div(numer as int, SCALE as int, denom as int);
        lemma_mul_div_pos(numer as int, SCALE as int, denom as int);
        vstd::arithmetic::mul::lemma_mul_nonnegative(numer as int, SCALE as int);
        vstd::arithmetic::div_mod::lemma_div_pos_is_pos(numer as int * SCALE as int, denom as int);
        lemma_barker_step_bound(u2 as int, c as int, numer as int, denom as int);
    }
    scaled_div_i64(numer, denom)
}

/// The quotient `numer * SCALE / denom` of a Barker update stays below
/// `c + SCALE`.
proof fn lemma_barker_step_bound(u2: int, c: int, numer: int, denom: int)
    requires
        u2 >= 0,
        c >= 0,
        numer == 2 * u2 + c,
        denom == 3 * SCALE as int + 3 * u2,
    ensures
        numer * SCALE as int / denom <= c + SCALE,
{
    if u2 <= c {
        assert(numer * SCALE as int <= (3 * c) * SCALE as int) by (nonlinear_arith)
            requires
                numer <= 3 * c,
                SCALE as int > 0,
                numer == 2 * u2 + c,
                u2 >= 0,
                c >= 0,
        ;
        vstd::arithmetic::div_mod::lemma_div_is_ordered(numer * SCALE as int,
            (3 * c) * SCALE as int, denom);
        vstd::arithmetic::div_mod::lemma_div_is_ordered_by_denominator((3 * c) * SCALE as int,
            3 * SCALE as int, denom);
        assert((3 * c) * SCALE as int / (3 * SCALE as int) == c) by {
            assert((3 * c) * SCALE as int == c * (3 * SCALE as int)) by (nonlinear_arith);
            vstd::arithmetic::div_mod::lemma_div_by_multiple(c, 3 * SCALE as int);
        }
        vstd::arithmetic::mul::lemma_mul_nonnegative((3 * c), SCALE as int);
    } else {
        assert(numer * SCALE as int <= (3 * u2) * SCALE as int) by (nonlinear_arith)
            requires
                numer == 2 * u2 + c,
                0 <= c < u2,
                SCALE as int > 0,
        ;
        vstd::arithmetic::mul::lemma_mul_nonnegative(numer, SCALE as int);
        vstd::arithmetic::div_mod::lemma_div_is_ordered(numer * SCALE as int,
            (3 * u2) * SCALE as int, denom);
        vstd::arithmetic::div_mod::lemma_div_is_ordered_by_denominator((3 * u2) * SCALE as int,
            3 * u2, denom);
        assert((3 * u2) * SCALE as int / (3 * u2) == SCALE as int) by {
            assert((3 * u2) * SCALE as int == SCALE as int * (3 * u2)) by (nonlinear_arith);
            vstd::arithmetic::div_mod::lemma_div_by_multiple(SCALE as int, 3 * u2);
        }
        vstd::arithmetic::mul::lemma_mul_nonnegative(3 * u2, SCALE as int);
    }
}

/// The constant factor of Barker's update, `m * pi * sqrt(18)`.
fn barker_c(m: i64) -> (c: i64)
    requires
        0 <= m <= MAX_BARKER_MEAN,
    ensures
        c as int == spec_barker_c(m as int),
        0 <= c <= 13_340_000_000_000,
{
    proof {
        lemma_mul_div_cap(m as int, PI as int, SCALE as int, MAX_BARKER_MEAN as int, PI as int,
            3_142_000_000_000);
        lemma_mag_mul_div(m as int, PI as int, SCALE as int);
        lemma_mul_div_pos(m as int, PI as int, SCALE as int);
        vstd::arithmetic::mul::lemma_mul_nonnegative(m as int, PI as int);
        vstd::arithmetic::div_mod::lemma_div_pos_is_pos(m as int * PI as int, SCALE as int);
    }
    let s1 = scaled_mul_i64(m, PI);
    proof {
        lemma_mul_div_cap(s1 as int, SQRT_18 as int, SCALE as int, 3_142_000_000_000,
            SQRT_18 as int, 13_340_000_000_000);
        lemma_mag_mul_div(s1 as int, SQRT_18 as int, SCALE as int);
        lemma_mul_div_pos(s1 as int, SQRT_18 as int, SCALE as int);
        vstd::arithmetic::mul::lemma_mul_nonnegative(s1 as int, SQRT_18 as int);
        vstd::arithmetic::div_mod::lemma_div_pos_is_pos(s1 as int * SQRT_18 as int, SCALE as int);
    }
    scaled_mul_i64(s1, SQRT_18)
}

/// Barker's iteration run to completion: seeded with the mean anomaly,
/// stepped until the update moves less than `KEPLER_TOL`, and capped at
/// `KEPLER_CAP` further rounds, after which the current estimate is
/// returned as a deliberate best effort.
fn barker_solve(m: i64) -> (res: i64)
    requires
        0 <= m <= MAX_BARKER_MEAN,
    ensures
        res as int == spec_barker_solve(m as int, m as int, KEPLER_CAP as nat),
        0 <= res <= 14_400_000_000_000,
{
    let c = barker_c(m);
    let mut est = m;
    let mut i: u32 = 0;
    loop
        invariant
            0 <= m <= MAX_BARKER_MEAN,
            c as int == spec_barker_c(m as int),
            0 <= c <= 13_340_000_000_000,
            0 <= est <= 14_400_000_000_000,
            i <= KEPLER_CAP,
            spec_barker_solve(m as int, est as int, (KEPLER_CAP - i) as nat) == spec_barker_solve(
                m as int, m as int, KEPLER_CAP as nat),
        decreases KEPLER_CAP - i,
    {
        let prev = est;
        est = barker_step(m, c, est);
        if i >= KEPLER_CAP {
            return est;
        }
        let delta = if est >= prev {
            est - prev
        } else {
            prev - est
        };
        if delta < KEPLER_TOL {
            return est;
        }
        i = i + 1;
    }
}

/// The iteration state of the elliptic or hyperbolic Kepler solver:
/// the fixed mean anomaly and eccentricity, the running anomaly
/// estimate, and how many refinement rounds have been taken.
pub struct KeplerSolve {
    /// Mean anomaly, in ticks; fixed over the iteration.
    pub m: i64,
    /// Eccentricity of the orbit being solved, in ticks.
    pub epsilon: i64,
    /// Current anomaly estimate, in ticks.
    pub est: i64,
    /// Refinement rounds taken so far.
    pub iters: u32,
}

/// What one solver step concluded: the estimate moved less than the
/// tolerance (done), the round cap was reached (best effort), or
/// another round is needed. Each carries the new estimate.
pub enum KeplerStep {
    Converged(i64),
    GaveUp(i64),
    Continue(i64),
}

/// Either a finished anomaly (circular and parabolic orbits) or solver
/// state whose steps need trigonometric input from the caller.
pub enum KeplerOutcome {
    Solved(i64),
    Iterate(KeplerSolve),
}

/// The next elliptic anomaly estimate:
/// `(m - eps (E cos E - sin E)) / (1 - eps cos E)`.
pub open spec fn spec_ellipse_step(m: int, eps: int, est: int, sin_e: int, cos_e: int) -> int {
    scaled_div(
        m - scaled_mul(eps, scaled_mul(est, cos_e) - sin_e),
        SCALE - scaled_mul(eps, cos_e),
    )
}

/// The next hyperbolic anomaly estimate:
/// `(m + eps (E cosh E - sinh E)) / (eps cosh E - 1)`.
pub open spec fn spec_hyperbola_step(m: int, eps: int, est: int, sinh_e: int, cosh_e: int) -> int {
    scaled_div(
        m + scaled_mul(eps, scaled_mul(est, cosh_e) - sinh_e),
        scaled_mul(eps, cosh_e) - SCALE,
    )
}

impl KeplerSolve {
    /// Ranges within which the step functions are free of overflow.
    pub open spec fn wf(self) -> bool {
        &&& 0 <= self.m <= MAX_MEAN_ANOMALY
        &&& 0 <= self.epsilon <= crate::MAX_EPSILON
        &&& mag(self.est as int) <= MAX_ANOMALY
        &&& self.iters <= KEPLER_CAP
    }

    /// The current anomaly estimate.
    pub fn estimate(&self) -> (e: i64)
        ensures
            e == self.est,
    {
        self.est
    }

    /// The convergence bookkeeping shared by both step functions: give
    /// up at the round cap, report convergence when the estimate moved
    /// less than `KEPLER_TOL`, and otherwise count a round and go on.
    fn conclude(&mut self, prev: i64, next: i64) -> (out: KeplerStep)
        requires
            old(self).iters <= KEPLER_CAP,
            old(self).est == next,
            mag(prev as int) <= MAX_ANOMALY,
            mag(next as int) <= MAX_ANOMALY,
        ensures
            final(self).m == old(self).m,
            final(self).epsilon == old(self).epsilon,
            final(self).est == old(self).est,
            final(self).iters <= KEPLER_CAP,
            match out {
                KeplerStep::GaveUp(v) => v == next && old(self).iters >= KEPLER_CAP && final(
                    self).iters == old(self).iters,
                KeplerStep::Converged(v) => v == next && old(self).iters < KEPLER_CAP && mag(
                    next as int - prev as int) < KEPLER_TOL && final(self).iters == old(
                    self).iters,
                KeplerStep::Continue(v) => v == next && old(self).iters < KEPLER_CAP && mag(
                    next as int - prev as int) >= KEPLER_TOL && final(self).iters == old(self).iters
                    + 1,
            },
    {
        if self.iters >= KEPLER_CAP {
            return KeplerStep::GaveUp(next);
        }
        let delta = if next >= prev {
            next - prev
        } else {
            prev - next
        };
        if delta < KEPLER_TOL {
            KeplerStep::Converged(next)
        } else {
            self.iters = self.iters + 1;
            KeplerStep::Continue(next)
        }
    }

    /// One elliptic refinement round. The caller passes the sine and
    /// cosine of the current estimate; the new estimate is exactly
    /// `spec_ellipse_step` of them.
    pub fn step_ellipse(&mut self, sin_e: i64, cos_e: i64) -> (out: KeplerStep)
        requires
            old(self).wf(),
            mag(sin_e as int) <= SCALE,
            mag(cos_e as int) <= SCALE,
            SCALE - scaled_mul(old(self).epsilon as int, cos_e as int) != 0,
            mag(
                spec_ellipse_step(old(self).m as int, old(self).epsilon as int,
                    old(self).est as int, sin_e as int, cos_e as int),
            ) <= MAX_ANOMALY,
        ensures
            final(self).wf(),
            final(self).m == old(self).m,
            final(self).epsilon == old(self).epsilon,
            final(self).est as int == spec_ellipse_step(old(self).m as int,
                old(self).epsilon as int, old(self).est as int, sin_e as int, cos_e as int),
            match out {
                KeplerStep::GaveUp(v) => v == final(self).est && old(self).iters >= KEPLER_CAP
                    && final(self).iters == old(self).iters,
                KeplerStep::Converged(v) => v == final(self).est && old(self).iters < KEPLER_CAP
                    && mag(final(self).est as int - old(self).est as int) < KEPLER_TOL && final(
                    self).iters == old(self).iters,
                KeplerStep::Continue(v) => v == final(self).est && old(self).iters < KEPLER_CAP
                    && mag(final(self).est as int - old(self).est as int) >= KEPLER_TOL && final(
                    self).iters == old(self).iters + 1,
            },
    {
        let prev = self.est;
        proof {
            lemma_mul_div_cap(self.est as int, cos_e as int, SCALE as int, MAX_ANOMALY as int,
                SCALE as int, MAX_ANOMALY as int);
            lemma_mag_mul_div(self.est as int, cos_e as int, SCALE as int);
        }
        let ec = scaled_mul_i64(self.est, cos_e);
        let t = ec - sin_e;
        proof {
            lemma_mul_div_cap(self.epsilon as int, t as int, SCALE as int,
                crate::MAX_EPSILON as int, 1_000_001_000_000_000, 1_000_001_000_000_000_000);
            lemma_mag_mul_div(self.epsilon as int, t as int, SCALE as int);
        }
        let et = scaled_mul_i64(self.epsilon, t);
        let numer = self.m - et;
        proof {
            lemma_mul_div_cap(self.epsilon as int, cos_e as int, SCALE as int,
                crate::MAX_EPSILON as int, SCALE as int, crate::MAX_EPSILON as int);
            lemma_mag_mul_div(self.epsilon as int, cos_e as int, SCALE as int);
        }
        let den = SCALE - scaled_mul_i64(self.epsilon, cos_e);
        proof {
            lemma_mag_mul_div(numer as int, SCALE as int, den as int);
        }
        let next = scaled_div_i64(numer, den);
        self.est = next;
        self.conclude(prev, next)
    }

    /// One hyperbolic refinement round. The caller passes the
    /// hyperbolic sine and cosine of the current estimate; the new
    /// estimate is exactly `spec_hyperbola_step` of them.
    pub fn step_hyperbola(&mut self, sinh_e: i64, cosh_e: i64) -> (out: KeplerStep)
        requires
            old(self).wf(),
            mag(scaled_mul(old(self).est as int, cosh_e as int)) <= 2_000_000_000_000_000_000,
            mag(
                scaled_mul(old(self).epsilon as int,
                    scaled_mul(old(self).est as int, cosh_e as int) - sinh_e as int),
            ) <= 8_000_000_000_000_000_000,
            mag(sinh_e as int) <= 4_000_000_000_000_000_000,
            mag(scaled_mul(old(self).epsilon as int, cosh_e as int))
                <= 9_000_000_000_000_000_000,
            scaled_mul(old(self).epsilon as int, cosh_e as int) - SCALE != 0,
            mag(
                spec_hyperbola_step(old(self).m as int, old(self).epsilon as int,
                    old(self).est as int, sinh_e as int, cosh_e as int),
            ) <= MAX_ANOMALY,
        ensures
            final(self).wf(),
            final(self).m == old(self).m,
            final(self).epsilon == old(self).epsilon,
            final(self).est as int == spec_hyperbola_step(old(self).m as int,
                old(self).epsilon as int, old(self).est as int, sinh_e as int, cosh_e as int),
            match out {
                KeplerStep::GaveUp(v) => v == final(self).est && old(self).iters >= KEPLER_CAP
                    && final(self).iters == old(self).iters,
                KeplerStep::Converged(v) => v == final(self).est && old(self).iters < KEPLER_CAP
                    && mag(final(self).est as int - old(self).est as int) < KEPLER_TOL && final(
                    self).iters == old(self).iters,
                KeplerStep::Continue(v) => v == final(self).est && old(self).iters < KEPLER_CAP
                    && mag(final(self).est as int - old(self).est as int) >= KEPLER_TOL && final(
                    self).iters == old(self).iters + 1,
            },
    {
        let prev = self.est;
        proof {
            lemma_mag_mul_div(self.est as int, cosh_e as int, SCALE as int);
        }
        let ec = scaled_mul_i64(self.est, cosh_e);
        let t = ec - sinh_e;
        proof {
            lemma_mag_mul_div(self.epsilon as int, t as int, SCALE as int);
        }
        let et = scaled_mul_i64(self.epsilon, t);
        let numer = self.m + et;
        proof {
            lemma_mag_mul_div(self.epsilon as int, cosh_e as int, SCALE as int);
        }
        let den = scaled_mul_i64(self.epsilon, cosh_e) - SCALE;
        proof {
            lemma_mag_mul_div(numer as int, SCALE as int, den as int);
        }
        let next = scaled_div_i64(numer, den);
        self.est = next;
        self.conclude(prev, next)
    }
}

impl Orbit {
    /// Eccentric (or parabolic, or hyperbolic) anomaly at `time`. For a
    /// parabola the whole bounded iteration runs here and the anomaly
    /// comes back solved; for an ellipse or hyperbola the caller
    /// receives the seeded solver state and drives it with the
    /// trigonometric values of each estimate. A circular orbit has no
    /// anomaly to solve and is refused (`angle_at` answers it in closed
    /// form without ever calling this).
    pub fn eccentric_anomaly(&self, time: i64) -> (out: KeplerOutcome)
        requires
            self.time_query_ok(time as int),
            self.kind_spec() != OrbitKind::Circle,
            self.kind_spec() == OrbitKind::Parabola ==> self.spec_mean_anomaly(time as int)
                <= MAX_BARKER_MEAN,
        ensures
            match out {
                KeplerOutcome::Solved(v) => self.kind_spec() == OrbitKind::Parabola && v as int
                    == spec_barker_solve(self.spec_mean_anomaly(time as int),
                    self.spec_mean_anomaly(time as int), KEPLER_CAP as nat),
                KeplerOutcome::Iterate(s) => (self.kind_spec() == OrbitKind::Ellipse
                    || self.kind_spec() == OrbitKind::Hyperbola) && s.m as int
                    == self.spec_mean_anomaly(time as int) && s.epsilon == self.epsilon && s.est
                    == s.m && s.iters == 0 && s.wf(),
            },
    {
        let m = self.mean_anomaly(time);
        match self.kind() {
            OrbitKind::Circle => vstd::pervasive::unreached(),
            OrbitKind::Parabola => KeplerOutcome::Solved(barker_solve(m)),
            _ => KeplerOutcome::Iterate(KeplerSolve { m, epsilon: self.epsilon, est: m, iters: 0 }),
        }
    }
}

/// The true anomaly at a queried time, or the one inverse trigonometric
/// call still needed to obtain it: the angle itself for a circle;
/// `atan2(y, x)` of the carried coordinates for an ellipse; `sign`
/// times the arc cosine of the carried cosine for a parabola or
/// hyperbola.
pub enum TrueAnomaly {
    Angle(i64),
    FromXY { x: i64, y: i64 },
    FromCos { cos: i64, sign: i64 },
}

impl Orbit {
    /// Closed-form circular angle: `2 pi * (time mod period) / period`.
    pub open spec fn spec_circle_angle(self, time: int) -> int {
        mul_div(TAU as int, self.spec_time_in_orbit(time), self.spec_period())
    }

    /// The object's angular position measured from perihelion after
    /// `time` ticks from a perihelion passage. A circle needs no solved
    /// anomaly and `e_anom`, `sin_e`, `cos_e` are ignored; for the other
    /// kinds the caller first solves for the anomaly (see
    /// `eccentric_anomaly`) and passes it with its sine and cosine (for
    /// a hyperbola, `cos_e` carries the hyperbolic cosine), and gets
    /// back the last step: the inputs of one `atan2` or arc-cosine call.
    pub fn angle_at(&self, time: i64, e_anom: i64, sin_e: i64, cos_e: i64) -> (out: TrueAnomaly)
        requires
            self.time_query_ok(time as int),
            self.kind_spec() == OrbitKind::Ellipse ==> mag(sin_e as int) <= SCALE && mag(
                cos_e as int) <= SCALE,
            self.kind_spec() == OrbitKind::Parabola ==> mag(e_anom as int) <= 30_000_000_000_000,
            self.kind_spec() == OrbitKind::Hyperbola ==> SCALE <= cos_e <= 9_000_000_000_000_000
                && mag(
                scaled_div(self.epsilon as int - cos_e as int,
                    scaled_mul(self.epsilon as int, cos_e as int) - SCALE),
            ) <= i64::MAX,
        ensures
            match out {
                TrueAnomaly::Angle(a) => self.kind_spec() == OrbitKind::Circle && a as int
                    == self.spec_circle_angle(time as int) && 0 <= a <= TAU,
                TrueAnomaly::FromXY { x, y } => self.kind_spec() == OrbitKind::Ellipse
                    && x as int == cos_e - self.epsilon && y as int == scaled_mul(sin_e as int,
                    scaled_sqrt(self.spec_eps_squared())),
                TrueAnomaly::FromCos { cos, sign } => (self.kind_spec() == OrbitKind::Parabola
                    && cos as int == scaled_div(
                    SCALE - scaled_mul(e_anom as int, e_anom as int),
                    SCALE + scaled_mul(e_anom as int, e_anom as int),
                ) && sign == 1) || (self.kind_spec() == OrbitKind::Hyperbola && cos as int
                    == scaled_div(self.epsilon as int - cos_e as int,
                    scaled_mul(self.epsilon as int, cos_e as int) - SCALE) && sign as int == sgn(
                    time as int)),
            },
    {
        match self.kind() {
            OrbitKind::Circle => {
                let mm = self.mean_motion();
                proof {
                    assert(TAU as int * SCALE as int <= i64::MAX as int * mm as int)
                        by (nonlinear_arith)
                        requires
                            mm >= 1,
                            TAU == 6_283_185_307i64,
                            SCALE == 1_000_000_000i64,
                    ;
                    lemma_mul_div_cap(TAU as int, SCALE as int, mm as int, TAU as int, SCALE as int,
                        i64::MAX as int);
                    lemma_mag_mul_div(TAU as int, SCALE as int, mm as int);
                }
                let period = scaled_div_i64(TAU, mm);
                let tmod = ((time as u64) % (period as u64)) as i64;
                proof {
                    vstd::arithmetic::div_mod::lemma_mod_bound(time as int, period as int);
                    lemma_mul_div_cap(TAU as int, tmod as int, period as int, TAU as int,
                        period as int, TAU as int);
                    lemma_mul_div_pos(TAU as int, tmod as int, period as int);
                    vstd::arithmetic::mul::lemma_mul_nonnegative(TAU as int, tmod as int);
                    vstd::arithmetic::div_mod::lemma_div_pos_is_pos(TAU as int * tmod as int,
                        period as int);
                }
                TrueAnomaly::Angle(mul_div_i64(TAU, tmod, period))
            },
            OrbitKind::Ellipse => {
                let e2 = self.eps_squared();
                let root = scaled_sqrt_i64(e2);
                proof {
                    crate::lemma_eps_squared_bounds(*self);
                    crate::num::lemma_isqrt_bounds(e2 as int * SCALE as int);
                    assert(root <= SCALE) by (nonlinear_arith)
                        requires
                            root >= 0,
                            root as int * root as int <= e2 as int * SCALE as int,
                            e2 <= SCALE,
                            SCALE == 1_000_000_000i64,
                            e2 as int * SCALE as int <= SCALE as int * SCALE as int,
                    ;
                    vstd::arithmetic::mul::lemma_mul_upper_bound(e2 as int, SCALE as int,
                        SCALE as int, SCALE as int);
                    lemma_mul_div_cap(sin_e as int, root as int, SCALE as int, SCALE as int,
                        SCALE as int, SCALE as int);
                    lemma_mag_mul_div(sin_e as int, root as int, SCALE as int);
                }
                let y = scaled_mul_i64(sin_e, root);
                TrueAnomaly::FromXY { x: cos_e - self.epsilon, y }
            },
            OrbitKind::Parabola => {
                proof {
                    lemma_mul_div_cap(e_anom as int, e_anom as int, SCALE as int,
                        30_000_000_000_000, 30_000_000_000_000, 900_000_000_000_000_000);
                    lemma_mag_mul_div(e_anom as int, e_anom as int, SCALE as int);
                    crate::num::lemma_scaled_mul_square_nonneg(e_anom as int);
                }
                let u2 = scaled_mul_i64(e_anom, e_anom);
                let numer = SCALE - u2;
                let denom = SCALE + u2;
                proof {
                    assert(denom as int * SCALE as int <= SCALE as int * denom as int)
                        by (nonlinear_arith);
                    lemma_mul_div_cap(numer as int, SCALE as int, denom as int, denom as int,
                        SCALE as int, SCALE as int);
                    lemma_mag_mul_div(numer as int, SCALE as int, denom as int);
                }
                TrueAnomaly::FromCos { cos: scaled_div_i64(numer, denom), sign: 1 }
            },
            OrbitKind::Hyperbola => {
                proof {
                    lemma_mul_div_cap(self.epsilon as int, cos_e as int, SCALE as int,
                        crate::MAX_EPSILON as int, 9_000_000_000_000_000, 9_000_000_000_000_000_000,
                    );
                    lemma_mag_mul_div(self.epsilon as int, cos_e as int, SCALE as int);
                    lemma_mul_div_pos(self.epsilon as int, cos_e as int, SCALE as int);
                    vstd::arithmetic::mul::lemma_mul_left_inequality(self.epsilon as int,
                        SCALE as int, cos_e as int);
                    vstd::arithmetic::div_mod::lemma_div_is_ordered(
                        self.epsilon as int * SCALE as int, self.epsilon as int * cos_e as int,
                        SCALE as int);
                    vstd::arithmetic::div_mod::lemma_div_by_multiple(self.epsilon as int,
                        SCALE as int);
                }
                let den = scaled_mul_i64(self.epsilon, cos_e) - SCALE;
                proof {
                    lemma_mag_mul_div(self.epsilon as int - cos_e as int, SCALE as int, den as int);
                }
                let cos = scaled_div_i64(self.epsilon - cos_e, den);
                let sign: i64 = if time > 0 {
                    1
                } else {
                    0
                };
                TrueAnomaly::FromCos { cos, sign }
            },
        }
    }
}

/// On a closed trajectory the mean anomaly never leaves the first
/// turn: the time is reduced modulo the period, and the period times
/// the mean motion is one turn by construction.
pub proof fn lemma_closed_orbit_mean_anomaly_bounded(orbit: Orbit, time: int)
    requires
        orbit.epsilon < SCALE,
        time >= 0,
        1 <= orbit.spec_mean_motion(),
        1 <= orbit.spec_period(),
    ensures
        0 <= orbit.spec_mean_anomaly(time) <= TAU,
{
    let mm = orbit.spec_mean_motion();
    let period = orbit.spec_period();
    let tio = orbit.spec_time_in_orbit(time);
    vstd::arithmetic::div_mod::lemma_mod_bound(time, period);
    lemma_mul_div_pos(mm, tio, SCALE as int);
    vstd::arithmetic::mul::lemma_mul_nonnegative(mm, tio);
    vstd::arithmetic::div_mod::lemma_div_pos_is_pos(mm * tio, SCALE as int);
    lemma_mul_div_pos(TAU as int, SCALE as int, mm);
    vstd::arithmetic::mul::lemma_mul_nonnegative(TAU as int, SCALE as int);
    assert(period == TAU as int * SCALE as int / mm);
    vstd::arithmetic::div_mod::lemma_fundamental_div_mod(TAU as int * SCALE as int, mm);
    vstd::arithmetic::div_mod::lemma_mod_bound(TAU as int * SCALE as int, mm);
    assert(mm * period <= TAU as int * SCALE as int);
    assert(mm * tio <= mm * period) by {
        vstd::arithmetic::mul::lemma_mul_left_inequality(mm, tio, period);
    }
    vstd::arithmetic::div_mod::lemma_div_is_ordered(mm * tio, TAU as int * SCALE as int,
        SCALE as int);
    assert(TAU as int * SCALE as int / SCALE as int == TAU as int) by {
        vstd::arithmetic::div_mod::lemma_div_by_multiple(TAU as int, SCALE as int);
    }
}

/// Periodicity of the circular closed form: one full period later, the
/// reduced time and hence the angle are unchanged.
pub proof fn lemma_circle_angle_periodic(orbit: Orbit, time: int)
    requires
        orbit.valid(),
        orbit.epsilon < SCALE,
        time >= 0,
        orbit.spec_period() >= 1,
    ensures
        orbit.spec_circle_angle(time + orbit.spec_period()) == orbit.spec_circle_angle(time),
{
    let p = orbit.spec_period();
    vstd::arithmetic::div_mod::lemma_mod_add_multiples_vanish(time, p);
}

/// The time-domain queries are pure functions of the orbit and the
/// time: equal inputs give equal mean anomalies, equal solved parabolic
/// anomalies, and equal circular angles. (The elliptic and hyperbolic
/// steps are likewise pure in their trigonometric inputs, by the exact
/// postconditions of `step_ellipse` and `step_hyperbola`.)
pub proof fn lemma_time_queries_pure(a: Orbit, b: Orbit, time_a: int, time_b: int)
    requires
        a == b,
        time_a == time_b,
    ensures
        a.spec_mean_anomaly(time_a) == b.spec_mean_anomaly(time_b),
        a.spec_circle_angle(time_a) == b.spec_circle_angle(time_b),
        spec_barker_solve(a.spec_mean_anomaly(time_a), a.spec_mean_anomaly(time_a),
            KEPLER_CAP as nat) == spec_barker_solve(b.spec_mean_anomaly(time_b),
            b.spec_mean_anomaly(time_b), KEPLER_CAP as nat),
{
}

} // verus!
