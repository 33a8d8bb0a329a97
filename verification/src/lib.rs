//! An orbital-mechanics engine for two-body conic trajectories.
//!
//! An [`Orbit`] is derived from an instantaneous position/velocity sample
//! or built directly as a circle, classified into one of four conic kinds,
//! and queried for its geometry and for the position of an object moving
//! along it over time. A registry of orbiting objects supports insertion,
//! removal and batch sampling for rendering.
//!
//! All quantities are fixed-point scalars (see [`num`]): exact integer
//! arithmetic on which every formula of the engine is stated and proved.
//! Transcendental functions (sine, cosine, arc cosine, hyperbolic
//! variants) are not computed here; wherever a formula needs one, the
//! caller evaluates it and passes the value in, and the contracts state
//! the result exactly in terms of those inputs.

pub mod datastructures;
pub mod kepler;
pub mod num;
pub mod orbits;
pub mod posdir;
pub mod save;

use vstd::prelude::*;

verus! {

use crate::num::{
    SCALE, mag, scaled_mul, scaled_div, scaled_sqrt, scaled_mul_i64, scaled_div_i64,
    scaled_sqrt_i64, lemma_scaled_mul_scale, lemma_scaled_mul_neg_scale, lemma_mag_mul_div,
    lemma_mul_div_pos, lemma_mul_div_cap,
};
use vstd::arithmetic::div_mod::lemma_div_is_ordered_by_denominator;

/// Ticks of eccentricity below which an orbit counts as circular, and
/// half-width of the band around one in which it counts as parabolic.
pub const KIND_BAND: i64 = 1_000;

/// One conic trajectory around the central body, immutable once built.
///
/// The gravitational parameter is normalized to one, so the two scalars
/// below determine the whole trajectory.
#[derive(Clone, Copy, Debug, PartialEq, Eq, Structural)]
pub struct Orbit {
    /// Semi-latus rectum in ticks. Scales the overall size of the conic.
    /// Strictly positive.
    pub p: i64,
    /// Eccentricity in ticks. Zero is a circle, below one an ellipse,
    /// one a parabola, above one a hyperbola. Never negative.
    pub epsilon: i64,
}

/// The four classes of conic trajectory.
#[derive(Clone, Copy, Debug, PartialEq, Eq, Structural)]
pub enum OrbitKind {
    Circle,
    Ellipse,
    Parabola,
    Hyperbola,
}

/// Classification of an eccentricity (in ticks) into a conic kind.
pub open spec fn kind_of(e: int) -> OrbitKind {
    if e < KIND_BAND {
        OrbitKind::Circle
    } else if mag(e - SCALE) < KIND_BAND {
        OrbitKind::Parabola
    } else if e < SCALE {
        OrbitKind::Ellipse
    } else {
        OrbitKind::Hyperbola
    }
}

impl OrbitKind {
    /// The kind an orbit of eccentricity `e` (in ticks) falls under:
    /// circular below `KIND_BAND`, parabolic within `KIND_BAND` of one,
    /// elliptic below one and hyperbolic above it otherwise.
    pub fn from_eccentricity(e: i64) -> (kind: OrbitKind)
        requires
            e >= 0,
        ensures
            kind == kind_of(e as int),
    {
        if e < KIND_BAND {
            OrbitKind::Circle
        } else if (if e >= SCALE {
            e - SCALE
        } else {
            SCALE - e
        }) < KIND_BAND {
            OrbitKind::Parabola
        } else if e < SCALE {
            OrbitKind::Ellipse
        } else {
            OrbitKind::Hyperbola
        }
    }
}

/// Largest semi-latus rectum the library accepts, in ticks (a million
/// distance units).
pub const MAX_P: i64 = 1_000_000_000_000_000;

/// Largest eccentricity the library accepts, in ticks (a thousand).
pub const MAX_EPSILON: i64 = 1_000_000_000_000;

impl Orbit {
    /// The ranges within which every query below is free of overflow.
    pub open spec fn valid(self) -> bool {
        &&& 0 < self.p <= MAX_P
        &&& 0 <= self.epsilon <= MAX_EPSILON
    }

    /// The circular orbit of the given radius.
    pub fn circular(radius: i64) -> (orbit: Orbit)
        requires
            0 < radius <= MAX_P,
        ensures
            orbit.p == radius,
            orbit.epsilon == 0,
            orbit.valid(),
            orbit.kind_spec() == OrbitKind::Circle,
    {
        Orbit { p: radius, epsilon: 0 }
    }

    /// The kind this orbit's eccentricity falls under.
    pub open spec fn kind_spec(self) -> OrbitKind {
        kind_of(self.epsilon as int)
    }

    /// Classify this orbit; derived from `epsilon` on every call, never
    /// cached, so it cannot fall out of step with the eccentricity.
    pub fn kind(&self) -> (kind: OrbitKind)
        requires
            self.valid(),
        ensures
            kind == self.kind_spec(),
    {
        OrbitKind::from_eccentricity(self.epsilon)
    }

    /// The conic equation's denominator `1 + epsilon * cos(phi)` at a
    /// true anomaly whose cosine is `cos_phi`, in ticks.
    pub open spec fn denom(self, cos_phi: int) -> int {
        SCALE + scaled_mul(self.epsilon as int, cos_phi)
    }

    /// Radius at true anomaly `phi`: `p / (1 + epsilon * cos(phi))`.
    pub open spec fn radius_at(self, cos_phi: int) -> int {
        scaled_div(self.p as int, self.denom(cos_phi))
    }

    /// Radius at the true anomaly (measured from perihelion) whose cosine
    /// is `cos_phi`, in orbit coordinates. For an open conic past its
    /// asymptotic angle the denominator turns negative and so does the
    /// result; at the asymptote itself (denominator zero) the radius is
    /// undefined and the call is refused.
    pub fn r(&self, cos_phi: i64) -> (rad: i64)
        requires
            self.valid(),
            -SCALE <= cos_phi <= SCALE,
            self.denom(cos_phi as int) != 0,
            mag(self.radius_at(cos_phi as int)) <= i64::MAX,
        ensures
            rad as int == self.radius_at(cos_phi as int),
    {
        proof {
            lemma_mul_div_cap(self.epsilon as int, cos_phi as int, SCALE as int,
                MAX_EPSILON as int, SCALE as int, MAX_EPSILON as int);
            lemma_mag_mul_div(self.epsilon as int, cos_phi as int, SCALE as int);
        }
        let den = SCALE + scaled_mul_i64(self.epsilon, cos_phi);
        proof {
            lemma_mag_mul_div(self.p as int, SCALE as int, den as int);
        }
        scaled_div_i64(self.p, den)
    }

    /// Radius at the point closest to the central body: the radius at
    /// true anomaly zero, `p / (1 + epsilon)`.
    pub fn perihelion(&self) -> (rad: i64)
        requires
            self.valid(),
        ensures
            rad as int == self.radius_at(SCALE as int),
            rad as int == scaled_div(self.p as int, SCALE as int + self.epsilon as int),
            0 <= rad <= self.p,
    {
        proof {
            lemma_perihelion_bounds(*self);
        }
        self.r(SCALE)
    }

    /// Radius at the point farthest from the central body: the radius at
    /// true anomaly pi, `p / (1 - epsilon)`. Physically meaningful only
    /// for circles and ellipses; for a hyperbola the result is negative
    /// and must not be used, and for the exactly parabolic eccentricity
    /// the denominator vanishes and the call is refused.
    pub fn aphelion(&self) -> (rad: i64)
        requires
            self.valid(),
            self.epsilon != SCALE,
            mag(self.radius_at(-SCALE as int)) <= i64::MAX,
        ensures
            rad as int == self.radius_at(-SCALE as int),
            rad as int == scaled_div(self.p as int, SCALE as int - self.epsilon as int),
    {
        proof {
            lemma_scaled_mul_neg_scale(self.epsilon as int);
        }
        self.r(-SCALE)
    }
}

/// Pi and two pi as scalars, rounded down to whole ticks.
pub const PI: i64 = 3_141_592_653;

/// Two pi in ticks, rounded down.
pub const TAU: i64 = 6_283_185_307;

impl Orbit {
    /// The kind-dispatched divisor under the semi-major axis: one for a
    /// circle, `1 - epsilon^2` for an ellipse, two for a parabola by
    /// convention (so the shared formula needs no special case; the
    /// result is not a geometric semi-major axis there), and
    /// `epsilon^2 - 1` for a hyperbola.
    pub open spec fn spec_eps_squared(self) -> int {
        match self.kind_spec() {
            OrbitKind::Circle => SCALE as int,
            OrbitKind::Ellipse => SCALE - scaled_mul(self.epsilon as int, self.epsilon as int),
            OrbitKind::Parabola => 2 * SCALE as int,
            OrbitKind::Hyperbola => scaled_mul(self.epsilon as int, self.epsilon as int)
                - SCALE as int,
        }
    }

    fn eps_squared(&self) -> (r: i64)
        requires
            self.valid(),
        ensures
            r as int == self.spec_eps_squared(),
            0 < r <= 1_000_000_000_000_000,
    {
        proof {
            lemma_eps_squared_bounds(*self);
            lemma_mul_div_cap(self.epsilon as int, self.epsilon as int, SCALE as int,
                MAX_EPSILON as int, MAX_EPSILON as int, 1_000_000_000_000_000);
        }
        match self.kind() {
            OrbitKind::Circle => SCALE,
            OrbitKind::Ellipse => SCALE - scaled_mul_i64(self.epsilon, self.epsilon),
            OrbitKind::Parabola => 2 * SCALE,
            OrbitKind::Hyperbola => scaled_mul_i64(self.epsilon, self.epsilon) - SCALE,
        }
    }

    /// The semi-latus rectum over the kind-dispatched divisor: for a
    /// circle or ellipse the distance from the conic's center to the
    /// perihelion, for a hyperbola the distance from the central body to
    /// the perihelion, for a parabola half the semi-latus rectum by the
    /// same convention as `spec_eps_squared`.
    pub open spec fn spec_semi_major(self) -> int {
        scaled_div(self.p as int, self.spec_eps_squared())
    }

    /// Distance from the conic's center to perihelion (see
    /// `spec_semi_major` for the open-conic conventions).
    pub fn semi_major(&self) -> (a: i64)
        requires
            self.valid(),
            self.spec_semi_major() <= i64::MAX,
        ensures
            a as int == self.spec_semi_major(),
            a >= 0,
    {
        let e2 = self.eps_squared();
        proof {
            lemma_eps_squared_bounds(*self);
            lemma_mul_div_pos(self.p as int, SCALE as int, e2 as int);
            lemma_mag_mul_div(self.p as int, SCALE as int, e2 as int);
            vstd::arithmetic::mul::lemma_mul_nonnegative(self.p as int, SCALE as int);
            vstd::arithmetic::div_mod::lemma_div_pos_is_pos(self.p as int * SCALE as int,
                e2 as int);
        }
        scaled_div_i64(self.p, e2)
    }

    /// Distance from the conic's center to the point at a quarter turn
    /// from the perihelion: `p` for a circle, `p / sqrt(1 - epsilon^2)`
    /// for an ellipse. Undefined for the open conics.
    pub open spec fn spec_semi_minor(self) -> int {
        if self.kind_spec() == OrbitKind::Circle {
            self.p as int
        } else {
            scaled_div(self.p as int, scaled_sqrt(self.spec_eps_squared()))
        }
    }

    /// Semi-minor axis of a closed conic. The open conics have none, and
    /// on them the call is refused rather than given a made-up value.
    pub fn semi_minor(&self) -> (b: i64)
        requires
            self.valid(),
            self.kind_spec() == OrbitKind::Circle || self.kind_spec() == OrbitKind::Ellipse,
            self.spec_semi_minor() <= i64::MAX,
        ensures
            b as int == self.spec_semi_minor(),
            b >= 0,
    {
        match self.kind() {
            OrbitKind::Circle => self.p,
            _ => {
                let e2 = self.eps_squared();
                let root = scaled_sqrt_i64(e2);
                proof {
                    lemma_eps_squared_bounds(*self);
                    crate::num::lemma_isqrt_bounds(e2 as int * SCALE as int);
                    assert(root >= 1) by {
                        if root == 0 {
                            assert(e2 as int * SCALE as int >= 1) by (nonlinear_arith)
                                requires
                                    e2 >= 1,
                                    SCALE == 1_000_000_000,
                            ;
                        }
                    }
                    lemma_mul_div_pos(self.p as int, SCALE as int, root as int);
                    lemma_mag_mul_div(self.p as int, SCALE as int, root as int);
                    vstd::arithmetic::mul::lemma_mul_nonnegative(self.p as int, SCALE as int);
                    vstd::arithmetic::div_mod::lemma_div_pos_is_pos(self.p as int * SCALE as int,
                        root as int);
                }
                scaled_div_i64(self.p, root)
            },
        }
    }

    /// Area enclosed by a closed conic: `pi * semi_major * semi_minor`.
    pub open spec fn spec_area(self) -> int {
        scaled_mul(scaled_mul(self.spec_semi_major(), self.spec_semi_minor()), PI as int)
    }

    /// Area of a closed conic; inherits `semi_minor`'s refusal of the
    /// open conics.
    pub fn area(&self) -> (area: i64)
        requires
            self.valid(),
            self.kind_spec() == OrbitKind::Circle || self.kind_spec() == OrbitKind::Ellipse,
            self.spec_semi_major() <= i64::MAX,
            self.spec_semi_minor() <= i64::MAX,
            scaled_mul(self.spec_semi_major(), self.spec_semi_minor()) <= i64::MAX,
            self.spec_area() <= i64::MAX,
        ensures
            area as int == self.spec_area(),
    {
        let a = self.semi_major();
        let b = self.semi_minor();
        proof {
            lemma_mag_mul_div(a as int, b as int, SCALE as int);
            lemma_mul_div_pos(a as int, b as int, SCALE as int);
            vstd::arithmetic::mul::lemma_mul_nonnegative(a as int, b as int);
            vstd::arithmetic::div_mod::lemma_div_pos_is_pos(a as int * b as int, SCALE as int);
        }
        let ab = scaled_mul_i64(a, b);
        proof {
            lemma_mag_mul_div(ab as int, PI as int, SCALE as int);
            lemma_mul_div_pos(ab as int, PI as int, SCALE as int);
            vstd::arithmetic::mul::lemma_mul_nonnegative(ab as int, PI as int);
            vstd::arithmetic::div_mod::lemma_div_pos_is_pos(ab as int * PI as int, SCALE as int);
        }
        scaled_mul_i64(ab, PI)
    }

    /// The rate at which the mean anomaly advances:
    /// `sqrt(1 / semi_major) / semi_major`.
    pub open spec fn spec_mean_motion(self) -> int {
        scaled_div(scaled_sqrt(scaled_div(SCALE as int, self.spec_semi_major())),
            self.spec_semi_major())
    }

    /// Mean motion of the orbit; needs a semi-major axis of at least one
    /// tick.
    pub fn mean_motion(&self) -> (rate: i64)
        requires
            self.valid(),
            1 <= self.spec_semi_major() <= i64::MAX,
            self.spec_mean_motion() <= i64::MAX,
        ensures
            rate as int == self.spec_mean_motion(),
            rate >= 0,
    {
        let a = self.semi_major();
        proof {
            lemma_mul_div_pos(SCALE as int, SCALE as int, a as int);
            lemma_mag_mul_div(SCALE as int, SCALE as int, a as int);
            vstd::arithmetic::mul::lemma_mul_left_inequality(1_000_000_000_000_000_000, 1,
                a as int);
            lemma_mul_div_cap(SCALE as int, SCALE as int, a as int, SCALE as int, SCALE as int,
                1_000_000_000_000_000_000);
            vstd::arithmetic::div_mod::lemma_div_pos_is_pos(SCALE as int * SCALE as int, a as int);
        }
        let inv = scaled_div_i64(SCALE, a);
        let root = scaled_sqrt_i64(inv);
        proof {
            lemma_mag_mul_div(root as int, SCALE as int, a as int);
            lemma_mul_div_pos(root as int, SCALE as int, a as int);
            vstd::arithmetic::mul::lemma_mul_nonnegative(root as int, SCALE as int);
            vstd::arithmetic::div_mod::lemma_div_pos_is_pos(root as int * SCALE as int, a as int);
        }
        scaled_div_i64(root, a)
    }
}

/// The kind-dispatched divisor is positive and at most `10^15` ticks for
/// every valid orbit.
pub(crate) proof fn lemma_eps_squared_bounds(orbit: Orbit)
    requires
        orbit.valid(),
    ensures
        0 < orbit.spec_eps_squared() <= 1_000_000_000_000_000,
        orbit.kind_spec() == OrbitKind::Ellipse ==> orbit.spec_eps_squared() <= SCALE,
{
    let e = orbit.epsilon as int;
    lemma_mul_div_pos(e, e, SCALE as int);
    match kind_of(e) {
        OrbitKind::Circle => {},
        OrbitKind::Parabola => {},
        OrbitKind::Ellipse => {
            crate::num::lemma_sq_div_bounds(e, 0, SCALE - KIND_BAND, SCALE as int);
            assert((SCALE - KIND_BAND) * (SCALE - KIND_BAND) / SCALE as int == SCALE - 2
                * KIND_BAND) by {
                vstd::arithmetic::div_mod::lemma_fundamental_div_mod_converse(
                    (SCALE - KIND_BAND) * (SCALE - KIND_BAND), SCALE as int,
                    SCALE - 2 * KIND_BAND as int, 1_000_000);
            }
        },
        OrbitKind::Hyperbola => {
            crate::num::lemma_sq_div_bounds(e, SCALE + KIND_BAND, MAX_EPSILON as int, SCALE as int);
            assert((SCALE + KIND_BAND) * (SCALE + KIND_BAND) / SCALE as int == SCALE + 2
                * KIND_BAND) by {
                vstd::arithmetic::div_mod::lemma_fundamental_div_mod_converse(
                    (SCALE + KIND_BAND) * (SCALE + KIND_BAND), SCALE as int,
                    SCALE + 2 * KIND_BAND as int, 1_000_000);
            }
            assert(MAX_EPSILON as int * MAX_EPSILON as int / SCALE as int
                <= 1_000_000_000_000_000) by {
                vstd::arithmetic::div_mod::lemma_fundamental_div_mod_converse(
                    MAX_EPSILON as int * MAX_EPSILON as int, SCALE as int,
                    1_000_000_000_000_000int, 0);
            }
        },
    }
}

/// The perihelion radius is nonnegative and no larger than the
/// semi-latus rectum.
proof fn lemma_perihelion_bounds(orbit: Orbit)
    requires
        orbit.valid(),
    ensures
        orbit.denom(SCALE as int) == SCALE as int + orbit.epsilon as int,
        0 <= orbit.radius_at(SCALE as int) <= orbit.p,
        mag(orbit.radius_at(SCALE as int)) <= i64::MAX,
{
    lemma_scaled_mul_scale(orbit.epsilon as int);
    let den = SCALE as int + orbit.epsilon as int;
    let x = orbit.p as int * SCALE as int;
    assert(orbit.radius_at(SCALE as int) == x / den) by {
        lemma_mul_div_pos(orbit.p as int, SCALE as int, den);
    }
    vstd::arithmetic::mul::lemma_mul_nonnegative(orbit.p as int, SCALE as int);
    lemma_div_is_ordered_by_denominator(x, SCALE as int, den);
    assert(x / SCALE as int == orbit.p) by {
        vstd::arithmetic::div_mod::lemma_div_by_multiple(orbit.p as int, SCALE as int);
    }
    assert(x / den >= 0) by {
        vstd::arithmetic::div_mod::lemma_div_pos_is_pos(x, den);
    }
}

} // verus!

