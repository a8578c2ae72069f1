//! When a ray strikes: the rules that accept or refuse a crossing.
//!
//! The caller does the arithmetic of a crossing and hands over the numbers
//! it turns on; this module holds the rules. A wall face is struck if the
//! ray is not parallel to it, meets its plane within range, and meets it
//! inside the face. A player is a sphere: it is struck at the nearer of the
//! two places where the ray pierces it that lie ahead.

use crate::scalar::Scalar;
use vstd::prelude::*;

verus! {

/// The bit pattern of 0.000001: the nearest a strike may be, and the
/// magnitude below which a number counts as zero.
pub const MIN_SHOT_HIT_TIME_BITS: u32 = 0x3586_37bd;

/// The bit pattern of 100000: the farthest a strike on a wall face may be.
pub const MAX_SHOT_HIT_TIME_BITS: u32 = 0x47c3_5000;

/// The nearest a strike may be, and the magnitude below which a number
/// counts as zero.
pub open spec fn min_time() -> Scalar {
    Scalar { bits: MIN_SHOT_HIT_TIME_BITS }
}

/// The farthest a strike on a wall face may be.
pub open spec fn max_time() -> Scalar {
    Scalar { bits: MAX_SHOT_HIT_TIME_BITS }
}

/// The number zero.
pub open spec fn nought() -> Scalar {
    Scalar { bits: 0 }
}

/// The numbers that a ray and the plane of a face give.
#[derive(Clone, Copy, Debug, PartialEq, Eq, Structural)]
pub struct FaceCrossing {
    /// The face's normal times the ray's direction: zero where the ray runs
    /// along the plane.
    pub slope: Scalar,
    /// The ray parameter at which the ray meets the plane.
    pub t: Scalar,
    /// How far along the first edge the meeting point lies.
    pub along_first: Scalar,
    /// The length of the first edge.
    pub first_length: Scalar,
    /// How far along the second edge the meeting point lies.
    pub along_second: Scalar,
    /// The length of the second edge.
    pub second_length: Scalar,
}

/// The numbers that a ray and a sphere give: the terms of the quadratic
/// whose roots are the ray parameters where the ray pierces the sphere.
#[derive(Clone, Copy, Debug, PartialEq, Eq, Structural)]
pub struct SphereCrossing {
    /// The leading coefficient: the ray's direction times itself.
    pub a: Scalar,
    /// The discriminant: below zero where the ray passes the sphere by.
    pub discriminant: Scalar,
    /// The lesser root.
    pub near: Scalar,
    /// The greater root.
    pub far: Scalar,
}

impl FaceCrossing {
    /// The ray runs along the plane, or as good as.
    pub open spec fn parallel(self) -> bool {
        self.slope.within(min_time())
    }

    /// The ray meets the plane within range.
    pub open spec fn in_range(self) -> bool {
        !self.t.less_than(min_time()) && !max_time().less_than(self.t)
    }

    /// The meeting point lies inside the face: along each edge, neither
    /// before its start nor beyond its end.
    pub open spec fn inside(self) -> bool {
        &&& !self.along_first.less_than(nought())
        &&& !self.first_length.less_than(self.along_first)
        &&& !self.along_second.less_than(nought())
        &&& !self.second_length.less_than(self.along_second)
    }

    /// The ray strikes the face.
    pub open spec fn strikes(self) -> bool {
        !self.parallel() && self.in_range() && self.inside()
    }
}

impl SphereCrossing {
    /// The quadratic has no roots to speak of: its leading coefficient is
    /// as good as zero, or its discriminant is below zero.
    pub open spec fn misses(self) -> bool {
        self.a.within(min_time()) || self.discriminant.less_than(nought())
    }

    /// The ray parameter of the strike: the lesser of the roots that are
    /// greater than zero, if there is one.
    pub open spec fn strike(self) -> Option<Scalar> {
        if self.misses() {
            None
        } else if self.near.positive() && self.far.positive() {
            if self.far.less_than(self.near) {
                Some(self.far)
            } else {
                Some(self.near)
            }
        } else if self.near.positive() {
            Some(self.near)
        } else if self.far.positive() {
            Some(self.far)
        } else {
            None
        }
    }
}

/// A ray that runs along the plane of a face does not strike it.
pub proof fn lemma_parallel_ray_misses(c: FaceCrossing)
    requires
        c.slope.bits == 0 || c.slope.bits == crate::scalar::SIGN_BIT,
    ensures
        !c.strikes(),
{
}

/// What a strike on a sphere is: there is none where the ray passes the
/// sphere by; a strike is a root greater than zero, and no root greater
/// than zero is below it; from inside the sphere, where only the greater
/// root lies ahead, it is that root.
pub proof fn lemma_sphere_strike(c: SphereCrossing)
    ensures
        c.discriminant.less_than(nought()) ==> c.strike() is None,
        c.strike() is Some ==> c.strike()->0.positive() && (c.strike()->0 == c.near
            || c.strike()->0 == c.far),
        c.strike() is Some && c.near.positive() ==> !c.near.less_than(c.strike()->0),
        c.strike() is Some && c.far.positive() ==> !c.far.less_than(c.strike()->0),
        !c.misses() && !c.near.positive() && c.far.positive() ==> c.strike() == Some(c.far),
        !c.misses() && (c.near.positive() || c.far.positive()) ==> c.strike() is Some,
{
}

/// Tells whether the ray strikes the face.
pub fn face_hit(crossing: &FaceCrossing) -> (struck: bool)
    ensures
        struck == crossing.strikes(),
{
    let least = Scalar::from_bits(MIN_SHOT_HIT_TIME_BITS);
    let most = Scalar::from_bits(MAX_SHOT_HIT_TIME_BITS);
    let zero = Scalar::zero();
    if crossing.slope.abs_lt(&least) {
        return false;
    }
    if crossing.t.lt(&least) || most.lt(&crossing.t) {
        return false;
    }
    if crossing.along_first.lt(&zero) || crossing.first_length.lt(&crossing.along_first) {
        return false;
    }
    if crossing.along_second.lt(&zero) || crossing.second_length.lt(&crossing.along_second) {
        return false;
    }
    true
}

/// Gives the ray parameter at which the ray strikes the sphere, if it does.
pub fn sphere_hit(crossing: &SphereCrossing) -> (t: Option<Scalar>)
    ensures
        t == crossing.strike(),
{
    let least = Scalar::from_bits(MIN_SHOT_HIT_TIME_BITS);
    let zero = Scalar::zero();
    if crossing.a.abs_lt(&least) {
        return None;
    }
    if crossing.discriminant.lt(&zero) {
        return None;
    }
    let near_ahead = crossing.near.is_positive();
    let far_ahead = crossing.far.is_positive();
    if near_ahead {
        if far_ahead {
            if crossing.far.lt(&crossing.near) {
                Some(crossing.far)
            } else {
                Some(crossing.near)
            }
        } else {
            Some(crossing.near)
        }
    } else if far_ahead {
        Some(crossing.far)
    } else {
        None
    }
}

} // verus!
