//! The crossings of a ray with one sphere, and which of them a query accepts.

use vstd::prelude::*;

verus! {

/// The two parameters at which the line of a ray crosses a sphere, the nearer
/// one first. A ray that touches the sphere in one point or passes it has no
/// `Roots`.
#[derive(Clone, Copy, Debug, PartialEq, Eq, Structural)]
pub struct Roots {
    near: i64,
    far: i64,
}

impl Roots {
    #[verifier::type_invariant]
    spec fn ordered(self) -> bool {
        self.near <= self.far
    }

    /// The parameter at which the ray enters the sphere.
    pub closed spec fn spec_near(&self) -> i64 {
        self.near
    }

    /// The parameter at which the ray leaves the sphere.
    pub closed spec fn spec_far(&self) -> i64 {
        self.far
    }

    /// The nearer crossing does not come after the farther one. Every value
    /// that executable code holds is well formed.
    pub open spec fn wf(self) -> bool {
        self.near() <= self.far()
    }

    /// Whether `t` lies strictly inside the interval from `t_min` to `t_max`.
    pub open spec fn inside(t: i64, t_min: i64, t_max: i64) -> bool {
        t_min < t && t < t_max
    }

    /// The crossing that a query over the open interval from `t_min` to
    /// `t_max` accepts: the nearer one if it lies inside, else the farther one
    /// if that lies inside, else none.
    pub open spec fn spec_hit(self, t_min: i64, t_max: i64) -> Option<i64> {
        if Self::inside(self.near(), t_min, t_max) {
            Some(self.near())
        } else if Self::inside(self.far(), t_min, t_max) {
            Some(self.far())
        } else {
            None
        }
    }

    /// Pairs two crossings. They are refused when the first comes after the
    /// second.
    pub fn new(near: i64, far: i64) -> (r: Option<Roots>)
        ensures
            near <= far ==> (r matches Some(q) && q.near() == near && q.far() == far),
            near > far ==> r is None,
    {
        if near <= far {
            Some(Roots { near, far })
        } else {
            None
        }
    }

    /// The parameter at which the ray enters the sphere.
    #[verifier::when_used_as_spec(spec_near)]
    pub fn near(&self) -> (t: i64)
        ensures
            t == self.near(),
            t <= self.far(),
    {
        proof {
            use_type_invariant(self);
        }
        self.near
    }

    /// The parameter at which the ray leaves the sphere.
    #[verifier::when_used_as_spec(spec_far)]
    pub fn far(&self) -> (t: i64)
        ensures
            t == self.far(),
            self.near() <= t,
    {
        proof {
            use_type_invariant(self);
        }
        self.far
    }

    /// The crossing accepted strictly inside the interval from `t_min` to
    /// `t_max`, the nearer one tried first.
    pub fn hit(&self, t_min: i64, t_max: i64) -> (r: Option<i64>)
        ensures
            r == self.spec_hit(t_min, t_max),
            self.wf(),
    {
        proof {
            use_type_invariant(self);
        }
        if t_min < self.near && self.near < t_max {
            Some(self.near)
        } else if t_min < self.far && self.far < t_max {
            Some(self.far)
        } else {
            None
        }
    }
}

/// A tighter upper bound keeps the accepted crossing if it is still below the
/// bound, and accepts nothing otherwise: it never brings the farther crossing
/// forward in place of the nearer one.
pub proof fn lemma_tighter_bound(q: Roots, t_min: i64, bound: i64, t_max: i64)
    requires
        q.wf(),
        bound <= t_max,
    ensures
        q.spec_hit(t_min, bound) == match q.spec_hit(t_min, t_max) {
            Some(t) => if t < bound { Some(t) } else { None },
            None => None,
        },
{
}

} // verus!
