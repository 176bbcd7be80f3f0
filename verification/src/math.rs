//! The base angle type used in the crate.

use vstd::prelude::*;
use crate::rational::Rat;
use crate::rational::in_range;
use crate::rational::rc_add;
use crate::rational::rc_div;
use crate::rational::rc_mul;
use crate::rational::rc_nrm;
use crate::rational::rc_rem;
use crate::rational::rc_sub;
use crate::rational::rp_eq;
use crate::rational::rp_red;

verus! {

/// An angular quantity, stored as an exact number of degrees.
///
/// Constructors and accessors exist for degrees and full rotations;
/// all operations return new values in lowest terms.
#[derive(Clone, Copy, Debug, PartialEq, Eq, Structural)]
pub struct Angle {
    pub deg: Rat,
}

impl View for Angle {
    type V = (int, int);

    /// The exact degree value, as a fraction.
    open spec fn view(&self) -> (int, int) {
        self.deg@
    }
}

impl Default for Angle {
    /// The zero angle.
    fn default() -> (r: Angle)
        ensures
            r.wf(),
            r@ == (0int, 1int),
    {
        Angle { deg: Rat { num: 0, den: 1 } }
    }
}

impl Angle {
    pub open spec fn wf(self) -> bool {
        self.deg.wf()
    }

    /// Construct from a degree value.
    pub fn from_degrees(deg: Rat) -> (r: Angle)
        requires
            deg.wf(),
        ensures
            r.wf(),
            r@ == deg@,
    {
        Angle { deg }
    }

    /// The degree value; exactly the value the angle was built from.
    pub fn degrees(&self) -> (r: Rat)
        ensures
            r == self.deg,
            r@ == self@,
    {
        self.deg
    }

    /// Construct from a number of full rotations (1 rotation = 360 degrees).
    pub fn from_rotations(rot: Rat) -> (r: Angle)
        requires
            rot.wf(),
            in_range(rot@.0 * 360),
        ensures
            r.wf(),
            r@ == rp_red((rot@.0 * 360, rot@.1)),
            rp_eq(r@, (rot@.0 * 360, rot@.1)),
    {
        let n = match rot.num.checked_mul(360) {
            Some(v) => v,
            None => {
                proof {
                    assert(false);
                }
                0
            },
        };
        Angle { deg: crate::rational::reduce(n, rot.den) }
    }

    /// The number of full rotations (degrees divided by 360).
    pub fn rotations(&self) -> (r: Rat)
        requires
            self.wf(),
            in_range(self@.1 * 360),
        ensures
            r.wf(),
            r@ == rp_red((self@.0, self@.1 * 360)),
            rp_eq(r@, (self@.0, self@.1 * 360)),
    {
        let d = match self.deg.den.checked_mul(360) {
            Some(v) => v,
            None => {
                proof {
                    assert(false);
                }
                1
            },
        };
        proof {
            assert(d >= 1);
        }
        crate::rational::reduce(self.deg.num, d)
    }

    /// Normalize into `[0, 360)` degrees: `((x % 360) + 360) % 360`,
    /// computed exactly.
    pub fn normalize(&self) -> (r: Angle)
        requires
            self.wf(),
            in_range(360 * self@.1),
        ensures
            r.wf(),
            rc_nrm(self@) == Some(r@),
            0 <= r@.0 < 360 * r@.1,
    {
        let d = match self.deg.checked_norm360() {
            Some(v) => v,
            None => {
                proof {
                    assert(false);
                }
                self.deg
            },
        };
        Angle { deg: d }
    }

    /// Exact sum of the degree values.
    pub fn add(self, o: Angle) -> (r: Angle)
        requires
            self.wf(),
            o.wf(),
            rc_add(self@, o@) is Some,
        ensures
            r.wf(),
            rc_add(self@, o@) == Some(r@),
    {
        let d = match self.deg.checked_add(o.deg) {
            Some(v) => v,
            None => {
                proof {
                    assert(false);
                }
                self.deg
            },
        };
        Angle { deg: d }
    }

    /// Exact difference of the degree values.
    pub fn sub(self, o: Angle) -> (r: Angle)
        requires
            self.wf(),
            o.wf(),
            rc_sub(self@, o@) is Some,
        ensures
            r.wf(),
            rc_sub(self@, o@) == Some(r@),
    {
        let d = match self.deg.checked_sub(o.deg) {
            Some(v) => v,
            None => {
                proof {
                    assert(false);
                }
                self.deg
            },
        };
        Angle { deg: d }
    }

    /// Product of the degree values (a scalar operation on the degree
    /// representation, not an angular product).
    pub fn mul(self, o: Angle) -> (r: Angle)
        requires
            self.wf(),
            o.wf(),
            rc_mul(self@, o@) is Some,
        ensures
            r.wf(),
            rc_mul(self@, o@) == Some(r@),
    {
        let d = match self.deg.checked_mul(o.deg) {
            Some(v) => v,
            None => {
                proof {
                    assert(false);
                }
                self.deg
            },
        };
        Angle { deg: d }
    }

    /// Quotient of the degree values (a scalar operation on the degree
    /// representation).
    pub fn div(self, o: Angle) -> (r: Angle)
        requires
            self.wf(),
            o.wf(),
            rc_div(self@, o@) is Some,
        ensures
            r.wf(),
            rc_div(self@, o@) == Some(r@),
    {
        let d = match self.deg.checked_div(o.deg) {
            Some(v) => v,
            None => {
                proof {
                    assert(false);
                }
                self.deg
            },
        };
        Angle { deg: d }
    }

    /// Remainder of the degree values; the sign follows the dividend.
    pub fn rem(self, o: Angle) -> (r: Angle)
        requires
            self.wf(),
            o.wf(),
            rc_rem(self@, o@) is Some,
        ensures
            r.wf(),
            rc_rem(self@, o@) == Some(r@),
    {
        let d = match self.deg.checked_rem(o.deg) {
            Some(v) => v,
            None => {
                proof {
                    assert(false);
                }
                self.deg
            },
        };
        Angle { deg: d }
    }

    /// Whether the degree value is strictly below the integer `k`.
    pub fn lt_deg(&self, k: i128) -> (r: bool)
        requires
            self.wf(),
            k > i128::MIN,
        ensures
            r == crate::rational::rp_lt(self@, (k as int, 1int)),
    {
        self.deg.lt_int(k)
    }

    /// Whether the degree value is strictly above the integer `k`.
    pub fn gt_deg(&self, k: i128) -> (r: bool)
        requires
            self.wf(),
            k > i128::MIN,
        ensures
            r == crate::rational::rp_lt((k as int, 1int), self@),
    {
        self.deg.gt_int(k)
    }

    /// Half a turn: 180 degrees.
    pub fn half_turn() -> (r: Angle)
        ensures
            r.wf(),
            r@ == (180int, 1int),
    {
        Angle { deg: Rat { num: 180, den: 1 } }
    }

    /// A full turn: 360 degrees.
    pub fn full_turn() -> (r: Angle)
        ensures
            r.wf(),
            r@ == (360int, 1int),
    {
        Angle { deg: Rat { num: 360, den: 1 } }
    }
}

} // verus!
