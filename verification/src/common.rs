//! Celestial and terrestrial coordinates, Julian dates, sidereal time,
//! and the affine pixel-to-sky transform.

use vstd::prelude::*;
use vstd::arithmetic::div_mod::lemma_div_multiples_vanish;
use vstd::arithmetic::div_mod::lemma_mod_division_less_than_divisor;
use crate::math::Angle;
use crate::rational::Rat;
use crate::rational::rc_add;
use crate::rational::rc_div;
use crate::rational::rc_mul;
use crate::rational::rc_nrm;
use crate::rational::rc_rem;
use crate::rational::rc_sub;
use crate::rational::rp_lt;
use crate::rational::rp_red;
use crate::rational::t_mod;

verus! {

/// An instant, as a real-valued Julian Date (days since the Julian epoch).
#[derive(Clone, Copy, Debug, PartialEq, Eq, Structural)]
pub struct JulianDate {
    pub t: Rat,
}

/// A signed duration in days.
#[derive(Clone, Copy, Debug, PartialEq, Eq, Structural)]
pub struct JulianInterval {
    pub days: Rat,
}

impl View for JulianDate {
    type V = (int, int);

    open spec fn view(&self) -> (int, int) {
        self.t@
    }
}

impl View for JulianInterval {
    type V = (int, int);

    open spec fn view(&self) -> (int, int) {
        self.days@
    }
}

impl Default for JulianDate {
    fn default() -> (r: JulianDate)
        ensures
            r.wf(),
            r@ == (0int, 1int),
    {
        JulianDate { t: Rat { num: 0, den: 1 } }
    }
}

impl Default for JulianInterval {
    fn default() -> (r: JulianInterval)
        ensures
            r.wf(),
            r@ == (0int, 1int),
    {
        JulianInterval { days: Rat { num: 0, den: 1 } }
    }
}

/// The standard epoch J2000, JD 2451545.0, as a spec fraction.
pub open spec fn jd_j2000() -> (int, int) {
    (2451545int, 1int)
}

/// The sub-day remainder of a Julian date, reduced to lowest terms.
pub open spec fn jd_frac(a: (int, int)) -> (int, int) {
    rp_red((t_mod(a.0, a.1), a.1))
}

impl JulianDate {
    pub open spec fn wf(self) -> bool {
        self.t.wf()
    }

    /// Construct from a day count.
    pub fn new(t: Rat) -> (r: JulianDate)
        requires
            t.wf(),
        ensures
            r.wf(),
            r@ == t@,
    {
        JulianDate { t }
    }

    /// The standard epoch J2000 (JD 2451545.0).
    pub fn j2000() -> (r: JulianDate)
        ensures
            r.wf(),
            r@ == jd_j2000(),
    {
        JulianDate { t: Rat { num: 2451545, den: 1 } }
    }

    /// The day count.
    pub fn julian(&self) -> (r: Rat)
        ensures
            r == self.t,
            r@ == self@,
    {
        self.t
    }

    /// The sub-day remainder (the sign follows the date, as `% 1.0` does).
    pub fn frac(&self) -> (r: JulianInterval)
        requires
            self.wf(),
        ensures
            r.wf(),
            r@ == jd_frac(self@),
    {
        let num = self.t.num;
        let den = self.t.den;
        let rm = if num >= 0 {
            ((num as u128) % (den as u128)) as i128
        } else {
            -((((-num) as u128) % (den as u128)) as i128)
        };
        proof {
            if num >= 0 {
                lemma_mod_division_less_than_divisor(num as int, den as int);
            } else {
                lemma_mod_division_less_than_divisor(-(num as int), den as int);
            }
            assert(rm as int == t_mod(self@.0, self@.1));
        }
        JulianInterval { days: crate::rational::reduce(rm, den) }
    }

    /// Date minus date yields a signed interval in days.
    pub fn sub(self, rhs: JulianDate) -> (r: JulianInterval)
        requires
            self.wf(),
            rhs.wf(),
            rc_sub(self@, rhs@) is Some,
        ensures
            r.wf(),
            rc_sub(self@, rhs@) == Some(r@),
    {
        let d = match self.t.checked_sub(rhs.t) {
            Some(v) => v,
            None => {
                proof {
                    assert(false);
                }
                self.t
            },
        };
        JulianInterval { days: d }
    }
}

impl JulianInterval {
    pub open spec fn wf(self) -> bool {
        self.days.wf()
    }

    /// Construct from a day count.
    pub fn new(days: Rat) -> (r: JulianInterval)
        requires
            days.wf(),
        ensures
            r.wf(),
            r@ == days@,
    {
        JulianInterval { days }
    }

    /// One Julian century: 36525 days.
    pub fn julian_century() -> (r: JulianInterval)
        ensures
            r.wf(),
            r@ == (36525int, 1int),
    {
        JulianInterval { days: Rat { num: 36525, den: 1 } }
    }

    /// The day count.
    pub fn julian(&self) -> (r: Rat)
        ensures
            r == self.days,
            r@ == self@,
    {
        self.days
    }

    /// Exact sum of two intervals.
    pub fn add(self, o: JulianInterval) -> (r: JulianInterval)
        requires
            self.wf(),
            o.wf(),
            rc_add(self@, o@) is Some,
        ensures
            r.wf(),
            rc_add(self@, o@) == Some(r@),
    {
        let d = match self.days.checked_add(o.days) {
            Some(v) => v,
            None => {
                proof {
                    assert(false);
                }
                self.days
            },
        };
        JulianInterval { days: d }
    }

    /// Exact difference of two intervals.
    pub fn sub(self, o: JulianInterval) -> (r: JulianInterval)
        requires
            self.wf(),
            o.wf(),
            rc_sub(self@, o@) is Some,
        ensures
            r.wf(),
            rc_sub(self@, o@) == Some(r@),
    {
        let d = match self.days.checked_sub(o.days) {
            Some(v) => v,
            None => {
                proof {
                    assert(false);
                }
                self.days
            },
        };
        JulianInterval { days: d }
    }

    /// Exact product of the day counts (a scalar operation).
    pub fn mul(self, o: JulianInterval) -> (r: JulianInterval)
        requires
            self.wf(),
            o.wf(),
            rc_mul(self@, o@) is Some,
        ensures
            r.wf(),
            rc_mul(self@, o@) == Some(r@),
    {
        let d = match self.days.checked_mul(o.days) {
            Some(v) => v,
            None => {
                proof {
                    assert(false);
                }
                self.days
            },
        };
        JulianInterval { days: d }
    }

    /// Exact quotient of the day counts (a scalar operation).
    pub fn div(self, o: JulianInterval) -> (r: JulianInterval)
        requires
            self.wf(),
            o.wf(),
            rc_div(self@, o@) is Some,
        ensures
            r.wf(),
            rc_div(self@, o@) == Some(r@),
    {
        let d = match self.days.checked_div(o.days) {
            Some(v) => v,
            None => {
                proof {
                    assert(false);
                }
                self.days
            },
        };
        JulianInterval { days: d }
    }
}

/// Time algebra: for Julian dates `a` and `b`, the interval
/// `(a - b) + (b - a)` is exactly the zero interval, whenever the three
/// exact operations stay within the 128-bit range. `x`, `y` and `z`
/// are the fractions [`JulianDate::sub`] and [`JulianInterval::add`]
/// return.
pub proof fn lemma_time_algebra(
    a: (int, int),
    b: (int, int),
    x: (int, int),
    y: (int, int),
    z: (int, int),
)
    requires
        crate::rational::rp_wf(a),
        crate::rational::rp_wf(b),
        rc_sub(a, b) == Some(x),
        rc_sub(b, a) == Some(y),
        rc_add(x, y) == Some(z),
    ensures
        z == (0int, 1int),
{
    let s1 = crate::rational::rp_sub(a, b);
    let s2 = crate::rational::rp_sub(b, a);
    crate::rational::lemma_ops_wf(a, b);
    crate::rational::lemma_ops_wf(b, a);
    crate::rational::lemma_lcm_eq(a, b);
    crate::rational::lemma_lcm_eq(b, a);
    crate::rational::lemma_red_eq(crate::rational::rl_sub(a, b));
    crate::rational::lemma_red_eq(crate::rational::rl_sub(b, a));
    crate::rational::lemma_eq_trans(x, crate::rational::rl_sub(a, b), s1);
    crate::rational::lemma_eq_trans(y, crate::rational::rl_sub(b, a), s2);
    assert(s1.1 == a.1 * b.1);
    assert(s2.1 == b.1 * a.1);
    assert(a.1 * b.1 == b.1 * a.1) by (nonlinear_arith);
    assert(s2.0 == -s1.0);
    assert(crate::rational::rp_add(s1, s2).0 == s1.0 * s2.1 + s2.0 * s1.1);
    assert(s1.0 * s2.1 + s2.0 * s1.1 == 0) by (nonlinear_arith)
        requires
            s2.1 == s1.1,
            s2.0 == -s1.0,
    ;
    crate::rational::lemma_ops_wf(s1, s2);
    crate::rational::lemma_ops_wf(x, y);
    crate::rational::lemma_add_congr(x, s1, y, s2);
    crate::rational::lemma_lcm_eq(x, y);
    crate::rational::lemma_red_eq(crate::rational::rl_add(x, y));
    crate::rational::lemma_eq_trans(
        crate::rational::rl_add(x, y),
        crate::rational::rp_add(x, y),
        crate::rational::rp_add(s1, s2),
    );
    assert(crate::rational::rl_add(x, y).0 == 0) by (nonlinear_arith)
        requires
            crate::rational::rl_add(x, y).0 * crate::rational::rp_add(s1, s2).1 == crate::rational::rp_add(
                s1,
                s2,
            ).0 * crate::rational::rl_add(x, y).1,
            crate::rational::rp_add(s1, s2).0 == 0,
            crate::rational::rp_add(s1, s2).1 >= 1,
    ;
    assert(z == crate::rational::rp_red(crate::rational::rl_add(x, y)));
}

/// Observer latitude and longitude on Earth
/// (west longitudes negative, azimuth zero at North).
#[derive(Clone, Copy, Debug, PartialEq, Eq, Structural)]
pub struct GroundCoord {
    pub lat: Angle,
    pub long: Angle,
}

impl GroundCoord {
    pub open spec fn wf(self) -> bool {
        self.lat.wf() && self.long.wf()
    }

    pub fn from_lat_long(lat: Angle, long: Angle) -> (r: GroundCoord)
        ensures
            r.lat == lat,
            r.long == long,
    {
        GroundCoord { lat, long }
    }

    pub fn lat_long(&self) -> (r: (Angle, Angle))
        ensures
            r.0 == self.lat,
            r.1 == self.long,
    {
        (self.lat, self.long)
    }
}

impl Default for GroundCoord {
    fn default() -> (r: GroundCoord)
        ensures
            r.wf(),
            r.lat@ == (0int, 1int),
            r.long@ == (0int, 1int),
    {
        GroundCoord { lat: Angle::default(), long: Angle::default() }
    }
}

/// An equatorial coordinate (right ascension, declination), tagged with
/// the date at which it is interpreted.
#[derive(Clone, Copy, Debug, PartialEq, Eq, Structural)]
pub struct SkyCoord {
    pub ra: Angle,
    pub dec: Angle,
    pub date: JulianDate,
}

impl SkyCoord {
    pub open spec fn wf(self) -> bool {
        self.ra.wf() && self.dec.wf() && self.date.wf()
    }

    /// Construct from (ra, dec); the date defaults to J2000.
    pub fn from_ra_dec(ra: Angle, dec: Angle) -> (r: SkyCoord)
        ensures
            r.ra == ra,
            r.dec == dec,
            r.date@ == jd_j2000(),
            r.date.wf(),
    {
        SkyCoord { ra, dec, date: JulianDate::j2000() }
    }

    /// Construct from (ra, dec) and an explicit date.
    pub fn from_ra_dec_date(ra: Angle, dec: Angle, date: JulianDate) -> (r: SkyCoord)
        ensures
            r.ra == ra,
            r.dec == dec,
            r.date == date,
    {
        SkyCoord { ra, dec, date }
    }

    /// The (ra, dec) pair.
    pub fn ra_dec(&self) -> (r: (Angle, Angle))
        ensures
            r.0 == self.ra,
            r.1 == self.dec,
    {
        (self.ra, self.dec)
    }

    /// The date the coordinate is valid at.
    pub fn date(&self) -> (r: JulianDate)
        ensures
            r == self.date,
    {
        self.date
    }
}

impl Default for SkyCoord {
    fn default() -> (r: SkyCoord)
        ensures
            r.wf(),
            r.ra@ == (0int, 1int),
            r.dec@ == (0int, 1int),
            r.date@ == (0int, 1int),
    {
        SkyCoord { ra: Angle::default(), dec: Angle::default(), date: JulianDate::default() }
    }
}

/// The linear rate of the Earth Rotation Angle, in rotations per day:
/// 0.00273781191135448.
pub open spec fn era_linear() -> (int, int) {
    (273781191135448int, 100000000000000000int)
}

/// The Earth Rotation Angle at the epoch, in rotations: 0.7790572732640.
pub open spec fn era_offset() -> (int, int) {
    (7790572732640int, 10000000000000int)
}

/// The Earth Rotation Angle computation, step for step: in rotations,
/// `0.7790572732640 + 0.00273781191135448 * (jd - J2000) + frac(jd)`,
/// converted to degrees and normalized into `[0, 360)`.
/// `None` marks 128-bit overflow of an intermediate value.
pub open spec fn era_steps(t: (int, int)) -> Option<(int, int)> {
    match rc_sub(t, jd_j2000()) {
        Some(d) => match rc_mul(era_linear(), d) {
            Some(m) => match rc_add(era_offset(), m) {
                Some(s) => match rc_add(s, jd_frac(t)) {
                    Some(rot) => match rc_mul(rot, (360int, 1int)) {
                        Some(deg) => rc_nrm(deg),
                        None => None,
                    },
                    None => None,
                },
                None => None,
            },
            None => None,
        },
        None => None,
    }
}

/// Earth Rotation Angle of a Julian (UT1) date, normalized to `[0, 360)`
/// degrees. Returns `None` when an intermediate exact value leaves the
/// 128-bit range.
pub fn earth_rotation_angle(julian_date: JulianDate) -> (r: Option<Angle>)
    requires
        julian_date.wf(),
    ensures
        r is Some <==> era_steps(julian_date@) is Some,
        r matches Some(a) ==> a.wf() && era_steps(julian_date@) == Some(a@) && 0 <= a@.0 < 360
            * a@.1,
{
    let c2 = Rat { num: 273781191135448, den: 100000000000000000 };
    let c1 = Rat { num: 7790572732640, den: 10000000000000 };
    let d = match julian_date.t.checked_sub(Rat { num: 2451545, den: 1 }) {
        Some(v) => v,
        None => {
            return None;
        },
    };
    let m = match c2.checked_mul(d) {
        Some(v) => v,
        None => {
            return None;
        },
    };
    let s = match c1.checked_add(m) {
        Some(v) => v,
        None => {
            return None;
        },
    };
    let f = julian_date.frac();
    let rot = match s.checked_add(f.days) {
        Some(v) => v,
        None => {
            return None;
        },
    };
    let deg = match rot.checked_mul(Rat { num: 360, den: 1 }) {
        Some(v) => v,
        None => {
            return None;
        },
    };
    match deg.checked_norm360() {
        Some(v) => Some(Angle::from_degrees(v)),
        None => None,
    }
}

/// Coefficients of the GMST arcsecond series (IAU 2000 explanatory
/// formulation), constant term first.
pub open spec fn gmst_c0() -> (int, int) {
    (14506int, 1000000int)
}

pub open spec fn gmst_c1() -> (int, int) {
    (4612156534int, 1000000int)
}

pub open spec fn gmst_c2() -> (int, int) {
    (13915817int, 10000000int)
}

pub open spec fn gmst_c3() -> (int, int) {
    (-44int, 100000000int)
}

pub open spec fn gmst_c4() -> (int, int) {
    (-29956int, 1000000000int)
}

pub open spec fn gmst_c5() -> (int, int) {
    (-368int, 10000000000int)
}

/// One Horner step: `coef + tc * acc`.
pub open spec fn horner_step(tc: (int, int), coef: (int, int), acc: Option<(int, int)>) -> Option<
    (int, int),
> {
    match acc {
        Some(a) => match rc_mul(tc, a) {
            Some(m) => rc_add(coef, m),
            None => None,
        },
        None => None,
    }
}

/// The GMST arcsecond polynomial, evaluated by Horner's rule at the
/// number of Julian centuries since J2000.
pub open spec fn gmst_poly(tc: (int, int)) -> Option<(int, int)> {
    horner_step(
        tc,
        gmst_c0(),
        horner_step(
            tc,
            gmst_c1(),
            horner_step(
                tc,
                gmst_c2(),
                horner_step(tc, gmst_c3(), horner_step(tc, gmst_c4(), Some(gmst_c5()))),
            ),
        ),
    )
}

/// The Greenwich Mean Sidereal Time computation, step for step:
/// `ERA(jd) + P((jd - J2000) / 36525) / 3600` in degrees, where `P` is
/// the arcsecond series above. The result is not normalized.
pub open spec fn gmst_steps(t: (int, int)) -> Option<(int, int)> {
    match era_steps(t) {
        Some(era) => match rc_sub(t, jd_j2000()) {
            Some(d) => match rc_div(d, (36525int, 1int)) {
                Some(tc) => match gmst_poly(tc) {
                    Some(p) => match rc_div(p, (3600int, 1int)) {
                        Some(pd) => rc_add(era, pd),
                        None => None,
                    },
                    None => None,
                },
                None => None,
            },
            None => None,
        },
        None => None,
    }
}

/// One executable Horner step, matching [`horner_step`].
fn horner_exec(tc: Rat, coef: Rat, acc: Rat) -> (r: Option<Rat>)
    requires
        tc.wf(),
        coef.wf(),
        acc.wf(),
    ensures
        r is Some <==> horner_step(tc@, coef@, Some(acc@)) is Some,
        r matches Some(c) ==> c.wf() && horner_step(tc@, coef@, Some(acc@)) == Some(c@),
{
    let m = match tc.checked_mul(acc) {
        Some(v) => v,
        None => {
            return None;
        },
    };
    coef.checked_add(m)
}

/// Greenwich Mean Sidereal Time of a Julian (UT1) date, in degrees,
/// not normalized: the Earth Rotation Angle plus the IAU 2000 arcsecond
/// series converted to degrees. Returns `None` when an intermediate
/// exact value leaves the 128-bit range.
pub fn greenwich_mean_sidereal_time(julian_date: JulianDate) -> (r: Option<Angle>)
    requires
        julian_date.wf(),
    ensures
        r is Some <==> gmst_steps(julian_date@) is Some,
        r matches Some(a) ==> a.wf() && gmst_steps(julian_date@) == Some(a@),
{
    let era = match earth_rotation_angle(julian_date) {
        Some(v) => v,
        None => {
            return None;
        },
    };
    let d = match julian_date.t.checked_sub(Rat { num: 2451545, den: 1 }) {
        Some(v) => v,
        None => {
            return None;
        },
    };
    let tc = match d.checked_div(Rat { num: 36525, den: 1 }) {
        Some(v) => v,
        None => {
            return None;
        },
    };
    let a4 = match horner_exec(tc, Rat { num: -29956, den: 1000000000 }, Rat { num: -368, den: 10000000000 }) {
        Some(v) => v,
        None => {
            return None;
        },
    };
    let a3 = match horner_exec(tc, Rat { num: -44, den: 100000000 }, a4) {
        Some(v) => v,
        None => {
            return None;
        },
    };
    let a2 = match horner_exec(tc, Rat { num: 13915817, den: 10000000 }, a3) {
        Some(v) => v,
        None => {
            return None;
        },
    };
    let a1 = match horner_exec(tc, Rat { num: 4612156534, den: 1000000 }, a2) {
        Some(v) => v,
        None => {
            return None;
        },
    };
    let p = match horner_exec(tc, Rat { num: 14506, den: 1000000 }, a1) {
        Some(v) => v,
        None => {
            return None;
        },
    };
    let pd = match p.checked_div(Rat { num: 3600, den: 1 }) {
        Some(v) => v,
        None => {
            return None;
        },
    };
    match era.degrees().checked_add(pd) {
        Some(v) => Some(Angle::from_degrees(v)),
        None => None,
    }
}

/// The local sidereal time computation: `(gmst + long) % 360`.
pub open spec fn lst_steps(g: (int, int), l: (int, int)) -> Option<(int, int)> {
    match rc_add(g, l) {
        Some(s) => rc_rem(s, (360int, 1int)),
        None => None,
    }
}

/// Local sidereal time from Greenwich sidereal time and an observer's
/// longitude (west negative): `(gmst + long) % 360` degrees, with the
/// sign convention of the remainder operator.
pub fn local_sidereal_time(gmst: Angle, long: Angle) -> (r: Option<Angle>)
    requires
        gmst.wf(),
        long.wf(),
    ensures
        r is Some <==> lst_steps(gmst@, long@) is Some,
        r matches Some(a) ==> a.wf() && lst_steps(gmst@, long@) == Some(a@),
{
    let s = match gmst.degrees().checked_add(long.degrees()) {
        Some(v) => v,
        None => {
            return None;
        },
    };
    match s.checked_rem(Rat { num: 360, den: 1 }) {
        Some(v) => Some(Angle::from_degrees(v)),
        None => None,
    }
}

/// The hour-angle folding: `lst - ra`, then one full turn added when the
/// difference is below zero, or subtracted when it is above half a turn.
pub open spec fn hour_angle_steps(lst: (int, int), ra: (int, int)) -> Option<(int, int)> {
    match rc_sub(lst, ra) {
        Some(x) => if rp_lt(x, (0int, 1int)) {
            rc_add(x, (360int, 1int))
        } else if rp_lt((180int, 1int), x) {
            rc_sub(x, (360int, 1int))
        } else {
            Some(x)
        },
        None => None,
    }
}

/// The hour angle of a target: the local sidereal time minus the right
/// ascension, folded into `(-180, 180]` degrees by the piecewise rule
/// of [`hour_angle_steps`].
pub fn hour_angle(lst: Angle, ra: Angle) -> (r: Option<Angle>)
    requires
        lst.wf(),
        ra.wf(),
    ensures
        r is Some <==> hour_angle_steps(lst@, ra@) is Some,
        r matches Some(a) ==> a.wf() && hour_angle_steps(lst@, ra@) == Some(a@),
{
    let x = match lst.degrees().checked_sub(ra.degrees()) {
        Some(v) => v,
        None => {
            return None;
        },
    };
    if x.lt_int(0) {
        match x.checked_add(Rat { num: 360, den: 1 }) {
            Some(v) => Some(Angle::from_degrees(v)),
            None => None,
        }
    } else if x.gt_int(180) {
        match x.checked_sub(Rat { num: 360, den: 1 }) {
            Some(v) => Some(Angle::from_degrees(v)),
            None => None,
        }
    } else {
        Some(Angle::from_degrees(x))
    }
}

/// The azimuth folding: half a turn subtracted from the raw bearing,
/// then one full turn added when the result is negative.
pub open spec fn azimuth_fold_steps(raw: (int, int)) -> Option<(int, int)> {
    match rc_sub(raw, (180int, 1int)) {
        Some(y) => if rp_lt(y, (0int, 1int)) {
            rc_add(y, (360int, 1int))
        } else {
            Some(y)
        },
        None => None,
    }
}

/// Fold the raw bearing returned by the four-quadrant arc tangent into
/// an azimuth measured from North: subtract half a turn, and add a full
/// turn if the result is negative. For raw bearings in `(-180, 180]`
/// the result lies in `[0, 360)`.
pub fn fold_azimuth(raw: Angle) -> (r: Option<Angle>)
    requires
        raw.wf(),
    ensures
        r is Some <==> azimuth_fold_steps(raw@) is Some,
        r matches Some(a) ==> a.wf() && azimuth_fold_steps(raw@) == Some(a@),
        r matches Some(a) ==> ((rp_lt((-180int, 1int), raw@) && !rp_lt((180int, 1int), raw@))
            ==> 0 <= a@.0 < 360 * a@.1),
{
    let y = match raw.degrees().checked_sub(Rat { num: 180, den: 1 }) {
        Some(v) => v,
        None => {
            return None;
        },
    };
    if y.lt_int(0) {
        match y.checked_add(Rat { num: 360, den: 1 }) {
            Some(v) => {
                proof {
                    if rp_lt((-180int, 1int), raw@) && !rp_lt((180int, 1int), raw@) {
                        lemma_fold_azimuth_range(raw@, y@, v@);
                    }
                }
                Some(Angle::from_degrees(v))
            },
            None => None,
        }
    } else {
        proof {
            if !rp_lt((180int, 1int), raw@) {
                lemma_fold_azimuth_range_high(raw@, y@);
            }
        }
        Some(Angle::from_degrees(y))
    }
}

/// An affine map from image pixel coordinates to sky coordinates in
/// degrees: a 2x2 linear part (the plate-solver CD matrix, stored
/// column-major) plus a translation (the reference sky coordinate).
#[derive(Clone, Copy, Debug, PartialEq, Eq, Structural)]
pub struct WorldTransform {
    pub m00: Rat,
    pub m01: Rat,
    pub m10: Rat,
    pub m11: Rat,
    pub t0: Rat,
    pub t1: Rat,
}

/// The first output of the affine map: `m00 * px + m10 * py + t0`.
pub open spec fn affine_apply_x(w: WorldTransform, px: (int, int), py: (int, int)) -> Option<
    (int, int),
> {
    match rc_mul(w.m00@, px) {
        Some(u1) => match rc_mul(w.m10@, py) {
            Some(u2) => match rc_add(u1, u2) {
                Some(u) => rc_add(u, w.t0@),
                None => None,
            },
            None => None,
        },
        None => None,
    }
}

/// The second output of the affine map: `m01 * px + m11 * py + t1`.
pub open spec fn affine_apply_y(w: WorldTransform, px: (int, int), py: (int, int)) -> Option<
    (int, int),
> {
    match rc_mul(w.m01@, px) {
        Some(u1) => match rc_mul(w.m11@, py) {
            Some(u2) => match rc_add(u1, u2) {
                Some(u) => rc_add(u, w.t1@),
                None => None,
            },
            None => None,
        },
        None => None,
    }
}

/// The determinant of the linear part: `m00 * m11 - m10 * m01`.
pub open spec fn wt_det(w: WorldTransform) -> Option<(int, int)> {
    match rc_mul(w.m00@, w.m11@) {
        Some(p1) => match rc_mul(w.m10@, w.m01@) {
            Some(p2) => rc_sub(p1, p2),
            None => None,
        },
        None => None,
    }
}

/// The first output of the inverse map: `(m11 * (u - t0) - m10 * (v - t1)) / det`.
pub open spec fn inverse_apply_x(w: WorldTransform, u: (int, int), v: (int, int)) -> Option<
    (int, int),
> {
    match wt_det(w) {
        Some(det) => match rc_sub(u, w.t0@) {
            Some(du) => match rc_sub(v, w.t1@) {
                Some(dv) => match rc_mul(w.m11@, du) {
                    Some(p1) => match rc_mul(w.m10@, dv) {
                        Some(p2) => match rc_sub(p1, p2) {
                            Some(n) => rc_div(n, det),
                            None => None,
                        },
                        None => None,
                    },
                    None => None,
                },
                None => None,
            },
            None => None,
        },
        None => None,
    }
}

/// The second output of the inverse map: `(m00 * (v - t1) - m01 * (u - t0)) / det`.
pub open spec fn inverse_apply_y(w: WorldTransform, u: (int, int), v: (int, int)) -> Option<
    (int, int),
> {
    match wt_det(w) {
        Some(det) => match rc_sub(u, w.t0@) {
            Some(du) => match rc_sub(v, w.t1@) {
                Some(dv) => match rc_mul(w.m00@, dv) {
                    Some(p1) => match rc_mul(w.m01@, du) {
                        Some(p2) => match rc_sub(p1, p2) {
                            Some(n) => rc_div(n, det),
                            None => None,
                        },
                        None => None,
                    },
                    None => None,
                },
                None => None,
            },
            None => None,
        },
        None => None,
    }
}

impl WorldTransform {
    pub open spec fn wf(self) -> bool {
        self.m00.wf() && self.m01.wf() && self.m10.wf() && self.m11.wf() && self.t0.wf()
            && self.t1.wf()
    }

    /// Construct from the CD matrix in column-major order
    /// `[m00, m01, m10, m11]` and the reference translation.
    pub fn from_mat2_translation(mat2: [Rat; 4], translation: [Rat; 2]) -> (r: WorldTransform)
        requires
            forall|i: int| 0 <= i < 4 ==> mat2[i].wf(),
            forall|i: int| 0 <= i < 2 ==> translation[i].wf(),
        ensures
            r.wf(),
            r.m00 == mat2[0],
            r.m01 == mat2[1],
            r.m10 == mat2[2],
            r.m11 == mat2[3],
            r.t0 == translation[0],
            r.t1 == translation[1],
    {
        WorldTransform {
            m00: mat2[0],
            m01: mat2[1],
            m10: mat2[2],
            m11: mat2[3],
            t0: translation[0],
            t1: translation[1],
        }
    }

    /// Map a pixel coordinate to the sky coordinate it shows, with the
    /// date defaulting to J2000. `None` marks 128-bit overflow of an
    /// intermediate exact value.
    pub fn pixel_to_world(&self, pixel_coord: (Rat, Rat)) -> (r: Option<SkyCoord>)
        requires
            self.wf(),
            pixel_coord.0.wf(),
            pixel_coord.1.wf(),
        ensures
            r is Some <==> (affine_apply_x(*self, pixel_coord.0@, pixel_coord.1@) is Some
                && affine_apply_y(*self, pixel_coord.0@, pixel_coord.1@) is Some),
            r matches Some(s) ==> s.wf() && affine_apply_x(*self, pixel_coord.0@, pixel_coord.1@)
                == Some(s.ra@) && affine_apply_y(*self, pixel_coord.0@, pixel_coord.1@) == Some(
                s.dec@,
            ) && s.date@ == jd_j2000(),
    {
        let u1 = match self.m00.checked_mul(pixel_coord.0) {
            Some(v) => v,
            None => {
                return None;
            },
        };
        let u2 = match self.m10.checked_mul(pixel_coord.1) {
            Some(v) => v,
            None => {
                return None;
            },
        };
        let us = match u1.checked_add(u2) {
            Some(v) => v,
            None => {
                return None;
            },
        };
        let u = match us.checked_add(self.t0) {
            Some(v) => v,
            None => {
                return None;
            },
        };
        let v1 = match self.m01.checked_mul(pixel_coord.0) {
            Some(v) => v,
            None => {
                return None;
            },
        };
        let v2 = match self.m11.checked_mul(pixel_coord.1) {
            Some(v) => v,
            None => {
                return None;
            },
        };
        let vs = match v1.checked_add(v2) {
            Some(v) => v,
            None => {
                return None;
            },
        };
        let v = match vs.checked_add(self.t1) {
            Some(v) => v,
            None => {
                return None;
            },
        };
        Some(SkyCoord::from_ra_dec(Angle::from_degrees(u), Angle::from_degrees(v)))
    }

    /// Map a sky coordinate back to the pixel coordinate that shows it,
    /// by the closed-form inverse of the 2x2 linear part. `None` when
    /// the linear part is singular, or on 128-bit overflow of an
    /// intermediate exact value.
    pub fn world_to_pixel(&self, world_coord: SkyCoord) -> (r: Option<(Rat, Rat)>)
        requires
            self.wf(),
            world_coord.wf(),
        ensures
            r is Some <==> (inverse_apply_x(*self, world_coord.ra@, world_coord.dec@) is Some
                && inverse_apply_y(*self, world_coord.ra@, world_coord.dec@) is Some),
            r matches Some(p) ==> p.0.wf() && p.1.wf() && inverse_apply_x(
                *self,
                world_coord.ra@,
                world_coord.dec@,
            ) == Some(p.0@) && inverse_apply_y(*self, world_coord.ra@, world_coord.dec@) == Some(
                p.1@,
            ),
    {
        let p1 = match self.m00.checked_mul(self.m11) {
            Some(v) => v,
            None => {
                return None;
            },
        };
        let p2 = match self.m10.checked_mul(self.m01) {
            Some(v) => v,
            None => {
                return None;
            },
        };
        let det = match p1.checked_sub(p2) {
            Some(v) => v,
            None => {
                return None;
            },
        };
        let (u, v) = world_coord.ra_dec();
        let du = match u.degrees().checked_sub(self.t0) {
            Some(v) => v,
            None => {
                return None;
            },
        };
        let dv = match v.degrees().checked_sub(self.t1) {
            Some(v) => v,
            None => {
                return None;
            },
        };
        let xa = match self.m11.checked_mul(du) {
            Some(v) => v,
            None => {
                return None;
            },
        };
        let xb = match self.m10.checked_mul(dv) {
            Some(v) => v,
            None => {
                return None;
            },
        };
        let xn = match xa.checked_sub(xb) {
            Some(v) => v,
            None => {
                return None;
            },
        };
        let x = match xn.checked_div(det) {
            Some(v) => v,
            None => {
                return None;
            },
        };
        let ya = match self.m00.checked_mul(dv) {
            Some(v) => v,
            None => {
                return None;
            },
        };
        let yb = match self.m01.checked_mul(du) {
            Some(v) => v,
            None => {
                return None;
            },
        };
        let yn = match ya.checked_sub(yb) {
            Some(v) => v,
            None => {
                return None;
            },
        };
        let y = match yn.checked_div(det) {
            Some(v) => v,
            None => {
                return None;
            },
        };
        Some((x, y))
    }
}

impl Default for WorldTransform {
    fn default() -> (r: WorldTransform)
        ensures
            r.wf(),
            r.m00@ == (0int, 1int),
            r.m01@ == (0int, 1int),
            r.m10@ == (0int, 1int),
            r.m11@ == (0int, 1int),
            r.t0@ == (0int, 1int),
            r.t1@ == (0int, 1int),
    {
        WorldTransform {
            m00: Rat { num: 0, den: 1 },
            m01: Rat { num: 0, den: 1 },
            m10: Rat { num: 0, den: 1 },
            m11: Rat { num: 0, den: 1 },
            t0: Rat { num: 0, den: 1 },
            t1: Rat { num: 0, den: 1 },
        }
    }
}

/// Range of the folded azimuth, low branch: if the raw bearing is in
/// `(-180, 180]` and `y ~ raw - 180` is negative, then `v ~ y + 360`
/// lies in `[0, 360)`.
proof fn lemma_fold_azimuth_range(raw: (int, int), y: (int, int), v: (int, int))
    requires
        crate::rational::rp_wf(raw),
        crate::rational::rp_wf(y),
        crate::rational::rp_wf(v),
        rc_sub(raw, (180int, 1int)) == Some(y),
        rp_lt(y, (0int, 1int)),
        rc_add(y, (360int, 1int)) == Some(v),
        rp_lt((-180int, 1int), raw),
        !rp_lt((180int, 1int), raw),
    ensures
        0 <= v.0 < 360 * v.1,
{
    let sraw = crate::rational::rp_sub(raw, (180int, 1int));
    crate::rational::lemma_gcd_one(raw.1 as nat);
    lemma_div_multiples_vanish(raw.1, 1);
    lemma_div_multiples_vanish(1, 1);
    assert(crate::rational::rl_sub(raw, (180int, 1int)) == sraw);
    crate::rational::lemma_red_eq(sraw);
    // y ~ raw - 180, so -360 < y-value
    assert(-360 * y.1 < y.0) by (nonlinear_arith)
        requires
            y.0 * sraw.1 == sraw.0 * y.1,
            sraw.0 == raw.0 * 1 - 180 * raw.1,
            sraw.1 == raw.1 * 1,
            -180 * raw.1 < raw.0,
            raw.1 >= 1,
            y.1 >= 1,
    ;
    let sv = crate::rational::rp_add(y, (360int, 1int));
    crate::rational::lemma_gcd_one(y.1 as nat);
    lemma_div_multiples_vanish(y.1, 1);
    lemma_div_multiples_vanish(1, 1);
    assert(crate::rational::rl_add(y, (360int, 1int)) == sv);
    crate::rational::lemma_red_eq(sv);
    assert(0 <= v.0 && v.0 < 360 * v.1) by (nonlinear_arith)
        requires
            v.0 * sv.1 == sv.0 * v.1,
            sv.0 == y.0 * 1 + 360 * y.1,
            sv.1 == y.1 * 1,
            -360 * y.1 < y.0,
            y.0 < 0,
            y.1 >= 1,
            v.1 >= 1,
    ;
}

/// Range of the folded azimuth, high branch: if the raw bearing is at
/// most 180 and `y ~ raw - 180` is not negative, then `y` is zero.
proof fn lemma_fold_azimuth_range_high(raw: (int, int), y: (int, int))
    requires
        crate::rational::rp_wf(raw),
        crate::rational::rp_wf(y),
        rc_sub(raw, (180int, 1int)) == Some(y),
        !rp_lt(y, (0int, 1int)),
        !rp_lt((180int, 1int), raw),
    ensures
        0 <= y.0 < 360 * y.1,
{
    let sraw = crate::rational::rp_sub(raw, (180int, 1int));
    crate::rational::lemma_gcd_one(raw.1 as nat);
    lemma_div_multiples_vanish(raw.1, 1);
    lemma_div_multiples_vanish(1, 1);
    assert(crate::rational::rl_sub(raw, (180int, 1int)) == sraw);
    crate::rational::lemma_red_eq(sraw);
    assert(0 <= y.0 && y.0 < 360 * y.1) by (nonlinear_arith)
        requires
            y.0 * sraw.1 == sraw.0 * y.1,
            sraw.0 == raw.0 * 1 - 180 * raw.1,
            sraw.1 == raw.1 * 1,
            raw.0 <= 180 * raw.1,
            raw.1 >= 1,
            y.1 >= 1,
            y.0 >= 0,
    ;
}

} // verus!
