//! Exact rational arithmetic on 128-bit integers.
//!
//! Every scalar quantity in this crate (degrees, days, matrix entries) is a
//! fraction `num / den` with a positive denominator. Arithmetic computes the
//! exact mathematical result, reduced to lowest terms; an operation reports
//! `None` when an intermediate product leaves the `i128` range.

use vstd::prelude::*;
use vstd::arithmetic::div_mod::lemma_add_mod_noop;
use vstd::arithmetic::div_mod::lemma_div_multiples_vanish;
use vstd::arithmetic::div_mod::lemma_div_nonincreasing;
use vstd::arithmetic::div_mod::lemma_div_pos_is_pos;
use vstd::arithmetic::div_mod::lemma_fundamental_div_mod;
use vstd::arithmetic::div_mod::lemma_mod_add_multiples_vanish;
use vstd::arithmetic::div_mod::lemma_mod_division_less_than_divisor;
use vstd::arithmetic::div_mod::lemma_mod_multiples_basic;
use vstd::arithmetic::div_mod::lemma_mod_self_0;
use vstd::arithmetic::div_mod::lemma_mul_mod_noop_left;
use vstd::arithmetic::div_mod::lemma_small_mod;
use vstd::arithmetic::div_mod::lemma_sub_mod_noop;
use vstd::math::abs;

verus! {

/// Greatest common divisor, by Euclid's recursion.
pub open spec fn gcd(a: nat, b: nat) -> nat
    decreases b,
{
    if b == 0 {
        a
    } else {
        gcd(b, a % b)
    }
}

/// `d` divides `x` exactly.
pub open spec fn divides(d: int, x: int) -> bool {
    x % d == 0
}

/// The gcd of two numbers, at least one positive, is positive.
pub proof fn lemma_gcd_pos(a: nat, b: nat)
    requires
        a >= 1 || b >= 1,
    ensures
        gcd(a, b) >= 1,
    decreases b,
{
    if b != 0 {
        lemma_gcd_pos(b, a % b);
    }
}

/// The gcd divides both of its arguments.
pub proof fn lemma_gcd_divides(a: nat, b: nat)
    requires
        a >= 1 || b >= 1,
    ensures
        divides(gcd(a, b) as int, a as int),
        divides(gcd(a, b) as int, b as int),
    decreases b,
{
    if b == 0 {
        lemma_mod_self_0(a as int);
        lemma_small_mod(0, a);
    } else {
        lemma_gcd_pos(b, a % b);
        lemma_gcd_divides(b, a % b);
        let g = gcd(b, a % b) as int;
        let q = a as int / b as int;
        lemma_fundamental_div_mod(a as int, b as int);
        assert(a as int == b as int * q + (a % b) as int);
        lemma_mul_mod_noop_left(b as int, q, g);
        lemma_small_mod(0, g as nat);
        assert((b as int * q) % g == 0);
        lemma_add_mod_noop(b as int * q, (a % b) as int, g);
        assert((a as int) % g == 0);
    }
}

/// Any common divisor of `a` and `b` divides their gcd.
pub proof fn lemma_gcd_greatest(a: nat, b: nat, c: nat)
    requires
        c >= 1,
        divides(c as int, a as int),
        divides(c as int, b as int),
    ensures
        divides(c as int, gcd(a, b) as int),
    decreases b,
{
    if b != 0 {
        let q = a as int / b as int;
        lemma_fundamental_div_mod(a as int, b as int);
        assert(a as int - b as int * q == (a % b) as int);
        lemma_mul_mod_noop_left(b as int, q, c as int);
        lemma_small_mod(0, c);
        assert((b as int * q) % (c as int) == 0);
        lemma_sub_mod_noop(a as int, b as int * q, c as int);
        assert(((a % b) as int) % (c as int) == 0);
        lemma_gcd_greatest(b, a % b, c);
    }
}

/// The gcd of any number and one is one.
pub proof fn lemma_gcd_one(a: nat)
    ensures
        gcd(a, 1) == 1,
{
    lemma_small_mod(0, 1);
    assert(a % 1 == 0) by (nonlinear_arith);
    assert(gcd(a, 1) == gcd(1, a % 1));
    assert(gcd(1, 0) == 1);
}

/// Dividing an exact multiple recovers the cofactor.
pub proof fn lemma_div_exact(x: int, g: int)
    requires
        g >= 1,
        divides(g, x),
    ensures
        g * (x / g) == x,
{
    lemma_fundamental_div_mod(x, g);
}

/// Dividing a signed exact multiple recovers the signed cofactor.
pub proof fn lemma_signed_div_exact(x: int, g: int)
    requires
        g >= 1,
        divides(g, abs(x) as int),
    ensures
        g * (x / g) == x,
        x / g == if x >= 0 {
            abs(x) as int / g
        } else {
            -(abs(x) as int / g)
        },
{
    lemma_div_exact(abs(x) as int, g);
    if x < 0 {
        assert(x == g * (-(abs(x) as int / g))) by (nonlinear_arith)
            requires
                g * (abs(x) as int / g) == abs(x) as int,
                abs(x) as int == -x,
        ;
        lemma_div_multiples_vanish(-(abs(x) as int / g), g);
    }
}

/// A spec fraction is well formed when its denominator is positive.
pub open spec fn rp_wf(a: (int, int)) -> bool {
    a.1 >= 1
}

/// Exact sum of two spec fractions.
pub open spec fn rp_add(a: (int, int), b: (int, int)) -> (int, int) {
    (a.0 * b.1 + b.0 * a.1, a.1 * b.1)
}

/// Exact difference of two spec fractions.
pub open spec fn rp_sub(a: (int, int), b: (int, int)) -> (int, int) {
    (a.0 * b.1 - b.0 * a.1, a.1 * b.1)
}

/// Exact product of two spec fractions.
pub open spec fn rp_mul(a: (int, int), b: (int, int)) -> (int, int) {
    (a.0 * b.0, a.1 * b.1)
}

/// Exact quotient of two spec fractions (the divisor must be nonzero).
pub open spec fn rp_div(a: (int, int), b: (int, int)) -> (int, int) {
    if b.0 >= 0 {
        (a.0 * b.1, a.1 * b.0)
    } else {
        (-(a.0 * b.1), a.1 * -b.0)
    }
}

/// The two fractions denote the same rational number.
pub open spec fn rp_eq(a: (int, int), b: (int, int)) -> bool {
    a.0 * b.1 == b.0 * a.1
}

/// `a < b` as rational numbers (for well-formed fractions).
pub open spec fn rp_lt(a: (int, int), b: (int, int)) -> bool {
    a.0 * b.1 < b.0 * a.1
}

/// Lowest-terms form of a fraction.
pub open spec fn rp_red(a: (int, int)) -> (int, int) {
    if a.0 == 0 {
        (0, 1)
    } else {
        let g = gcd(abs(a.0), a.1 as nat) as int;
        (a.0 / g, a.1 / g)
    }
}

/// Reduction keeps the denominator positive and preserves the value.
pub proof fn lemma_red_eq(a: (int, int))
    requires
        rp_wf(a),
    ensures
        rp_wf(rp_red(a)),
        rp_eq(rp_red(a), a),
{
    if a.0 != 0 {
        let g = gcd(abs(a.0), a.1 as nat) as int;
        lemma_gcd_pos(abs(a.0), a.1 as nat);
        lemma_gcd_divides(abs(a.0), a.1 as nat);
        lemma_div_exact(abs(a.0) as int, g);
        lemma_div_exact(a.1, g);
        if a.0 < 0 {
            assert(a.0 == g * (-(abs(a.0) as int / g))) by (nonlinear_arith)
                requires
                    g * (abs(a.0) as int / g) == abs(a.0) as int,
                    abs(a.0) as int == -a.0,
            ;
            lemma_div_multiples_vanish(-(abs(a.0) as int / g), g);
            assert(a.0 / g == -(abs(a.0) as int / g));
        }
        assert(g * (a.0 / g) == a.0);
        lemma_div_pos_is_pos(a.1, g);
        assert(a.1 / g >= 1) by (nonlinear_arith)
            requires
                g * (a.1 / g) == a.1,
                a.1 >= 1,
                g >= 1,
                a.1 / g >= 0,
        ;
        assert((a.0 / g) * a.1 == a.0 * (a.1 / g)) by (nonlinear_arith)
            requires
                g >= 1,
                g * (a.0 / g) == a.0,
                g * (a.1 / g) == a.1,
        ;
        assert(rp_red(a) == (a.0 / g, a.1 / g));
        assert(rp_eq(rp_red(a), a));
    } else {
        assert(rp_red(a) == (0int, 1int));
        assert(rp_eq(rp_red(a), a));
    }
}

/// Reduction is idempotent: a fraction in lowest terms reduces to
/// itself.
pub proof fn lemma_red_idempotent(a: (int, int))
    requires
        rp_wf(a),
    ensures
        rp_red(rp_red(a)) == rp_red(a),
{
    if a.0 != 0 {
        let g = gcd(abs(a.0), a.1 as nat) as int;
        lemma_gcd_pos(abs(a.0), a.1 as nat);
        lemma_gcd_divides(abs(a.0), a.1 as nat);
        lemma_signed_div_exact(a.0, g);
        lemma_div_exact(abs(a.0) as int, g);
        lemma_div_exact(a.1, g);
        lemma_div_pos_is_pos(a.1, g);
        lemma_div_pos_is_pos(abs(a.0) as int, g);
        let n2 = a.0 / g;
        let d2 = a.1 / g;
        assert(d2 >= 1) by (nonlinear_arith)
            requires
                g * d2 == a.1,
                a.1 >= 1,
                g >= 1,
                d2 >= 0,
        ;
        assert(n2 != 0) by (nonlinear_arith)
            requires
                g * n2 == a.0,
                a.0 != 0,
        ;
        assert(abs(n2) as int == abs(a.0) as int / g);
        let h = gcd(abs(n2), d2 as nat) as int;
        lemma_gcd_pos(abs(n2), d2 as nat);
        lemma_gcd_divides(abs(n2), d2 as nat);
        lemma_div_exact(abs(n2) as int, h);
        lemma_div_exact(d2, h);
        assert(abs(a.0) as int == (g * h) * (abs(n2) as int / h)) by (nonlinear_arith)
            requires
                g * (abs(a.0) as int / g) == abs(a.0) as int,
                abs(n2) as int == abs(a.0) as int / g,
                h * (abs(n2) as int / h) == abs(n2) as int,
        ;
        assert(a.1 == (g * h) * (d2 / h)) by (nonlinear_arith)
            requires
                g * d2 == a.1,
                h * (d2 / h) == d2,
        ;
        assert(g * h >= 1) by (nonlinear_arith)
            requires
                g >= 1,
                h >= 1,
        ;
        lemma_mod_multiples_basic(abs(n2) as int / h, g * h);
        assert((abs(n2) as int / h) * (g * h) == abs(a.0) as int) by (nonlinear_arith)
            requires
                abs(a.0) as int == (g * h) * (abs(n2) as int / h),
        ;
        lemma_mod_multiples_basic(d2 / h, g * h);
        assert((d2 / h) * (g * h) == a.1) by (nonlinear_arith)
            requires
                a.1 == (g * h) * (d2 / h),
        ;
        lemma_gcd_greatest(abs(a.0), a.1 as nat, (g * h) as nat);
        assert(g % (g * h) == 0);
        if h >= 2 {
            assert(g * h > g) by (nonlinear_arith)
                requires
                    g >= 1,
                    h >= 2,
            ;
            lemma_small_mod(g as nat, (g * h) as nat);
            assert(false);
        }
        assert(h == 1);
        lemma_div_multiples_vanish(n2, 1);
        lemma_div_multiples_vanish(d2, 1);
        assert(rp_red((n2, d2)) == (n2, d2));
    }
}

/// Normalization is idempotent: normalizing a normalized degree value
/// returns the same fraction. With the contract of the executable
/// normalization this makes normalizing twice equal normalizing once.
pub proof fn lemma_nrm_idempotent(a: (int, int))
    requires
        rp_wf(a),
    ensures
        rp_nrm(rp_nrm(a)) == rp_nrm(a),
{
    let m = 360 * a.1;
    let t1 = t_mod(a.0, m);
    let t2 = t_mod(t1 + m, m);
    let r = rp_red((t2, a.1));
    assert(m >= 360);
    if a.0 >= 0 {
        lemma_mod_division_less_than_divisor(a.0, m);
        lemma_mod_add_multiples_vanish(t1, m);
        lemma_small_mod(t1 as nat, m as nat);
    } else {
        let t = (-a.0) % m;
        lemma_mod_division_less_than_divisor(-a.0, m);
        if t == 0 {
            lemma_mod_self_0(m);
        } else {
            lemma_small_mod((m - t) as nat, m as nat);
        }
    }
    assert(0 <= t2 && t2 < m);
    lemma_red_eq((t2, a.1));
    if t2 == 0 {
        assert(r == (0int, 1int));
    } else {
        assert(0 <= r.0 && r.0 < 360 * r.1) by (nonlinear_arith)
            requires
                r.0 * a.1 == t2 * r.1,
                0 <= t2,
                t2 < 360 * a.1,
                r.1 >= 1,
                a.1 >= 1,
        ;
    }
    let m2 = 360 * r.1;
    assert(m2 >= 360);
    lemma_small_mod(r.0 as nat, m2 as nat);
    lemma_mod_add_multiples_vanish(r.0, m2);
    assert(t_mod(r.0, m2) == r.0);
    assert(t_mod(r.0 + m2, m2) == r.0);
    lemma_red_idempotent((t2, a.1));
    assert(rp_nrm(rp_nrm(a)) == rp_red((r.0, r.1)));
    assert(rp_red((r.0, r.1)) == r);
}

/// Value equality is transitive over well-formed fractions.
pub proof fn lemma_eq_trans(a: (int, int), b: (int, int), c: (int, int))
    requires
        rp_wf(a),
        rp_wf(b),
        rp_wf(c),
        rp_eq(a, b),
        rp_eq(b, c),
    ensures
        rp_eq(a, c),
{
    assert(a.0 * c.1 == c.0 * a.1) by (nonlinear_arith)
        requires
            a.0 * b.1 == b.0 * a.1,
            b.0 * c.1 == c.0 * b.1,
            a.1 >= 1,
            b.1 >= 1,
            c.1 >= 1,
    ;
}

/// The exact operations keep the denominator positive.
pub proof fn lemma_ops_wf(a: (int, int), b: (int, int))
    requires
        rp_wf(a),
        rp_wf(b),
    ensures
        rp_wf(rp_add(a, b)),
        rp_wf(rp_sub(a, b)),
        rp_wf(rp_mul(a, b)),
        b.0 != 0 ==> rp_wf(rp_div(a, b)),
{
    assert(a.1 * b.1 >= 1) by (nonlinear_arith)
        requires
            a.1 >= 1,
            b.1 >= 1,
    ;
    if b.0 != 0 {
        if b.0 >= 0 {
            assert(a.1 * b.0 >= 1) by (nonlinear_arith)
                requires
                    a.1 >= 1,
                    b.0 >= 1,
            ;
        } else {
            assert(a.1 * -b.0 >= 1) by (nonlinear_arith)
                requires
                    a.1 >= 1,
                    -b.0 >= 1,
            ;
        }
    }
}

/// Sums of equal values are equal.
#[verifier::rlimit(100)]
pub proof fn lemma_add_congr(a: (int, int), a2: (int, int), b: (int, int), b2: (int, int))
    requires
        rp_wf(a),
        rp_wf(a2),
        rp_wf(b),
        rp_wf(b2),
        rp_eq(a, a2),
        rp_eq(b, b2),
    ensures
        rp_eq(rp_add(a, b), rp_add(a2, b2)),
{
    assert((a.0 * b.1) * (a2.1 * b2.1) == (a2.0 * b2.1) * (a.1 * b.1)) by (nonlinear_arith)
        requires
            a.0 * a2.1 == a2.0 * a.1,
    ;
    assert((b.0 * a.1) * (a2.1 * b2.1) == (b2.0 * a2.1) * (a.1 * b.1)) by (nonlinear_arith)
        requires
            b.0 * b2.1 == b2.0 * b.1,
    ;
    assert((a.0 * b.1 + b.0 * a.1) * (a2.1 * b2.1) == (a.0 * b.1) * (a2.1 * b2.1) + (b.0 * a.1) * (
    a2.1 * b2.1)) by (nonlinear_arith);
    assert((a2.0 * b2.1 + b2.0 * a2.1) * (a.1 * b.1) == (a2.0 * b2.1) * (a.1 * b.1) + (b2.0 * a2.1)
        * (a.1 * b.1)) by (nonlinear_arith);
}

/// Differences of equal values are equal.
pub proof fn lemma_sub_congr(a: (int, int), a2: (int, int), b: (int, int), b2: (int, int))
    requires
        rp_wf(a),
        rp_wf(a2),
        rp_wf(b),
        rp_wf(b2),
        rp_eq(a, a2),
        rp_eq(b, b2),
    ensures
        rp_eq(rp_sub(a, b), rp_sub(a2, b2)),
{
    assert((a.0 * b.1) * (a2.1 * b2.1) == (a2.0 * b2.1) * (a.1 * b.1)) by (nonlinear_arith)
        requires
            a.0 * a2.1 == a2.0 * a.1,
    ;
    assert((b.0 * a.1) * (a2.1 * b2.1) == (b2.0 * a2.1) * (a.1 * b.1)) by (nonlinear_arith)
        requires
            b.0 * b2.1 == b2.0 * b.1,
    ;
    assert((a.0 * b.1 - b.0 * a.1) * (a2.1 * b2.1) == (a.0 * b.1) * (a2.1 * b2.1) - (b.0 * a.1) * (
    a2.1 * b2.1)) by (nonlinear_arith);
    assert((a2.0 * b2.1 - b2.0 * a2.1) * (a.1 * b.1) == (a2.0 * b2.1) * (a.1 * b.1) - (b2.0 * a2.1)
        * (a.1 * b.1)) by (nonlinear_arith);
}

/// Products of equal values are equal.
pub proof fn lemma_mul_congr(a: (int, int), a2: (int, int), b: (int, int), b2: (int, int))
    requires
        rp_wf(a),
        rp_wf(a2),
        rp_wf(b),
        rp_wf(b2),
        rp_eq(a, a2),
        rp_eq(b, b2),
    ensures
        rp_eq(rp_mul(a, b), rp_mul(a2, b2)),
{
    assert((a.0 * b.0) * (a2.1 * b2.1) == (a2.0 * b2.0) * (a.1 * b.1)) by (nonlinear_arith)
        requires
            a.0 * a2.1 == a2.0 * a.1,
            b.0 * b2.1 == b2.0 * b.1,
    ;
}

/// Quotients of equal values by equal nonzero values are equal.
pub proof fn lemma_div_congr(a: (int, int), a2: (int, int), b: (int, int), b2: (int, int))
    requires
        rp_wf(a),
        rp_wf(a2),
        rp_wf(b),
        rp_wf(b2),
        rp_eq(a, a2),
        rp_eq(b, b2),
        b.0 != 0,
        b2.0 != 0,
    ensures
        rp_eq(rp_div(a, b), rp_div(a2, b2)),
{
    let x = rp_div(a, b);
    let y = rp_div(a2, b2);
    if b.0 >= 0 && b2.0 >= 0 {
        assert((a.0 * b.1) * (a2.1 * b2.0) == (a2.0 * b2.1) * (a.1 * b.0)) by (nonlinear_arith)
            requires
                a.0 * a2.1 == a2.0 * a.1,
                b.0 * b2.1 == b2.0 * b.1,
        ;
    } else if b.0 >= 0 && b2.0 < 0 {
        assert((a.0 * b.1) * (a2.1 * b2.0) == (a2.0 * b2.1) * (a.1 * b.0)) by (nonlinear_arith)
            requires
                a.0 * a2.1 == a2.0 * a.1,
                b.0 * b2.1 == b2.0 * b.1,
        ;
        assert((a.0 * b.1) * (a2.1 * -b2.0) == (-(a2.0 * b2.1)) * (a.1 * b.0)) by (nonlinear_arith)
            requires
                (a.0 * b.1) * (a2.1 * b2.0) == (a2.0 * b2.1) * (a.1 * b.0),
        ;
    } else if b.0 < 0 && b2.0 >= 0 {
        assert((a.0 * b.1) * (a2.1 * b2.0) == (a2.0 * b2.1) * (a.1 * b.0)) by (nonlinear_arith)
            requires
                a.0 * a2.1 == a2.0 * a.1,
                b.0 * b2.1 == b2.0 * b.1,
        ;
        assert((-(a.0 * b.1)) * (a2.1 * b2.0) == (a2.0 * b2.1) * (a.1 * -b.0)) by (nonlinear_arith)
            requires
                (a.0 * b.1) * (a2.1 * b2.0) == (a2.0 * b2.1) * (a.1 * b.0),
        ;
    } else {
        assert((a.0 * b.1) * (a2.1 * b2.0) == (a2.0 * b2.1) * (a.1 * b.0)) by (nonlinear_arith)
            requires
                a.0 * a2.1 == a2.0 * a.1,
                b.0 * b2.1 == b2.0 * b.1,
        ;
        assert((-(a.0 * b.1)) * (a2.1 * -b2.0) == (-(a2.0 * b2.1)) * (a.1
            * -b.0)) by (nonlinear_arith)
            requires
                (a.0 * b.1) * (a2.1 * b2.0) == (a2.0 * b2.1) * (a.1 * b.0),
        ;
    }
}

/// Subtracting one addend of a sum leaves the other:
/// from `a ~ b + c` follows `a - c ~ b`.
pub proof fn lemma_sub_cancel(a: (int, int), b: (int, int), c: (int, int))
    requires
        rp_wf(a),
        rp_wf(b),
        rp_wf(c),
        rp_eq(a, rp_add(b, c)),
    ensures
        rp_eq(rp_sub(a, c), b),
{
    assert((a.0 * c.1) * b.1 == (b.0 * c.1) * a.1 + (c.0 * b.1) * a.1) by (nonlinear_arith)
        requires
            a.0 * (b.1 * c.1) == (b.0 * c.1 + c.0 * b.1) * a.1,
    ;
    assert((c.0 * a.1) * b.1 == (c.0 * b.1) * a.1) by (nonlinear_arith);
    assert((b.0 * c.1) * a.1 == b.0 * (a.1 * c.1)) by (nonlinear_arith);
    assert((a.0 * c.1 - c.0 * a.1) * b.1 == (a.0 * c.1) * b.1 - (c.0 * a.1)
        * b.1) by (nonlinear_arith);
}

/// Magnitude small enough that its negation also fits in an `i128`.
pub open spec fn in_range(x: int) -> bool {
    -(i128::MAX as int) <= x <= i128::MAX as int
}

/// Truncated remainder (the sign follows the dividend), as `%` acts on
/// the underlying real numbers.
pub open spec fn t_mod(x: int, y: int) -> int {
    if x >= 0 {
        x % y
    } else {
        -((-x) % y)
    }
}

/// Exact sum over the least common denominator: dividing one
/// denominator by the gcd of both keeps the cross products small.
pub open spec fn rl_add(a: (int, int), b: (int, int)) -> (int, int) {
    let g = gcd(a.1 as nat, b.1 as nat) as int;
    (a.0 * (b.1 / g) + b.0 * (a.1 / g), a.1 * (b.1 / g))
}

/// Exact difference over the least common denominator.
pub open spec fn rl_sub(a: (int, int), b: (int, int)) -> (int, int) {
    let g = gcd(a.1 as nat, b.1 as nat) as int;
    (a.0 * (b.1 / g) - b.0 * (a.1 / g), a.1 * (b.1 / g))
}

/// The least-common-denominator forms denote the exact sum and
/// difference.
pub proof fn lemma_lcm_eq(a: (int, int), b: (int, int))
    requires
        rp_wf(a),
        rp_wf(b),
    ensures
        rp_wf(rl_add(a, b)),
        rp_wf(rl_sub(a, b)),
        rp_eq(rl_add(a, b), rp_add(a, b)),
        rp_eq(rl_sub(a, b), rp_sub(a, b)),
{
    let g = gcd(a.1 as nat, b.1 as nat) as int;
    let da2 = a.1 / g;
    let db2 = b.1 / g;
    lemma_gcd_pos(a.1 as nat, b.1 as nat);
    lemma_gcd_divides(a.1 as nat, b.1 as nat);
    lemma_div_exact(a.1, g);
    lemma_div_exact(b.1, g);
    lemma_div_pos_is_pos(a.1, g);
    lemma_div_pos_is_pos(b.1, g);
    assert(da2 >= 1) by (nonlinear_arith)
        requires
            g * da2 == a.1,
            a.1 >= 1,
            g >= 1,
            da2 >= 0,
    ;
    assert(db2 >= 1) by (nonlinear_arith)
        requires
            g * db2 == b.1,
            b.1 >= 1,
            g >= 1,
            db2 >= 0,
    ;
    assert(a.1 * db2 >= 1) by (nonlinear_arith)
        requires
            a.1 >= 1,
            db2 >= 1,
    ;
    assert(g * (da2 * b.1) == g * (a.1 * db2)) by (nonlinear_arith)
        requires
            g * da2 == a.1,
            g * db2 == b.1,
    ;
    vstd::arithmetic::mul::lemma_mul_equality_converse(g, da2 * b.1, a.1 * db2);
    assert((a.0 * db2) * (a.1 * b.1) == (a.0 * b.1) * (a.1 * db2)) by (nonlinear_arith);
    assert((b.0 * da2) * (a.1 * b.1) == (b.0 * a.1) * (a.1 * db2)) by (nonlinear_arith)
        requires
            da2 * b.1 == a.1 * db2,
    ;
    assert((a.0 * db2 + b.0 * da2) * (a.1 * b.1) == (a.0 * db2) * (a.1 * b.1) + (b.0 * da2) * (a.1
        * b.1)) by (nonlinear_arith);
    assert((a.0 * b.1 + b.0 * a.1) * (a.1 * db2) == (a.0 * b.1) * (a.1 * db2) + (b.0 * a.1) * (a.1
        * db2)) by (nonlinear_arith);
    assert((a.0 * db2 - b.0 * da2) * (a.1 * b.1) == (a.0 * db2) * (a.1 * b.1) - (b.0 * da2) * (a.1
        * b.1)) by (nonlinear_arith);
    assert((a.0 * b.1 - b.0 * a.1) * (a.1 * db2) == (a.0 * b.1) * (a.1 * db2) - (b.0 * a.1) * (a.1
        * db2)) by (nonlinear_arith);
}

/// Checked exact sum: the reduced result, or `None` on 128-bit overflow
/// of the least-common-denominator form.
pub open spec fn rc_add(a: (int, int), b: (int, int)) -> Option<(int, int)> {
    let g = gcd(a.1 as nat, b.1 as nat) as int;
    if in_range(a.0 * (b.1 / g)) && in_range(b.0 * (a.1 / g)) && in_range(
        a.0 * (b.1 / g) + b.0 * (a.1 / g),
    ) && in_range(a.1 * (b.1 / g)) {
        Some(rp_red(rl_add(a, b)))
    } else {
        None
    }
}

/// Checked exact difference.
pub open spec fn rc_sub(a: (int, int), b: (int, int)) -> Option<(int, int)> {
    let g = gcd(a.1 as nat, b.1 as nat) as int;
    if in_range(a.0 * (b.1 / g)) && in_range(b.0 * (a.1 / g)) && in_range(
        a.0 * (b.1 / g) - b.0 * (a.1 / g),
    ) && in_range(a.1 * (b.1 / g)) {
        Some(rp_red(rl_sub(a, b)))
    } else {
        None
    }
}

/// Exact product in cross-reduced form: each numerator is divided by
/// its gcd with the other operand's denominator first.
pub open spec fn rl_mul(a: (int, int), b: (int, int)) -> (int, int) {
    let g1 = gcd(abs(a.0), b.1 as nat) as int;
    let g2 = gcd(abs(b.0), a.1 as nat) as int;
    ((a.0 / g1) * (b.0 / g2), (a.1 / g2) * (b.1 / g1))
}

/// Exact quotient in cross-reduced form (the divisor must be nonzero):
/// the two numerators and the two denominators are reduced against
/// each other first.
pub open spec fn rl_div(a: (int, int), b: (int, int)) -> (int, int) {
    let g1 = gcd(abs(a.0), abs(b.0)) as int;
    let g2 = gcd(a.1 as nat, b.1 as nat) as int;
    let n = (a.0 / g1) * (b.1 / g2);
    let d = (a.1 / g2) * (abs(b.0) as int / g1);
    if b.0 >= 0 {
        (n, d)
    } else {
        (-n, d)
    }
}

/// Regrouping six factors of a product.
#[verifier::rlimit(30)]
proof fn lemma_regroup(x: int, y: int, c: int, d: int, g1: int, g2: int)
    by (nonlinear_arith)
    ensures
        (x * (g2 * c)) * (y * (g1 * d)) == ((g1 * x) * (g2 * y)) * (c * d),
{
}

/// The cross-reduced forms denote the exact product and quotient.
pub proof fn lemma_cross_eq(a: (int, int), b: (int, int))
    requires
        rp_wf(a),
        rp_wf(b),
    ensures
        rp_wf(rl_mul(a, b)),
        rp_eq(rl_mul(a, b), rp_mul(a, b)),
        b.0 != 0 ==> rp_wf(rl_div(a, b)),
        b.0 != 0 ==> rp_eq(rl_div(a, b), rp_div(a, b)),
{
    let g1 = gcd(abs(a.0), b.1 as nat) as int;
    let g2 = gcd(abs(b.0), a.1 as nat) as int;
    lemma_gcd_pos(abs(a.0), b.1 as nat);
    lemma_gcd_pos(abs(b.0), a.1 as nat);
    lemma_gcd_divides(abs(a.0), b.1 as nat);
    lemma_gcd_divides(abs(b.0), a.1 as nat);
    lemma_signed_div_exact(a.0, g1);
    lemma_signed_div_exact(b.0, g2);
    lemma_div_exact(b.1, g1);
    lemma_div_exact(a.1, g2);
    lemma_div_pos_is_pos(b.1, g1);
    lemma_div_pos_is_pos(a.1, g2);
    assert(b.1 / g1 >= 1) by (nonlinear_arith)
        requires
            g1 * (b.1 / g1) == b.1,
            b.1 >= 1,
            g1 >= 1,
            b.1 / g1 >= 0,
    ;
    assert(a.1 / g2 >= 1) by (nonlinear_arith)
        requires
            g2 * (a.1 / g2) == a.1,
            a.1 >= 1,
            g2 >= 1,
            a.1 / g2 >= 0,
    ;
    assert((a.1 / g2) * (b.1 / g1) >= 1) by (nonlinear_arith)
        requires
            a.1 / g2 >= 1,
            b.1 / g1 >= 1,
    ;
    assert(((a.0 / g1) * (b.0 / g2)) * (a.1 * b.1) == ((a.0 / g1) * a.1) * ((b.0 / g2)
        * b.1)) by (nonlinear_arith);
    lemma_regroup(a.0 / g1, b.0 / g2, a.1 / g2, b.1 / g1, g1, g2);
    assert(((a.0 / g1) * (b.0 / g2)) * (a.1 * b.1) == (a.0 * b.0) * ((a.1 / g2) * (b.1 / g1)));
    if b.0 != 0 {
        let h1 = gcd(abs(a.0), abs(b.0)) as int;
        let h2 = gcd(a.1 as nat, b.1 as nat) as int;
        lemma_gcd_pos(abs(a.0), abs(b.0));
        lemma_gcd_pos(a.1 as nat, b.1 as nat);
        lemma_gcd_divides(abs(a.0), abs(b.0));
        lemma_gcd_divides(a.1 as nat, b.1 as nat);
        lemma_signed_div_exact(a.0, h1);
        lemma_div_exact(abs(b.0) as int, h1);
        lemma_div_exact(a.1, h2);
        lemma_div_exact(b.1, h2);
        lemma_div_pos_is_pos(abs(b.0) as int, h1);
        lemma_div_pos_is_pos(a.1, h2);
        lemma_div_pos_is_pos(b.1, h2);
        assert(abs(b.0) as int / h1 >= 1) by (nonlinear_arith)
            requires
                h1 * (abs(b.0) as int / h1) == abs(b.0) as int,
                abs(b.0) as int >= 1,
                h1 >= 1,
                abs(b.0) as int / h1 >= 0,
        ;
        assert(a.1 / h2 >= 1) by (nonlinear_arith)
            requires
                h2 * (a.1 / h2) == a.1,
                a.1 >= 1,
                h2 >= 1,
                a.1 / h2 >= 0,
        ;
        assert((a.1 / h2) * (abs(b.0) as int / h1) >= 1) by (nonlinear_arith)
            requires
                a.1 / h2 >= 1,
                abs(b.0) as int / h1 >= 1,
        ;
        if b.0 >= 0 {
            assert(((a.0 / h1) * (b.1 / h2)) * (a.1 * b.0) == ((a.0 / h1) * b.0) * ((b.1
                / h2) * a.1)) by (nonlinear_arith);
            assert(((a.0 / h1) * (h1 * (abs(b.0) as int / h1))) * ((b.1 / h2) * (h2 * (a.1
                / h2))) == ((h1 * (a.0 / h1)) * (h2 * (b.1 / h2))) * ((a.1 / h2) * (
            abs(b.0) as int / h1))) by (nonlinear_arith);
            assert(((a.0 / h1) * (b.1 / h2)) * (a.1 * b.0) == (a.0 * b.1) * ((a.1 / h2) * (
            abs(b.0) as int / h1)));
        } else {
            assert((-((a.0 / h1) * (b.1 / h2))) * (a.1 * -b.0) == -((((a.0 / h1) * (b.1
                / h2))) * (a.1 * -b.0))) by (nonlinear_arith);
            assert(((a.0 / h1) * (b.1 / h2)) * (a.1 * -b.0) == ((a.0 / h1) * -b.0) * ((b.1
                / h2) * a.1)) by (nonlinear_arith);
            assert(((a.0 / h1) * (h1 * (abs(b.0) as int / h1))) * ((b.1 / h2) * (h2 * (a.1
                / h2))) == ((h1 * (a.0 / h1)) * (h2 * (b.1 / h2))) * ((a.1 / h2) * (
            abs(b.0) as int / h1))) by (nonlinear_arith);
            assert(((a.0 / h1) * (b.1 / h2)) * (a.1 * -b.0) == (a.0 * b.1) * ((a.1 / h2) * (
            abs(b.0) as int / h1)));
            assert(-((a.0 * b.1) * ((a.1 / h2) * (abs(b.0) as int / h1))) == (-(a.0 * b.1)) * ((a.1
                / h2) * (abs(b.0) as int / h1))) by (nonlinear_arith);
        }
    }
}

/// Checked exact product: the reduced result, or `None` on 128-bit
/// overflow of the cross-reduced form.
pub open spec fn rc_mul(a: (int, int), b: (int, int)) -> Option<(int, int)> {
    if in_range(rl_mul(a, b).0) && in_range(rl_mul(a, b).1) {
        Some(rp_red(rl_mul(a, b)))
    } else {
        None
    }
}

/// Checked exact quotient: `None` for a zero divisor or on overflow of
/// the cross-reduced form.
pub open spec fn rc_div(a: (int, int), b: (int, int)) -> Option<(int, int)> {
    if b.0 == 0 {
        None
    } else if in_range((a.0 / gcd(abs(a.0), abs(b.0)) as int) * (b.1 / gcd(
        a.1 as nat,
        b.1 as nat,
    ) as int)) && in_range(rl_div(a, b).1) {
        Some(rp_red(rl_div(a, b)))
    } else {
        None
    }
}

/// Checked exact remainder, with the sign convention of `%` on reals.
pub open spec fn rc_rem(a: (int, int), b: (int, int)) -> Option<(int, int)> {
    if b.0 == 0 {
        None
    } else if in_range(a.0 * b.1) && in_range(b.0 * a.1) && in_range(a.1 * b.1) {
        Some(rp_red((t_mod(a.0 * b.1, abs(b.0 * a.1) as int), a.1 * b.1)))
    } else {
        None
    }
}

/// Normalization of a degree value into `[0, 360)`:
/// `((x % 360) + 360) % 360` computed exactly.
pub open spec fn rp_nrm(a: (int, int)) -> (int, int) {
    let m = 360 * a.1;
    let t1 = t_mod(a.0, m);
    rp_red((t_mod(t1 + m, m), a.1))
}

/// Checked normalization: `None` when `360 * den` overflows.
pub open spec fn rc_nrm(a: (int, int)) -> Option<(int, int)> {
    if in_range(360 * a.1) {
        Some(rp_nrm(a))
    } else {
        None
    }
}

/// An exact rational number. Public operations keep the invariant
/// [`Rat::wf`] and return values in lowest terms.
#[derive(Clone, Copy, Debug, PartialEq, Eq, Structural)]
pub struct Rat {
    pub num: i128,
    pub den: i128,
}

impl View for Rat {
    type V = (int, int);

    open spec fn view(&self) -> (int, int) {
        (self.num as int, self.den as int)
    }
}

impl Rat {
    /// Positive denominator; the numerator's negation also fits.
    pub open spec fn wf(self) -> bool {
        self.den >= 1 && self.num > i128::MIN
    }

    /// Build `num / den` and reduce it to lowest terms.
    pub fn new(num: i128, den: i128) -> (r: Rat)
        requires
            den >= 1,
            num > i128::MIN,
        ensures
            r.wf(),
            r@ == rp_red((num as int, den as int)),
            rp_eq(r@, (num as int, den as int)),
    {
        reduce(num, den)
    }

    /// The integer `n` as a rational number.
    pub fn from_int(n: i128) -> (r: Rat)
        requires
            n > i128::MIN,
        ensures
            r.wf(),
            r@ == (n as int, 1int),
    {
        Rat { num: n, den: 1 }
    }

    /// Exact equality test of the two rational values.
    pub fn eq_value(&self, o: &Rat) -> (r: bool)
        requires
            self.wf(),
            o.wf(),
            in_range(self@.0 * o@.1),
            in_range(o@.0 * self@.1),
        ensures
            r == rp_eq(self@, o@),
    {
        let p1 = match self.num.checked_mul(o.den) {
            Some(v) => v,
            None => {
                proof {
                    assert(false);
                }
                0
            },
        };
        let p2 = match o.num.checked_mul(self.den) {
            Some(v) => v,
            None => {
                proof {
                    assert(false);
                }
                0
            },
        };
        p1 == p2
    }

    /// Whether the value is strictly below the integer `k`.
    pub fn lt_int(&self, k: i128) -> (r: bool)
        requires
            self.wf(),
            k > i128::MIN,
        ensures
            r == rp_lt(self@, (k as int, 1int)),
    {
        match k.checked_mul(self.den) {
            Some(p) => self.num < p,
            None => {
                proof {
                    if k >= 0 {
                        assert(k * self.den >= k) by (nonlinear_arith)
                            requires
                                self.den >= 1,
                                k >= 0,
                        ;
                    } else {
                        assert(k * self.den <= k) by (nonlinear_arith)
                            requires
                                self.den >= 1,
                                k < 0,
                        ;
                    }
                }
                k > 0
            },
        }
    }

    /// Whether the value is strictly above the integer `k`.
    pub fn gt_int(&self, k: i128) -> (r: bool)
        requires
            self.wf(),
            k > i128::MIN,
        ensures
            r == rp_lt((k as int, 1int), self@),
    {
        match k.checked_mul(self.den) {
            Some(p) => self.num > p,
            None => {
                proof {
                    if k >= 0 {
                        assert(k * self.den >= k) by (nonlinear_arith)
                            requires
                                self.den >= 1,
                                k >= 0,
                        ;
                    } else {
                        assert(k * self.den <= k) by (nonlinear_arith)
                            requires
                                self.den >= 1,
                                k < 0,
                        ;
                    }
                }
                k < 0
            },
        }
    }

    /// Checked exact sum.
    pub fn checked_add(self, o: Rat) -> (r: Option<Rat>)
        requires
            self.wf(),
            o.wf(),
        ensures
            r is Some <==> rc_add(self@, o@) is Some,
            r matches Some(c) ==> c.wf() && rc_add(self@, o@) == Some(c@),
    {
        let g = gcd_u128(self.den as u128, o.den as u128);
        proof {
            lemma_gcd_pos(self.den as nat, o.den as nat);
            lemma_gcd_divides(self.den as nat, o.den as nat);
            lemma_div_exact(self.den as int, g as int);
            lemma_div_exact(o.den as int, g as int);
            lemma_div_pos_is_pos(self.den as int, g as int);
            lemma_div_pos_is_pos(o.den as int, g as int);
            lemma_div_nonincreasing(self.den as int, g as int);
            lemma_div_nonincreasing(o.den as int, g as int);
            assert(o.den as int / g as int >= 1) by (nonlinear_arith)
                requires
                    g as int * (o.den as int / g as int) == o.den as int,
                    o.den as int >= 1,
                    g as int >= 1,
                    o.den as int / g as int >= 0,
            ;
            assert(self.den as int / g as int >= 1) by (nonlinear_arith)
                requires
                    g as int * (self.den as int / g as int) == self.den as int,
                    self.den as int >= 1,
                    g as int >= 1,
                    self.den as int / g as int >= 0,
            ;
        }
        let db2 = ((o.den as u128) / g) as i128;
        let da2 = ((self.den as u128) / g) as i128;
        let p1 = match self.num.checked_mul(db2) {
            Some(v) => v,
            None => {
                return None;
            },
        };
        if p1 == i128::MIN {
            return None;
        }
        let p2 = match o.num.checked_mul(da2) {
            Some(v) => v,
            None => {
                return None;
            },
        };
        if p2 == i128::MIN {
            return None;
        }
        let n = match p1.checked_add(p2) {
            Some(v) => v,
            None => {
                return None;
            },
        };
        if n == i128::MIN {
            return None;
        }
        let d = match self.den.checked_mul(db2) {
            Some(v) => v,
            None => {
                return None;
            },
        };
        proof {
            assert(d >= 1) by (nonlinear_arith)
                requires
                    self.den >= 1,
                    db2 >= 1,
                    d == self.den * db2,
            ;
        }
        Some(reduce(n, d))
    }

    /// Checked exact difference.
    pub fn checked_sub(self, o: Rat) -> (r: Option<Rat>)
        requires
            self.wf(),
            o.wf(),
        ensures
            r is Some <==> rc_sub(self@, o@) is Some,
            r matches Some(c) ==> c.wf() && rc_sub(self@, o@) == Some(c@),
    {
        let g = gcd_u128(self.den as u128, o.den as u128);
        proof {
            lemma_gcd_pos(self.den as nat, o.den as nat);
            lemma_gcd_divides(self.den as nat, o.den as nat);
            lemma_div_exact(self.den as int, g as int);
            lemma_div_exact(o.den as int, g as int);
            lemma_div_pos_is_pos(self.den as int, g as int);
            lemma_div_pos_is_pos(o.den as int, g as int);
            lemma_div_nonincreasing(self.den as int, g as int);
            lemma_div_nonincreasing(o.den as int, g as int);
            assert(o.den as int / g as int >= 1) by (nonlinear_arith)
                requires
                    g as int * (o.den as int / g as int) == o.den as int,
                    o.den as int >= 1,
                    g as int >= 1,
                    o.den as int / g as int >= 0,
            ;
            assert(self.den as int / g as int >= 1) by (nonlinear_arith)
                requires
                    g as int * (self.den as int / g as int) == self.den as int,
                    self.den as int >= 1,
                    g as int >= 1,
                    self.den as int / g as int >= 0,
            ;
        }
        let db2 = ((o.den as u128) / g) as i128;
        let da2 = ((self.den as u128) / g) as i128;
        let p1 = match self.num.checked_mul(db2) {
            Some(v) => v,
            None => {
                return None;
            },
        };
        if p1 == i128::MIN {
            return None;
        }
        let p2 = match o.num.checked_mul(da2) {
            Some(v) => v,
            None => {
                return None;
            },
        };
        if p2 == i128::MIN {
            return None;
        }
        let n = match p1.checked_sub(p2) {
            Some(v) => v,
            None => {
                return None;
            },
        };
        if n == i128::MIN {
            return None;
        }
        let d = match self.den.checked_mul(db2) {
            Some(v) => v,
            None => {
                return None;
            },
        };
        proof {
            assert(d >= 1) by (nonlinear_arith)
                requires
                    self.den >= 1,
                    db2 >= 1,
                    d == self.den * db2,
            ;
        }
        Some(reduce(n, d))
    }

    /// Checked exact product.
    pub fn checked_mul(self, o: Rat) -> (r: Option<Rat>)
        requires
            self.wf(),
            o.wf(),
        ensures
            r is Some <==> rc_mul(self@, o@) is Some,
            r matches Some(c) ==> c.wf() && rc_mul(self@, o@) == Some(c@),
    {
        let na: u128 = if self.num >= 0 {
            self.num as u128
        } else {
            (-self.num) as u128
        };
        let nb: u128 = if o.num >= 0 {
            o.num as u128
        } else {
            (-o.num) as u128
        };
        let g1 = gcd_u128(na, o.den as u128);
        let g2 = gcd_u128(nb, self.den as u128);
        proof {
            lemma_gcd_pos(na as nat, o.den as nat);
            lemma_gcd_pos(nb as nat, self.den as nat);
            lemma_gcd_divides(na as nat, o.den as nat);
            lemma_gcd_divides(nb as nat, self.den as nat);
            lemma_signed_div_exact(self.num as int, g1 as int);
            lemma_signed_div_exact(o.num as int, g2 as int);
            lemma_div_exact(o.den as int, g1 as int);
            lemma_div_exact(self.den as int, g2 as int);
            lemma_div_pos_is_pos(o.den as int, g1 as int);
            lemma_div_pos_is_pos(self.den as int, g2 as int);
            lemma_div_nonincreasing(na as int, g1 as int);
            lemma_div_nonincreasing(nb as int, g2 as int);
            lemma_div_nonincreasing(o.den as int, g1 as int);
            lemma_div_nonincreasing(self.den as int, g2 as int);
            assert(o.den as int / g1 as int >= 1) by (nonlinear_arith)
                requires
                    g1 as int * (o.den as int / g1 as int) == o.den as int,
                    o.den as int >= 1,
                    g1 as int >= 1,
                    o.den as int / g1 as int >= 0,
            ;
            assert(self.den as int / g2 as int >= 1) by (nonlinear_arith)
                requires
                    g2 as int * (self.den as int / g2 as int) == self.den as int,
                    self.den as int >= 1,
                    g2 as int >= 1,
                    self.den as int / g2 as int >= 0,
            ;
        }
        let n1: i128 = if self.num >= 0 {
            (na / g1) as i128
        } else {
            -((na / g1) as i128)
        };
        let n2: i128 = if o.num >= 0 {
            (nb / g2) as i128
        } else {
            -((nb / g2) as i128)
        };
        let da2 = ((self.den as u128) / g2) as i128;
        let db2 = ((o.den as u128) / g1) as i128;
        let n = match n1.checked_mul(n2) {
            Some(v) => v,
            None => {
                return None;
            },
        };
        if n == i128::MIN {
            return None;
        }
        let d = match da2.checked_mul(db2) {
            Some(v) => v,
            None => {
                return None;
            },
        };
        proof {
            assert(d >= 1) by (nonlinear_arith)
                requires
                    da2 >= 1,
                    db2 >= 1,
                    d == da2 * db2,
            ;
        }
        Some(reduce(n, d))
    }

    /// Checked exact quotient.
    pub fn checked_div(self, o: Rat) -> (r: Option<Rat>)
        requires
            self.wf(),
            o.wf(),
        ensures
            r is Some <==> rc_div(self@, o@) is Some,
            r matches Some(c) ==> c.wf() && rc_div(self@, o@) == Some(c@),
    {
        if o.num == 0 {
            return None;
        }
        let na: u128 = if self.num >= 0 {
            self.num as u128
        } else {
            (-self.num) as u128
        };
        let nb: u128 = if o.num >= 0 {
            o.num as u128
        } else {
            (-o.num) as u128
        };
        let g1 = gcd_u128(na, nb);
        let g2 = gcd_u128(self.den as u128, o.den as u128);
        proof {
            lemma_gcd_pos(na as nat, nb as nat);
            lemma_gcd_pos(self.den as nat, o.den as nat);
            lemma_gcd_divides(na as nat, nb as nat);
            lemma_gcd_divides(self.den as nat, o.den as nat);
            lemma_signed_div_exact(self.num as int, g1 as int);
            lemma_div_exact(nb as int, g1 as int);
            lemma_div_exact(self.den as int, g2 as int);
            lemma_div_exact(o.den as int, g2 as int);
            lemma_div_pos_is_pos(nb as int, g1 as int);
            lemma_div_pos_is_pos(self.den as int, g2 as int);
            lemma_div_pos_is_pos(o.den as int, g2 as int);
            lemma_div_nonincreasing(na as int, g1 as int);
            lemma_div_nonincreasing(nb as int, g1 as int);
            lemma_div_nonincreasing(self.den as int, g2 as int);
            lemma_div_nonincreasing(o.den as int, g2 as int);
            assert(nb as int / g1 as int >= 1) by (nonlinear_arith)
                requires
                    g1 as int * (nb as int / g1 as int) == nb as int,
                    nb as int >= 1,
                    g1 as int >= 1,
                    nb as int / g1 as int >= 0,
            ;
            assert(self.den as int / g2 as int >= 1) by (nonlinear_arith)
                requires
                    g2 as int * (self.den as int / g2 as int) == self.den as int,
                    self.den as int >= 1,
                    g2 as int >= 1,
                    self.den as int / g2 as int >= 0,
            ;
            assert(o.den as int / g2 as int >= 1) by (nonlinear_arith)
                requires
                    g2 as int * (o.den as int / g2 as int) == o.den as int,
                    o.den as int >= 1,
                    g2 as int >= 1,
                    o.den as int / g2 as int >= 0,
            ;
        }
        let n1: i128 = if self.num >= 0 {
            (na / g1) as i128
        } else {
            -((na / g1) as i128)
        };
        let b1r = ((o.den as u128) / g2) as i128;
        let da2 = ((self.den as u128) / g2) as i128;
        let nbr = (nb / g1) as i128;
        let p = match n1.checked_mul(b1r) {
            Some(v) => v,
            None => {
                return None;
            },
        };
        if p == i128::MIN {
            return None;
        }
        let d = match da2.checked_mul(nbr) {
            Some(v) => v,
            None => {
                return None;
            },
        };
        proof {
            assert(d >= 1) by (nonlinear_arith)
                requires
                    da2 >= 1,
                    nbr >= 1,
                    d == da2 * nbr,
            ;
        }
        let n = if o.num < 0 {
            -p
        } else {
            p
        };
        Some(reduce(n, d))
    }

    /// Checked exact remainder; the result keeps the dividend's sign.
    pub fn checked_rem(self, o: Rat) -> (r: Option<Rat>)
        requires
            self.wf(),
            o.wf(),
        ensures
            r is Some <==> rc_rem(self@, o@) is Some,
            r matches Some(c) ==> c.wf() && rc_rem(self@, o@) == Some(c@),
    {
        if o.num == 0 {
            return None;
        }
        let x = match self.num.checked_mul(o.den) {
            Some(v) => v,
            None => {
                return None;
            },
        };
        if x == i128::MIN {
            return None;
        }
        let y = match o.num.checked_mul(self.den) {
            Some(v) => v,
            None => {
                return None;
            },
        };
        if y == i128::MIN {
            return None;
        }
        let d = match self.den.checked_mul(o.den) {
            Some(v) => v,
            None => {
                return None;
            },
        };
        proof {
            assert(d >= 1) by (nonlinear_arith)
                requires
                    self.den >= 1,
                    o.den >= 1,
                    d == self.den * o.den,
            ;
            assert(y != 0) by (nonlinear_arith)
                requires
                    o.num != 0,
                    self.den >= 1,
                    y == o.num * self.den,
            ;
        }
        let xm: u128 = if x >= 0 {
            x as u128
        } else {
            (-x) as u128
        };
        let ym: u128 = if y >= 0 {
            y as u128
        } else {
            (-y) as u128
        };
        let rm = xm % ym;
        proof {
            lemma_mod_division_less_than_divisor(xm as int, ym as int);
        }
        let n = if x >= 0 {
            rm as i128
        } else {
            -(rm as i128)
        };
        proof {
            assert(n as int == t_mod(x as int, abs((o.num * self.den) as int) as int));
        }
        Some(reduce(n, d))
    }

    /// Checked normalization of a degree value into `[0, 360)`.
    pub fn checked_norm360(self) -> (r: Option<Rat>)
        requires
            self.wf(),
        ensures
            r is Some <==> rc_nrm(self@) is Some,
            r matches Some(c) ==> c.wf() && rc_nrm(self@) == Some(c@) && 0 <= c@.0 < 360 * c@.1,
    {
        let m = match self.den.checked_mul(360) {
            Some(v) => v,
            None => {
                return None;
            },
        };
        proof {
            assert(m >= 360) by (nonlinear_arith)
                requires
                    self.den >= 1,
                    m == self.den * 360,
            ;
        }
        let e: i128 = if self.num >= 0 {
            proof {
                lemma_mod_division_less_than_divisor(self.num as int, m as int);
            }
            ((self.num as u128) % (m as u128)) as i128
        } else {
            let t = ((-self.num) as u128) % (m as u128);
            proof {
                lemma_mod_division_less_than_divisor((-self.num) as u128 as int, m as int);
            }
            if t == 0 {
                0
            } else {
                (m as u128 - t) as i128
            }
        };
        proof {
            let mi = m as int;
            let t1 = t_mod(self.num as int, mi);
            if self.num >= 0 {
                lemma_mod_division_less_than_divisor(self.num as int, mi);
                lemma_mod_add_multiples_vanish(t1, mi);
                lemma_small_mod(t1 as nat, mi as nat);
                assert(e as int == t_mod(t1 + mi, mi));
            } else {
                let t = ((-(self.num as int)) % mi);
                lemma_mod_division_less_than_divisor(-(self.num as int), mi);
                if t == 0 {
                    lemma_mod_self_0(mi);
                    assert(e as int == t_mod(t1 + mi, mi));
                } else {
                    lemma_small_mod((mi - t) as nat, mi as nat);
                    assert(e as int == t_mod(t1 + mi, mi));
                }
            }
            assert(0 <= (e as int) && (e as int) < mi);
        }
        let c = reduce(e, self.den);
        proof {
            assert(0 <= c@.0 && c@.0 < 360 * c@.1) by (nonlinear_arith)
                requires
                    c@.0 * (self.den as int) == (e as int) * c@.1,
                    0 <= e as int,
                    (e as int) < 360 * (self.den as int),
                    c@.1 >= 1,
                    self.den as int >= 1,
            ;
        }
        Some(c)
    }
}

/// Euclid's algorithm.
fn gcd_u128(a: u128, b: u128) -> (g: u128)
    ensures
        g as nat == gcd(a as nat, b as nat),
{
    let mut x = a;
    let mut y = b;
    while y != 0
        invariant
            gcd(x as nat, y as nat) == gcd(a as nat, b as nat),
        decreases y,
    {
        let r = x % y;
        proof {
            assert(gcd(x as nat, y as nat) == gcd(y as nat, (x % y) as nat));
        }
        x = y;
        y = r;
    }
    x
}

/// Reduce `n / d` to lowest terms.
pub(crate) fn reduce(n: i128, d: i128) -> (r: Rat)
    requires
        d >= 1,
        n > i128::MIN,
    ensures
        r.wf(),
        r@ == rp_red((n as int, d as int)),
        rp_eq(r@, (n as int, d as int)),
{
    if n == 0 {
        proof {
            assert(0int * (d as int) == 0) by (nonlinear_arith);
        }
        return Rat { num: 0, den: 1 };
    }
    let nm: u128 = if n >= 0 {
        n as u128
    } else {
        (-n) as u128
    };
    let dm: u128 = d as u128;
    let g = gcd_u128(nm, dm);
    proof {
        lemma_gcd_pos(nm as nat, dm as nat);
        lemma_gcd_divides(nm as nat, dm as nat);
        lemma_div_pos_is_pos(nm as int, g as int);
        lemma_div_pos_is_pos(dm as int, g as int);
        lemma_div_nonincreasing(nm as int, g as int);
        lemma_div_nonincreasing(dm as int, g as int);
        lemma_div_exact(nm as int, g as int);
        lemma_div_exact(dm as int, g as int);
        assert(dm as int / g as int >= 1) by (nonlinear_arith)
            requires
                g as int * (dm as int / g as int) == dm as int,
                dm as int >= 1,
                g as int >= 1,
                dm as int / g as int >= 0,
        ;
    }
    let n2 = nm / g;
    let d2 = dm / g;
    proof {
        let gi = g as int;
        let nred = rp_red((n as int, d as int));
        if n < 0 {
            assert(gi * -(n2 as int) == n as int) by (nonlinear_arith)
                requires
                    gi * (n2 as int) == nm as int,
                    nm as int == -(n as int),
            ;
            lemma_div_multiples_vanish(-(n2 as int), gi);
            assert((n as int) / gi == -(n2 as int));
        }
        // value preservation: (n / g) * d == n * (d / g)
        assert(nred.0 * (d as int) == (n as int) * nred.1) by (nonlinear_arith)
            requires
                gi >= 1,
                gi * (nred.0) == n as int,
                gi * (nred.1) == d as int,
        ;
    }
    let num = if n >= 0 {
        n2 as i128
    } else {
        -(n2 as i128)
    };
    proof {
        assert(num as int == rp_red((n as int, d as int)).0);
        assert(d2 as int == rp_red((n as int, d as int)).1);
    }
    Rat { num, den: d2 as i128 }
}

} // verus!
