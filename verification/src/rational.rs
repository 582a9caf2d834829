//! Exact non-negative rational numbers.
//!
//! Executable rationals carry a `u128` numerator and denominator; every
//! operation is checked and reports overflow instead of wrapping. The
//! mathematical model is `SRat`, a pair of unbounded integers, with value
//! equality `srat_eq` (equal cross products) rather than equality of
//! representations.

use vstd::prelude::*;

verus! {

/// Mathematical rational: numerator and denominator as unbounded integers.
pub ghost struct SRat {
    pub n: int,
    pub d: int,
}

/// A model rational is well formed when its denominator is positive and its
/// numerator non-negative (all quantities of this library are non-negative).
pub open spec fn srat_wf(a: SRat) -> bool {
    a.d > 0 && a.n >= 0
}

/// Value equality of rationals: a.n/a.d == b.n/b.d, by cross products.
pub open spec fn srat_eq(a: SRat, b: SRat) -> bool {
    a.n * b.d == b.n * a.d
}

/// Value order of rationals: a.n/a.d <= b.n/b.d, by cross products
/// (meaningful when both denominators are positive).
pub open spec fn srat_le(a: SRat, b: SRat) -> bool {
    a.n * b.d <= b.n * a.d
}

pub open spec fn srat_add(a: SRat, b: SRat) -> SRat {
    SRat { n: a.n * b.d + b.n * a.d, d: a.d * b.d }
}

pub open spec fn srat_mul(a: SRat, b: SRat) -> SRat {
    SRat { n: a.n * b.n, d: a.d * b.d }
}

/// a / b, as the rational (a.n * b.d) / (a.d * b.n).
pub open spec fn srat_div(a: SRat, b: SRat) -> SRat {
    SRat { n: a.n * b.d, d: a.d * b.n }
}

pub open spec fn srat_zero() -> SRat {
    SRat { n: 0, d: 1 }
}

pub proof fn lemma_eq_transitive(a: SRat, b: SRat, c: SRat)
    by (nonlinear_arith)
    requires
        srat_eq(a, b),
        srat_eq(b, c),
        b.d > 0,
    ensures
        srat_eq(a, c),
{
}

/// Equal rationals with positive denominators are zero together.
pub proof fn lemma_eq_zero(a: SRat, b: SRat)
    by (nonlinear_arith)
    requires
        srat_eq(a, b),
        a.d > 0,
        b.d > 0,
    ensures
        (a.n == 0) == (b.n == 0),
{
}

/// (x*y)*(z*w) == (x*z)*(y*w), a pure rearrangement.
proof fn lemma_mul4_swap(x: int, y: int, z: int, w: int)
    by (nonlinear_arith)
    ensures
        (x * y) * (z * w) == (x * z) * (y * w),
{
}

/// All the rearrangements of a product of four factors that the proofs in
/// this module need.
proof fn lemma_mul4_perm(x: int, y: int, z: int, w: int)
    by (nonlinear_arith)
    ensures
        (x * y) * (z * w) == (x * z) * (y * w),
        (x * y) * (z * w) == (x * w) * (y * z),
        (x * y) * (z * w) == (x * w) * (z * y),
        (x * y) * (z * w) == (x * z) * (w * y),
        (x * y) * (z * w) == (x * (y * w)) * z,
{
}

proof fn lemma_mul_comm(x: int, y: int)
    by (nonlinear_arith)
    ensures
        x * y == y * x,
{
}

/// Multiplication respects value equality.
pub proof fn lemma_mul_congruence(a: SRat, b: SRat, a2: SRat, b2: SRat)
    requires
        srat_eq(a, a2),
        srat_eq(b, b2),
    ensures
        srat_eq(srat_mul(a, b), srat_mul(a2, b2)),
{
    lemma_mul4_swap(a.n, b.n, a2.d, b2.d);
    lemma_mul4_swap(a2.n, a.d, b2.n, b.d);
}

/// Addition respects value equality when denominators are positive.
pub proof fn lemma_add_congruence(a: SRat, b: SRat, a2: SRat, b2: SRat)
    by (nonlinear_arith)
    requires
        srat_eq(a, a2),
        srat_eq(b, b2),
        a.d > 0,
        b.d > 0,
        a2.d > 0,
        b2.d > 0,
    ensures
        srat_eq(srat_add(a, b), srat_add(a2, b2)),
{
}

/// Division respects value equality.
pub proof fn lemma_div_congruence(a: SRat, b: SRat, a2: SRat, b2: SRat)
    requires
        srat_eq(a, a2),
        srat_eq(b, b2),
    ensures
        srat_eq(srat_div(a, b), srat_div(a2, b2)),
{
    lemma_mul4_swap(a.n, b.d, a2.d, b2.n);
    lemma_mul4_swap(a2.n, b2.d, a.d, b.n);
    lemma_mul_comm(b.d, b2.n);
    lemma_mul_comm(b2.d, b.n);
    assert((a.n * a2.d) * (b.d * b2.n) == (a2.n * a.d) * (b2.d * b.n));
}

/// Exact executable rational; the denominator is always at least 1.
#[derive(Clone, Copy, Debug, PartialEq, Eq, Structural)]
pub struct Rat {
    pub num: u128,
    pub den: u128,
}

impl Rat {
    pub open spec fn wf(self) -> bool {
        self.den >= 1
    }

    /// The mathematical value this representation stands for.
    pub open spec fn model(self) -> SRat {
        SRat { n: self.num as int, d: self.den as int }
    }

    pub fn new(num: u128, den: u128) -> (r: Rat)
        requires
            den >= 1,
        ensures
            r.wf(),
            r.num == num,
            r.den == den,
    {
        Rat { num, den }
    }

    pub fn clone_rat(&self) -> (r: Rat)
        ensures
            r == *self,
    {
        Rat { num: self.num, den: self.den }
    }
}

/// Greatest-common-divisor style helper: the returned value is positive.
/// Only positivity is stated; that the result divides both arguments is
/// re-checked at run time by the caller.
fn gcd_step(a0: u128, b0: u128) -> (g: u128)
    requires
        b0 >= 1,
    ensures
        g >= 1,
{
    let mut a: u128 = a0;
    let mut b: u128 = b0;
    while b != 0
        invariant
            a >= 1 || b >= 1,
        decreases b,
    {
        let t: u128 = a % b;
        a = b;
        b = t;
    }
    a
}

/// Divide `a` and `b` by their common divisor, keeping the ratio a/b.
fn reduce_pair(a: u128, b: u128) -> (r: (u128, u128))
    requires
        b >= 1,
    ensures
        r.1 >= 1,
        r.0 as int * b as int == a as int * r.1 as int,
        (r.0 == 0) == (a == 0),
        r.0 <= a,
        r.1 <= b,
{
    let g = gcd_step(a, b);
    if a % g == 0 && b % g == 0 {
        let a2 = a / g;
        let b2 = b / g;
        proof {
            vstd::arithmetic::div_mod::lemma_fundamental_div_mod(a as int, g as int);
            vstd::arithmetic::div_mod::lemma_fundamental_div_mod(b as int, g as int);
            assert(a as int == g as int * (a as int / g as int));
            assert(b as int == g as int * (b as int / g as int));
            assert(a2 as int * b as int == a as int * b2 as int) by (nonlinear_arith)
                requires
                    a as int == g as int * a2 as int,
                    b as int == g as int * b2 as int,
            ;
            assert(b2 >= 1) by (nonlinear_arith)
                requires
                    b as int == g as int * b2 as int,
                    b >= 1,
                    g >= 1,
            ;
            assert((a2 == 0) == (a == 0)) by (nonlinear_arith)
                requires
                    a as int == g as int * a2 as int,
                    g >= 1,
            ;
            assert(a2 <= a && b2 <= b) by (nonlinear_arith)
                requires
                    a as int == g as int * a2 as int,
                    b as int == g as int * b2 as int,
                    g >= 1,
                    a2 >= 0,
                    b2 >= 0,
            ;
        }
        (a2, b2)
    } else {
        (a, b)
    }
}

/// Addition is monotone with respect to the rational order.
#[verifier::rlimit(100)]
pub proof fn lemma_le_add_mono(a: SRat, b: SRat, c: SRat, d: SRat)
    requires
        srat_le(a, c),
        srat_le(b, d),
        a.d > 0,
        b.d > 0,
        c.d > 0,
        d.d > 0,
    ensures
        srat_le(srat_add(a, b), srat_add(c, d)),
{
    vstd::arithmetic::mul::lemma_mul_is_distributive_add_other_way(c.d * d.d, a.n * b.d, b.n * a.d);
    lemma_mul4_perm(a.n, b.d, c.d, d.d);
    lemma_mul4_perm(b.n, a.d, c.d, d.d);
    assert((a.n * b.d + b.n * a.d) * (c.d * d.d) == (a.n * c.d) * (b.d * d.d) + (b.n * d.d) * (a.d
        * c.d));
    vstd::arithmetic::mul::lemma_mul_is_distributive_add_other_way(a.d * b.d, c.n * d.d, d.n * c.d);
    lemma_mul4_perm(c.n, d.d, a.d, b.d);
    lemma_mul4_perm(d.n, c.d, a.d, b.d);
    assert((c.n * d.d + d.n * c.d) * (a.d * b.d) == (c.n * a.d) * (b.d * d.d) + (d.n * b.d) * (a.d
        * c.d));
    lemma_pos_mul(b.d, d.d);
    lemma_pos_mul(a.d, c.d);
    vstd::arithmetic::mul::lemma_mul_inequality(a.n * c.d, c.n * a.d, b.d * d.d);
    vstd::arithmetic::mul::lemma_mul_inequality(b.n * d.d, d.n * b.d, a.d * c.d);
}

/// Multiplying two rationals by the same non-negative rational keeps their
/// order.
pub proof fn lemma_le_mul_nonneg(p: SRat, q: SRat, v: SRat)
    requires
        srat_le(p, q),
        p.d > 0,
        q.d > 0,
        v.d > 0,
        v.n >= 0,
    ensures
        srat_le(srat_mul(p, v), srat_mul(q, v)),
{
    assert((p.n * v.n) * (q.d * v.d) == (p.n * q.d) * (v.n * v.d)) by (nonlinear_arith);
    assert((q.n * v.n) * (p.d * v.d) == (q.n * p.d) * (v.n * v.d)) by (nonlinear_arith);
    vstd::arithmetic::mul::lemma_mul_nonnegative(v.n, v.d);
    vstd::arithmetic::mul::lemma_mul_inequality(p.n * q.d, q.n * p.d, v.n * v.d);
}

/// The order respects value equality on the right.
pub proof fn lemma_le_eq_compat_right(x: SRat, y: SRat, z: SRat)
    requires
        srat_le(x, y),
        srat_eq(y, z),
        y.d > 0,
        z.d > 0,
    ensures
        srat_le(x, z),
{
    vstd::arithmetic::mul::lemma_mul_inequality(x.n * y.d, y.n * x.d, z.d);
    assert((x.n * y.d) * z.d == (x.n * z.d) * y.d) by (nonlinear_arith);
    assert((y.n * x.d) * z.d == (y.n * z.d) * x.d) by (nonlinear_arith);
    assert((y.n * z.d) * x.d == (z.n * y.d) * x.d);
    assert((z.n * y.d) * x.d == (z.n * x.d) * y.d) by (nonlinear_arith);
    vstd::arithmetic::mul::lemma_mul_inequality_converse(x.n * z.d, z.n * x.d, y.d);
}

/// The order respects value equality on the left.
pub proof fn lemma_le_eq_compat_left(x: SRat, y: SRat, z: SRat)
    requires
        srat_le(y, z),
        srat_eq(y, x),
        y.d > 0,
        x.d > 0,
    ensures
        srat_le(x, z),
{
    vstd::arithmetic::mul::lemma_mul_inequality(y.n * z.d, z.n * y.d, x.d);
    assert((y.n * z.d) * x.d == (y.n * x.d) * z.d) by (nonlinear_arith);
    assert((y.n * x.d) * z.d == (x.n * y.d) * z.d);
    assert((x.n * y.d) * z.d == (x.n * z.d) * y.d) by (nonlinear_arith);
    assert((z.n * y.d) * x.d == (z.n * x.d) * y.d) by (nonlinear_arith);
    vstd::arithmetic::mul::lemma_mul_inequality_converse(x.n * z.d, z.n * x.d, y.d);
}

/// Multiplication distributes over addition, up to value equality.
pub proof fn lemma_mul_add_distrib(m: SRat, a: SRat, b: SRat)
    ensures
        srat_eq(srat_add(srat_mul(m, a), srat_mul(m, b)), srat_mul(m, srat_add(a, b))),
{
    lemma_distrib_parts(m.n, m.d, a.n, a.d, b.n, b.d);
    let lhs = srat_add(srat_mul(m, a), srat_mul(m, b));
    let rhs = srat_mul(m, srat_add(a, b));
    assert(lhs.n == rhs.n * m.d);
    assert(lhs.d == rhs.d * m.d);
    lemma_shuffle3(rhs.n, m.d, rhs.d);
}

proof fn lemma_distrib_parts(mn: int, md: int, an: int, ad: int, bn: int, bd: int)
    ensures
        (mn * an) * (md * bd) + (mn * bn) * (md * ad) == (mn * (an * bd + bn * ad)) * md,
        (md * ad) * (md * bd) == (md * (ad * bd)) * md,
{
    vstd::arithmetic::mul::lemma_mul_is_distributive_add(mn, an * bd, bn * ad);
    vstd::arithmetic::mul::lemma_mul_is_distributive_add_other_way(
        md,
        mn * (an * bd),
        mn * (bn * ad),
    );
    lemma_mul4_perm(mn, an, md, bd);
    lemma_mul4_perm(mn, bn, md, ad);
    assert((md * ad) * (md * bd) == (md * (ad * bd)) * md) by (nonlinear_arith);
}

proof fn lemma_shuffle3(x: int, y: int, z: int)
    by (nonlinear_arith)
    ensures
        (x * y) * z == x * (z * y),
{
}

/// Multiplication of non-negative integers is monotone in both factors.
pub proof fn lemma_mul_le(x: int, xb: int, y: int, yb: int)
    by (nonlinear_arith)
    requires
        0 <= x <= xb,
        0 <= y <= yb,
    ensures
        x * y <= xb * yb,
{
}

pub proof fn lemma_pos_mul(x: int, y: int)
    by (nonlinear_arith)
    requires
        x > 0,
        y > 0,
    ensures
        x * y > 0,
{
}

impl Rat {
    /// A representation of num/den with a common divisor taken out.
    pub fn reduced(num: u128, den: u128) -> (r: Rat)
        requires
            den >= 1,
        ensures
            r.wf(),
            srat_eq(r.model(), SRat { n: num as int, d: den as int }),
            (r.num == 0) == (num == 0),
            r.num <= num,
            r.den <= den,
    {
        let (n, d) = reduce_pair(num, den);
        Rat { num: n, den: d }
    }

    /// Exact product. Success is owed whenever the unreduced component
    /// products fit in `u128`; cross-reduction can only widen that region.
    pub fn checked_mul(&self, other: &Rat) -> (r: Option<Rat>)
        requires
            self.wf(),
            other.wf(),
        ensures
            r is Some ==> (r->Some_0.wf() && srat_eq(r->Some_0.model(), srat_mul(
                self.model(),
                other.model(),
            ))),
            r is Some ==> ((r->Some_0.num == 0) == (srat_mul(self.model(), other.model()).n == 0)),
            r is Some ==> r->Some_0.num <= self.num * other.num && r->Some_0.den <= self.den
                * other.den,
            r is None ==> self.num * other.num > u128::MAX || self.den * other.den > u128::MAX,
    {
        let (n1, d2) = reduce_pair(self.num, other.den);
        let (n2, d1) = reduce_pair(other.num, self.den);
        match (n1.checked_mul(n2), d1.checked_mul(d2)) {
            (Some(n), Some(d)) => {
                proof {
                    assert(d >= 1) by (nonlinear_arith)
                        requires
                            d as int == d1 as int * d2 as int,
                            d1 >= 1,
                            d2 >= 1,
                    ;
                    assert(n as int * (self.den as int * other.den as int) == (self.num as int
                        * other.num as int) * (d1 as int * d2 as int)) by (nonlinear_arith)
                        requires
                            n as int == n1 as int * n2 as int,
                            n1 as int * other.den as int == self.num as int * d2 as int,
                            n2 as int * self.den as int == other.num as int * d1 as int,
                    ;
                    assert((n == 0) == (self.num as int * other.num as int == 0))
                        by (nonlinear_arith)
                        requires
                            n as int == n1 as int * n2 as int,
                            (n1 == 0) == (self.num == 0),
                            (n2 == 0) == (other.num == 0),
                    ;
                }
                proof {
                    lemma_mul_le(n1 as int, self.num as int, n2 as int, other.num as int);
                    lemma_mul_le(d1 as int, self.den as int, d2 as int, other.den as int);
                }
                Some(Rat { num: n, den: d })
            },
            _ => {
                proof {
                    lemma_mul_le(n1 as int, self.num as int, n2 as int, other.num as int);
                    lemma_mul_le(d1 as int, self.den as int, d2 as int, other.den as int);
                }
                None
            },
        }
    }

    /// Exact sum. Success is owed whenever the unreduced numerator and
    /// denominator of the sum fit in `u128`.
    pub fn checked_add(&self, other: &Rat) -> (r: Option<Rat>)
        requires
            self.wf(),
            other.wf(),
        ensures
            r is Some ==> (r->Some_0.wf() && srat_eq(r->Some_0.model(), srat_add(
                self.model(),
                other.model(),
            ))),
            r is Some ==> ((r->Some_0.num == 0) == (srat_add(self.model(), other.model()).n == 0)),
            r is Some ==> r->Some_0.num <= self.num * other.den + other.num * self.den
                && r->Some_0.den <= self.den * other.den,
            r is None ==> self.num * other.den + other.num * self.den > u128::MAX || self.den
                * other.den > u128::MAX,
    {
        proof {
            vstd::arithmetic::mul::lemma_mul_nonnegative(self.num as int, other.den as int);
            vstd::arithmetic::mul::lemma_mul_nonnegative(other.num as int, self.den as int);
        }
        let x = match self.num.checked_mul(other.den) {
            Some(v) => v,
            None => {
                return None;
            },
        };
        let y = match other.num.checked_mul(self.den) {
            Some(v) => v,
            None => {
                return None;
            },
        };
        let n = match x.checked_add(y) {
            Some(v) => v,
            None => {
                return None;
            },
        };
        let d = match self.den.checked_mul(other.den) {
            Some(v) => v,
            None => {
                return None;
            },
        };
        proof {
            assert(d >= 1) by (nonlinear_arith)
                requires
                    d as int == self.den as int * other.den as int,
                    self.den >= 1,
                    other.den >= 1,
            ;
        }
        let (rn, rd) = reduce_pair(n, d);
        proof {
            let s = srat_add(self.model(), other.model());
            assert(n as int == s.n && d as int == s.d);
            assert(srat_eq(SRat { n: rn as int, d: rd as int }, s)) by (nonlinear_arith)
                requires
                    rn as int * d as int == n as int * rd as int,
                    n as int == s.n,
                    d as int == s.d,
            ;
            assert((rn == 0) == (s.n == 0));
        }
        Some(Rat { num: rn, den: rd })
    }

    /// Exact quotient; the divisor must be a positive rational. Success is
    /// owed whenever the unreduced component products fit in `u128`.
    pub fn checked_div(&self, other: &Rat) -> (r: Option<Rat>)
        requires
            self.wf(),
            other.wf(),
            other.num >= 1,
        ensures
            r is Some ==> (r->Some_0.wf() && srat_eq(r->Some_0.model(), srat_div(
                self.model(),
                other.model(),
            ))),
            r is Some ==> ((r->Some_0.num == 0) == (self.num == 0)),
            r is Some ==> r->Some_0.num <= self.num * other.den && r->Some_0.den <= self.den
                * other.num,
            r is None ==> self.num * other.den > u128::MAX || self.den * other.num > u128::MAX,
    {
        let (n1, dn) = reduce_pair(self.num, other.num);
        let (n2, dd) = reduce_pair(other.den, self.den);
        match (n1.checked_mul(n2), dd.checked_mul(dn)) {
            (Some(n), Some(d)) => {
                proof {
                    assert(d >= 1) by (nonlinear_arith)
                        requires
                            d as int == dd as int * dn as int,
                            dd >= 1,
                            dn >= 1,
                    ;
                    assert(n as int * (self.den as int * other.num as int) == (self.num as int
                        * other.den as int) * (dd as int * dn as int)) by (nonlinear_arith)
                        requires
                            n as int == n1 as int * n2 as int,
                            n1 as int * other.num as int == self.num as int * dn as int,
                            n2 as int * self.den as int == other.den as int * dd as int,
                    ;
                    assert((n == 0) == (self.num == 0)) by (nonlinear_arith)
                        requires
                            n as int == n1 as int * n2 as int,
                            (n1 == 0) == (self.num == 0),
                            (n2 == 0) == (other.den == 0),
                            other.den >= 1,
                    ;
                }
                proof {
                    lemma_mul_le(n1 as int, self.num as int, n2 as int, other.den as int);
                    lemma_mul_le(dd as int, self.den as int, dn as int, other.num as int);
                }
                Some(Rat { num: n, den: d })
            },
            _ => {
                proof {
                    lemma_mul_le(n1 as int, self.num as int, n2 as int, other.den as int);
                    lemma_mul_le(dd as int, self.den as int, dn as int, other.num as int);
                }
                None
            },
        }
    }
}

} // verus!
