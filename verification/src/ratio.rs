//! An exact rational coordinate type. The generators are generic over the
//! field operations; `Ratio` is the instance on which the spacing laws can
//! be stated exactly, since none of its operations drift.

use vstd::prelude::*;
use core::ops::Range;
use crate::linspace::{IntoLinSpace, Linear, LinearInterpolation};

verus! {

/// A fraction `num / den` with `den >= 1`. Fractions are not reduced;
/// equality compares cross products, so `1/2 == 2/4`.
#[derive(Clone, Copy, Debug)]
pub struct Ratio {
    pub num: i64,
    pub den: i64,
}

/// Whether an unbounded integer fits in the machine representation.
pub open spec fn in_i64(x: int) -> bool {
    i64::MIN as int <= x <= i64::MAX as int
}

/// Value equality of two fractions: `a.num / a.den == b.num / b.den`.
pub open spec fn rat_eq(a: Ratio, b: Ratio) -> bool {
    a.num * b.den == b.num * a.den
}

/// Value order of two fractions, for denominators `>= 1`.
pub open spec fn rat_lt(a: Ratio, b: Ratio) -> bool {
    a.num * b.den < b.num * a.den
}

/// Value equality of a difference: `x - y == s` as fractions, for
/// denominators `>= 1`.
pub open spec fn rat_minus_eq(x: Ratio, y: Ratio, s: Ratio) -> bool {
    (x.num * y.den - y.num * x.den) * s.den == s.num * (x.den * y.den)
}

impl Ratio {
    /// A well-formed fraction has a positive denominator.
    pub open spec fn wf(self) -> bool {
        self.den >= 1
    }

    pub fn new(num: i64, den: i64) -> (r: Ratio)
        requires
            den >= 1,
        ensures
            r.num == num,
            r.den == den,
            r.wf(),
    {
        Ratio { num, den }
    }

    /// The whole number `num`.
    pub fn whole(num: i64) -> (r: Ratio)
        ensures
            r.num == num,
            r.den == 1,
            r.wf(),
    {
        Ratio { num, den: 1 }
    }
}

/// Any product of two `i64` values fits in an `i128`.
proof fn lemma_i64_prod_in_i128(x: int, y: int)
    requires
        in_i64(x),
        in_i64(y),
    ensures
        i128::MIN as int <= x * y <= i128::MAX as int,
{
    assert(i128::MIN as int <= x * y <= i128::MAX as int) by (nonlinear_arith)
        requires
            in_i64(x),
            in_i64(y),
    ;
}

impl PartialEq for Ratio {
    fn eq(&self, other: &Ratio) -> (r: bool) {
        proof {
            lemma_i64_prod_in_i128(self.num as int, other.den as int);
            lemma_i64_prod_in_i128(other.num as int, self.den as int);
        }
        (self.num as i128) * (other.den as i128) == (other.num as i128) * (self.den as i128)
    }
}

impl vstd::std_specs::cmp::PartialEqSpecImpl for Ratio {
    open spec fn obeys_eq_spec() -> bool {
        true
    }

    open spec fn eq_spec(&self, other: &Ratio) -> bool {
        rat_eq(*self, *other)
    }
}

impl Linear for Ratio {
    open spec fn add_spec(self, rhs: Self) -> Self {
        (Ratio {
            num: (self.num * rhs.den + rhs.num * self.den) as i64,
            den: (self.den * rhs.den) as i64,
        })
    }

    open spec fn add_ok(self, rhs: Self) -> bool {
        &&& self.wf()
        &&& rhs.wf()
        &&& in_i64(self.num * rhs.den)
        &&& in_i64(rhs.num * self.den)
        &&& in_i64(self.num * rhs.den + rhs.num * self.den)
        &&& self.den * rhs.den <= i64::MAX as int
    }

    open spec fn sub_spec(self, rhs: Self) -> Self {
        (Ratio {
            num: (self.num * rhs.den - rhs.num * self.den) as i64,
            den: (self.den * rhs.den) as i64,
        })
    }

    open spec fn sub_ok(self, rhs: Self) -> bool {
        &&& self.wf()
        &&& rhs.wf()
        &&& in_i64(self.num * rhs.den)
        &&& in_i64(rhs.num * self.den)
        &&& in_i64(self.num * rhs.den - rhs.num * self.den)
        &&& self.den * rhs.den <= i64::MAX as int
    }

    open spec fn mul_spec(self, rhs: Self) -> Self {
        (Ratio { num: (self.num * rhs.num) as i64, den: (self.den * rhs.den) as i64 })
    }

    open spec fn mul_ok(self, rhs: Self) -> bool {
        &&& self.wf()
        &&& rhs.wf()
        &&& in_i64(self.num * rhs.num)
        &&& self.den * rhs.den <= i64::MAX as int
    }

    open spec fn div_spec(self, rhs: Self) -> Self {
        if rhs.num > 0 {
            (Ratio { num: (self.num * rhs.den) as i64, den: (self.den * rhs.num) as i64 })
        } else {
            (Ratio { num: (-(self.num * rhs.den)) as i64, den: (self.den * -rhs.num) as i64 })
        }
    }

    open spec fn div_ok(self, rhs: Self) -> bool {
        &&& self.wf()
        &&& rhs.wf()
        &&& rhs.num != 0
        &&& in_i64(-(rhs.num as int))
        &&& in_i64(self.num * rhs.den)
        &&& in_i64(-(self.num * rhs.den))
        &&& if rhs.num > 0 {
            self.den * rhs.num <= i64::MAX as int
        } else {
            self.den * -rhs.num <= i64::MAX as int
        }
    }

    open spec fn from_count_spec(n: int) -> Self {
        (Ratio { num: n as i64, den: 1 })
    }

    open spec fn from_count_ok(n: int) -> bool {
        0 <= n <= i64::MAX as int
    }

    open spec fn count_steps_spec(self, step: Self) -> int {
        (self.num * step.den + self.den * step.num - 1) / (self.den * step.num)
    }

    open spec fn count_steps_ok(self, step: Self) -> bool {
        &&& self.wf()
        &&& step.wf()
        &&& step.num >= 1
        &&& self.num >= 0
        &&& in_i64(self.num * step.den)
        &&& in_i64(self.den * step.num)
        &&& in_i64(self.num * step.den + self.den * step.num - 1)
        &&& self.count_steps_spec(step) <= usize::MAX as int
    }

    fn add(self, rhs: Self) -> (r: Self) {
        Ratio { num: self.num * rhs.den + rhs.num * self.den, den: self.den * rhs.den }
    }

    fn sub(self, rhs: Self) -> (r: Self) {
        Ratio { num: self.num * rhs.den - rhs.num * self.den, den: self.den * rhs.den }
    }

    fn mul(self, rhs: Self) -> (r: Self) {
        Ratio { num: self.num * rhs.num, den: self.den * rhs.den }
    }

    fn div(self, rhs: Self) -> (r: Self) {
        if rhs.num > 0 {
            Ratio { num: self.num * rhs.den, den: self.den * rhs.num }
        } else {
            Ratio { num: -(self.num * rhs.den), den: self.den * -rhs.num }
        }
    }

    fn from_count(n: usize) -> (r: Self) {
        Ratio { num: n as i64, den: 1 }
    }

    fn count_steps(self, step: Self) -> (r: usize) {
        let den: i64 = self.den * step.num;
        proof {
            assert(self.den * step.num >= 1) by (nonlinear_arith)
                requires
                    self.den >= 1,
                    step.num >= 1,
            ;
        }
        let num: i64 = self.num * step.den + (den - 1);
        let q: i64 = num / den;
        proof {
            assert(num >= 0) by {
                assert(self.num * step.den >= 0) by (nonlinear_arith)
                    requires
                        self.num >= 0,
                        step.den >= 1,
                ;
            };
            assert(q == num as int / den as int);
            assert(0 <= num as int / den as int <= num) by {
                vstd::arithmetic::div_mod::lemma_div_pos_is_pos(num as int, den as int);
                vstd::arithmetic::div_mod::lemma_div_is_ordered_by_denominator(
                    num as int,
                    1,
                    den as int,
                );
            };
            assert(q == self.count_steps_spec(step));
        }
        q as usize
    }
}

/// Closed form of linear interpolation over fractions: the value at step
/// index `i` is the fraction `(start.num * step.den + step.num * i *
/// start.den) / (start.den * step.den)`, that is, exactly `start + step * i`.
pub proof fn lemma_ratio_val_form(p: LinearInterpolation<Ratio>, i: int)
    requires
        0 <= i,
        p.ok(i),
        p.start.wf(),
        p.step.wf(),
    ensures
        p.val(i).num == p.start.num * p.step.den + p.step.num * i * p.start.den,
        p.val(i).den == p.start.den * p.step.den,
        p.val(i).wf(),
{
    let cnt = Ratio::from_count_spec(i);
    assert(cnt.num == i && cnt.den == 1);
    let prod = p.step.mul_spec(cnt);
    assert(prod.num == p.step.num * i && prod.den == p.step.den) by {
        assert(p.step.num * (cnt.num as int) == p.step.num * i);
        assert(p.step.den * 1 == p.step.den);
    };
    assert(p.start.den * p.step.den >= 1) by (nonlinear_arith)
        requires
            p.start.den >= 1,
            p.step.den >= 1,
    ;
}

/// The first value of a linear space equals its start.
pub proof fn lemma_ratio_first(p: LinearInterpolation<Ratio>)
    requires
        p.ok(0),
        p.start.wf(),
        p.step.wf(),
    ensures
        rat_eq(p.val(0), p.start),
{
    lemma_ratio_val_form(p, 0);
    let an = p.start.num as int;
    let ad = p.start.den as int;
    let sn = p.step.num as int;
    let sd = p.step.den as int;
    assert((an * sd + sn * 0 * ad) * ad == an * (ad * sd)) by (nonlinear_arith);
}

/// Closed form of the constructed step size `(b - a) / m`.
pub proof fn lemma_ratio_step_form(a: Ratio, b: Ratio, m: int)
    requires
        1 <= m,
        a.wf(),
        b.wf(),
        b.sub_ok(a),
        Ratio::from_count_ok(m),
        b.sub_spec(a).div_ok(Ratio::from_count_spec(m)),
    ensures
        b.sub_spec(a).div_spec(Ratio::from_count_spec(m)).num == b.num * a.den - a.num * b.den,
        b.sub_spec(a).div_spec(Ratio::from_count_spec(m)).den == b.den * a.den * m,
        b.sub_spec(a).div_spec(Ratio::from_count_spec(m)).wf(),
{
    let d = b.sub_spec(a);
    let cnt = Ratio::from_count_spec(m);
    assert(b.den * a.den >= 1) by (nonlinear_arith)
        requires
            a.den >= 1,
            b.den >= 1,
    ;
    assert(d.num * (cnt.den as int) == d.num * 1);
    assert(b.den * a.den * m >= 1) by (nonlinear_arith)
        requires
            b.den as int * (a.den as int) >= 1,
            m >= 1,
    ;
}

/// The constructed step reaches `b` after `m` steps from `a`: the value at
/// step index `m` of the primitive `{start: a, step: (b - a) / m}` equals
/// `b` exactly.
pub proof fn lemma_ratio_reaches(a: Ratio, b: Ratio, m: int, p: LinearInterpolation<Ratio>)
    requires
        1 <= m,
        a.wf(),
        b.wf(),
        b.sub_ok(a),
        Ratio::from_count_ok(m),
        b.sub_spec(a).div_ok(Ratio::from_count_spec(m)),
        p.start == a,
        p.step == b.sub_spec(a).div_spec(Ratio::from_count_spec(m)),
        p.ok(m),
    ensures
        rat_eq(p.val(m), b),
{
    lemma_ratio_step_form(a, b, m);
    lemma_ratio_val_form(p, m);
    let an = a.num as int;
    let ad = a.den as int;
    let bn = b.num as int;
    let bd = b.den as int;
    let vn = p.val(m).num as int;
    let vd = p.val(m).den as int;
    assert(vn == bn * ad * ad * m) by (nonlinear_arith)
        requires
            vn == an * (p.step.den as int) + p.step.num as int * m * ad,
            p.step.num as int == bn * ad - an * bd,
            p.step.den as int == bd * ad * m,
    ;
    assert(vn * bd == bn * vd) by (nonlinear_arith)
        requires
            vn == bn * ad * ad * m,
            vd == ad * (bd * ad * m),
    ;
}

/// Over a half-open bound `[a, b)` with `n > 0` steps, the linear space
/// starts exactly at `a`, consecutive values differ exactly by the
/// constructed step, and the implied (excluded) `n`-th value equals `b`
/// exactly. That the space has exactly `n` values is the `ensures` of
/// `lin_space`. The parameters `p` are what `lin_space(a..b, n)` builds;
/// the one extra hypothesis is that the machine also computes the excluded
/// value exactly.
/// Consecutive values of a linear space differ exactly by the step size.
pub proof fn lemma_ratio_spacing(p: LinearInterpolation<Ratio>, i: int)
    requires
        0 <= i,
        p.ok(i),
        p.ok(i + 1),
        p.start.wf(),
        p.step.wf(),
    ensures
        rat_minus_eq(p.val(i + 1), p.val(i), p.step),
{
    lemma_ratio_val_form(p, i);
    lemma_ratio_val_form(p, i + 1);
    let an = p.start.num as int;
    let ad = p.start.den as int;
    let sn = p.step.num as int;
    let sd = p.step.den as int;
    let xn = p.val(i + 1).num as int;
    let yn = p.val(i).num as int;
    let dd = ad * sd;
    assert(xn - yn == sn * ad) by (nonlinear_arith)
        requires
            xn == an * sd + sn * (i + 1) * ad,
            yn == an * sd + sn * i * ad,
    ;
    assert((xn * dd - yn * dd) * sd == (sn * ad) * dd * sd) by (nonlinear_arith)
        requires
            xn - yn == sn * ad,
    ;
    assert((sn * ad) * dd * sd == sn * (dd * dd)) by (nonlinear_arith)
        requires
            dd == ad * sd,
    ;
}

pub proof fn lemma_lin_space_half_open(a: Ratio, b: Ratio, n: usize, p: LinearInterpolation<Ratio>)
    requires
        n >= 1,
        a.wf(),
        b.wf(),
        (Range { start: a, end: b }).lin_ok(n as int),
        p == (Range { start: a, end: b }).lin_params(n as int),
        p.ok(n as int),
    ensures
        rat_eq(p.val(0), a),
        forall|i: int|
            0 <= i < n - 1 ==> rat_minus_eq(#[trigger] p.val(i + 1), p.val(i), p.step),
        rat_eq(p.val(n as int), b),
{
    lemma_ratio_step_form(a, b, n as int);
    lemma_ratio_first(p);
    assert forall|i: int| 0 <= i < n - 1 implies rat_minus_eq(
        #[trigger] p.val(i + 1),
        p.val(i),
        p.step,
    ) by {
        lemma_ratio_spacing(p, i);
    }
    lemma_ratio_reaches(a, b, n as int, p);
}

/// Over a closed bound `[a, b]` with `n > 1` steps, the linear space
/// starts exactly at `a` and its last value (step index `n - 1`) equals
/// `b` exactly. The parameters `p` are what `lin_space(a..=b, n)` builds:
/// start `a` and step `(b - a) / (n - 1)`.
pub proof fn lemma_lin_space_closed(a: Ratio, b: Ratio, n: usize, p: LinearInterpolation<Ratio>)
    requires
        n >= 2,
        a.wf(),
        b.wf(),
        b.sub_ok(a),
        Ratio::from_count_ok(n as int - 1),
        b.sub_spec(a).div_ok(Ratio::from_count_spec(n as int - 1)),
        p.start == a,
        p.step == b.sub_spec(a).div_spec(Ratio::from_count_spec(n as int - 1)),
        forall|i: int| 0 <= i < n ==> p.ok(i),
    ensures
        rat_eq(p.val(0), a),
        rat_eq(p.val(n as int - 1), b),
{
    lemma_ratio_step_form(a, b, n as int - 1);
    lemma_ratio_first(p);
    lemma_ratio_reaches(a, b, n as int - 1, p);
}

/// For exact fractions the ceiling-division step count of a fixed-step
/// range is not an estimate but exact: the value at step index `k` lies
/// strictly below `end` exactly when `k` lies below the derived count.
/// So a fixed-step iterator over `Ratio` stops at the first value not
/// strictly below `end`, and its reported length always matches the count
/// a live comparison would give (floating drift is what makes the original
/// formula an estimate; there is none here).
pub proof fn lemma_arange_count_exact(start: Ratio, end: Ratio, step: Ratio, k: int)
    requires
        start.wf(),
        end.wf(),
        step.wf(),
        step.num >= 1,
        end.sub_ok(start),
        end.sub_spec(start).count_steps_ok(step),
        0 <= k,
        (LinearInterpolation { start, step }).ok(k),
    ensures
        rat_lt((LinearInterpolation { start, step }).val(k), end) <==> k < end.sub_spec(
            start,
        ).count_steps_spec(step),
{
    let p = LinearInterpolation { start, step };
    let d = end.sub_spec(start);
    let an = start.num as int;
    let ad = start.den as int;
    let en = end.num as int;
    let ed = end.den as int;
    let sn = step.num as int;
    let sd = step.den as int;
    let a_int = d.num * sd;
    let b_int = d.den * sn;
    let c_int = d.count_steps_spec(step);
    lemma_ratio_val_form(p, k);
    assert(d.den >= 1) by (nonlinear_arith)
        requires
            d.den as int == ed * ad,
            ed >= 1,
            ad >= 1,
    ;
    assert(b_int >= 1) by (nonlinear_arith)
        requires
            d.den >= 1,
            sn >= 1,
            b_int == d.den * sn,
    ;
    let vn = p.val(k).num as int;
    let vd = p.val(k).den as int;
    assert(vn * ed == an * sd * ed + sn * k * ad * ed) by (nonlinear_arith)
        requires
            vn == an * sd + sn * k * ad,
    ;
    assert(en * vd == en * ad * sd) by (nonlinear_arith)
        requires
            vd == ad * sd,
    ;
    assert(k * b_int == sn * k * ad * ed) by (nonlinear_arith)
        requires
            b_int == d.den * sn,
            d.den as int == ed * ad,
    ;
    assert(a_int == en * ad * sd - an * sd * ed) by (nonlinear_arith)
        requires
            a_int == d.num * sd,
            d.num as int == en * ad - an * ed,
    ;
    assert(rat_lt(p.val(k), end) <==> k * b_int < a_int);
    assert(c_int == (a_int + b_int - 1) / b_int);
    vstd::arithmetic::div_mod::lemma_fundamental_div_mod(a_int + b_int - 1, b_int);
    let r_int = (a_int + b_int - 1) % b_int;
    assert(0 <= r_int < b_int);
    if k < c_int {
        assert(k * b_int < a_int) by (nonlinear_arith)
            requires
                k <= c_int - 1,
                b_int >= 1,
                a_int + b_int - 1 == b_int * c_int + r_int,
                0 <= r_int,
        ;
    }
    if k >= c_int {
        assert(!(k * b_int < a_int)) by (nonlinear_arith)
            requires
                k >= c_int,
                b_int >= 1,
                a_int + b_int - 1 == b_int * c_int + r_int,
                r_int < b_int,
        ;
    }
}

} // verus!
