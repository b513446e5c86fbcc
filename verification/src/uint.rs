//! Exact unsigned integer coordinates: `u64` as a [`Linear`] and
//! [`Logarithmic`] instance. Division is integer division and the ratio of
//! a logarithmic space is a floor root, so spaces over powers (such as
//! `1..=1000` in four steps) come out exact.

use vstd::prelude::*;
use crate::linspace::Linear;
use crate::logspace::Logarithmic;

verus! {

/// `b^e` for a nonnegative exponent (`b^0 == 1`).
pub open spec fn upow(b: int, e: int) -> int
    decreases e,
{
    if e <= 0 {
        1
    } else {
        b * upow(b, e - 1)
    }
}

/// A power of a positive base is positive.
pub proof fn lemma_upow_pos(b: int, e: int)
    requires
        b >= 1,
    ensures
        upow(b, e) >= 1,
    decreases e,
{
    if e > 0 {
        lemma_upow_pos(b, e - 1);
        assert(b * upow(b, e - 1) >= upow(b, e - 1)) by (nonlinear_arith)
            requires
                b >= 1,
                upow(b, e - 1) >= 1,
        ;
    }
}

/// A power of a positive base is at least the base itself.
pub proof fn lemma_upow_ge_base(b: int, e: int)
    requires
        b >= 1,
        e >= 1,
    ensures
        upow(b, e) >= b,
{
    lemma_upow_pos(b, e - 1);
    assert(b * upow(b, e - 1) >= b) by (nonlinear_arith)
        requires
            b >= 1,
            upow(b, e - 1) >= 1,
    ;
}

/// Powers of a positive base grow (weakly) with the exponent.
pub proof fn lemma_upow_mono_exp(b: int, e1: int, e2: int)
    requires
        b >= 1,
        0 <= e1 <= e2,
    ensures
        upow(b, e1) <= upow(b, e2),
    decreases e2,
{
    if e1 < e2 {
        lemma_upow_mono_exp(b, e1, e2 - 1);
        lemma_upow_pos(b, e2 - 1);
        assert(upow(b, e2 - 1) <= b * upow(b, e2 - 1)) by (nonlinear_arith)
            requires
                b >= 1,
                upow(b, e2 - 1) >= 1,
        ;
    }
}

/// Whether `base^n` exceeds `cap`, computed without overflowing.
fn pow_gt(base: u64, n: usize, cap: u64) -> (b: bool)
    ensures
        b == (upow(base as int, n as int) > cap as int),
{
    let mut acc: u64 = 1;
    let mut j: usize = 0;
    while j < n
        invariant
            j <= n,
            acc as int == upow(base as int, j as int),
        decreases n - j,
    {
        match acc.checked_mul(base) {
            Some(v) => {
                if v > cap {
                    proof {
                        if base == 0 {
                            assert(acc as int * (base as int) == 0) by (nonlinear_arith)
                                requires
                                    base as int == 0,
                            ;
                        }
                        assert((base as int) * (acc as int) == (acc as int) * (base as int))
                            by (nonlinear_arith);
                        assert(upow(base as int, j as int + 1) > cap as int);
                        lemma_upow_mono_exp(base as int, j as int + 1, n as int);
                    }
                    return true;
                }
                acc = v;
            },
            None => {
                proof {
                    if base == 0 {
                        assert(acc as int * (base as int) == 0) by (nonlinear_arith)
                            requires
                                base as int == 0,
                        ;
                    }
                    assert((base as int) * (acc as int) == (acc as int) * (base as int))
                        by (nonlinear_arith);
                    assert(upow(base as int, j as int + 1) > cap as int);
                    lemma_upow_mono_exp(base as int, j as int + 1, n as int);
                }
                return true;
            },
        }
        j = j + 1;
    }
    acc > cap
}

impl Linear for u64 {
    open spec fn add_spec(self, rhs: Self) -> Self {
        (self + rhs) as u64
    }

    open spec fn add_ok(self, rhs: Self) -> bool {
        self + rhs <= u64::MAX
    }

    open spec fn sub_spec(self, rhs: Self) -> Self {
        (self - rhs) as u64
    }

    open spec fn sub_ok(self, rhs: Self) -> bool {
        rhs <= self
    }

    open spec fn mul_spec(self, rhs: Self) -> Self {
        (self * rhs) as u64
    }

    open spec fn mul_ok(self, rhs: Self) -> bool {
        self * rhs <= u64::MAX
    }

    open spec fn div_spec(self, rhs: Self) -> Self {
        (self as int / rhs as int) as u64
    }

    open spec fn div_ok(self, rhs: Self) -> bool {
        rhs >= 1
    }

    open spec fn from_count_spec(n: int) -> Self {
        n as u64
    }

    open spec fn from_count_ok(n: int) -> bool {
        0 <= n <= u64::MAX
    }

    open spec fn count_steps_spec(self, step: Self) -> int {
        (self + step - 1) as int / step as int
    }

    open spec fn count_steps_ok(self, step: Self) -> bool {
        &&& step >= 1
        &&& self + step - 1 <= u64::MAX
        &&& self.count_steps_spec(step) <= usize::MAX as int
    }

    fn add(self, rhs: Self) -> (r: Self) {
        self + rhs
    }

    fn sub(self, rhs: Self) -> (r: Self) {
        self - rhs
    }

    fn mul(self, rhs: Self) -> (r: Self) {
        self * rhs
    }

    fn div(self, rhs: Self) -> (r: Self) {
        self / rhs
    }

    fn from_count(n: usize) -> (r: Self) {
        n as u64
    }

    fn count_steps(self, step: Self) -> (r: usize) {
        let q: u64 = (self + (step - 1)) / step;
        proof {
            vstd::arithmetic::div_mod::lemma_div_is_ordered_by_denominator(
                (self + step - 1) as int,
                1,
                step as int,
            );
        }
        q as usize
    }
}

impl Logarithmic for u64 {
    open spec fn root_ok(self, n: int) -> bool {
        true
    }

    /// The floor `n`-th root: the largest `r` with `r^n <= self`.
    open spec fn root_post(self, n: int, r: Self) -> bool {
        upow(r as int, n) <= self < upow(r as int + 1, n)
    }

    fn root(self, n: usize) -> (r: Self) {
        let mut r: u64 = 0;
        loop
            invariant
                n >= 1,
                r <= self,
                upow(r as int, n as int) <= self as int,
            decreases self - r,
        {
            if r >= self {
                proof {
                    lemma_upow_ge_base(r as int + 1, n as int);
                }
                return r;
            }
            if pow_gt(r + 1, n, self) {
                return r;
            }
            proof {
                lemma_upow_ge_base(r as int + 1, n as int);
            }
            r = r + 1;
        }
    }
}

} // verus!
