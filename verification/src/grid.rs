//! Cartesian-grid extensions: compose independent per-axis fixed-step
//! sequences into one flattened multi-dimensional iterator, row-major
//! ordered (the last axis varies fastest). Dedicated 2- and 3-axis
//! iterators are used, so the consumer always observes flat tuples.

use vstd::prelude::*;
use core::ops::Range;
use crate::arange::ArangeImpl;
use crate::linspace::{Linear, LinearInterpolation};
use vstd::arithmetic::div_mod::{
    lemma_fundamental_div_mod, lemma_fundamental_div_mod_converse_div,
    lemma_fundamental_div_mod_converse_mod, lemma_multiply_divide_lt,
};

verus! {

/// The sequence a per-axis primitive generates: its values at indices
/// `0..len`.
pub open spec fn axis_seq<T: Linear>(p: LinearInterpolation<T>, len: nat) -> Seq<T> {
    Seq::new(len, |k: int| p.val(k))
}

/// Row-major Cartesian product of two sequences: the second sequence
/// varies fastest.
pub open spec fn product2<X, Y>(s: Seq<X>, t: Seq<Y>) -> Seq<(X, Y)> {
    Seq::new(s.len() * t.len(), |k: int| (s[k / t.len() as int], t[k % t.len() as int]))
}

/// Flattening of a nested pair product into a flat 3-tuple. It is a pure,
/// per-item transform: it cannot change ordering or count.
pub open spec fn flatten3<X, Y, Z>(p: ((X, Y), Z)) -> (X, Y, Z) {
    (p.0.0, p.0.1, p.1)
}

/// The interpolation parameters of one grid axis.
pub open spec fn axis_params<T: Linear>(start: T, step: T) -> LinearInterpolation<T> {
    (LinearInterpolation { start, step })
}

/// The derived length of one grid axis over `[start, end)` with the given
/// step size.
pub open spec fn axis_len<T: Linear>(start: T, end: T, step: T) -> int {
    end.sub_spec(start).count_steps_spec(step)
}

/// When one grid axis is normalized and evaluated exactly.
pub open spec fn axis_ok<T: Linear>(start: T, end: T, step: T) -> bool {
    &&& end.sub_ok(start)
    &&& end.sub_spec(start).count_steps_ok(step)
    &&& forall|i: int| 0 <= i < axis_len(start, end, step) ==> axis_params(start, step).ok(i)
}

/// Two-dimensional grid iterator: every combination of the two axis
/// sequences exactly once, row-major (first axis slowest). The flat cursor
/// `i` walks the product; combination `i` pairs the values at the axis
/// indices `i / b_len` and `i % b_len`.
pub struct Grid2<T> {
    pub a: LinearInterpolation<T>,
    pub a_len: usize,
    pub b: LinearInterpolation<T>,
    pub b_len: usize,
    pub i: usize,
}

impl<T: Linear> Grid2<T> {
    /// Total number of combinations.
    pub open spec fn total(self) -> int {
        self.a_len * self.b_len
    }

    /// Well-formedness: the cursor is inside the product, the product fits
    /// the machine, and both axes evaluate exactly.
    pub open spec fn wf(self) -> bool {
        &&& self.total() <= usize::MAX
        &&& self.i <= self.total()
        &&& forall|k: int| 0 <= k < self.a_len ==> self.a.ok(k)
        &&& forall|k: int| 0 <= k < self.b_len ==> self.b.ok(k)
    }

    /// The combination at flat index `k`.
    pub open spec fn pair_at(self, k: int) -> (T, T) {
        (self.a.val(k / self.b_len as int), self.b.val(k % self.b_len as int))
    }

    /// The combinations still to be produced, front to back.
    pub open spec fn remaining(self) -> Seq<(T, T)> {
        Seq::new((self.total() - self.i) as nat, |k: int| self.pair_at(self.i + k))
    }

    /// Produce the combination at the cursor and advance it, or signal
    /// exhaustion. Exhaustion is idempotent.
    pub fn next(&mut self) -> (r: Option<(T, T)>)
        requires
            old(self).wf(),
        ensures
            final(self).wf(),
            final(self).a == old(self).a,
            final(self).a_len == old(self).a_len,
            final(self).b == old(self).b,
            final(self).b_len == old(self).b_len,
            old(self).i < old(self).total() ==> {
                &&& r == Some(old(self).pair_at(old(self).i as int))
                &&& final(self).i == old(self).i + 1
            },
            old(self).i >= old(self).total() ==> r == None::<(T, T)> && *final(self) == *old(
                self,
            ),
            old(self).remaining().len() > 0 ==> r == Some(old(self).remaining()[0])
                && final(self).remaining() == old(self).remaining().drop_first(),
            old(self).remaining().len() == 0 ==> r == None::<(T, T)> && *final(self) == *old(
                self,
            ),
    {
        let total = self.a_len * self.b_len;
        if self.i < total {
            proof {
                if self.b_len == 0 {
                    assert(self.a_len as int * 0 == 0) by (nonlinear_arith);
                }
                assert(self.a_len as int * self.b_len as int == self.b_len as int
                    * self.a_len as int) by (nonlinear_arith);
                lemma_multiply_divide_lt(self.i as int, self.b_len as int, self.a_len as int);
            }
            let ia = self.i / self.b_len;
            let ib = self.i % self.b_len;
            let va = self.a.lerp(ia);
            let vb = self.b.lerp(ib);
            self.i = self.i + 1;
            proof {
                assert(final(self).remaining() =~= old(self).remaining().drop_first());
            }
            Some((va, vb))
        } else {
            None
        }
    }

    /// Exact remaining count: the number of combinations still to be
    /// produced.
    pub fn len(&self) -> (r: usize)
        requires
            self.wf(),
        ensures
            r == self.total() - self.i,
            r == self.remaining().len(),
    {
        self.a_len * self.b_len - self.i
    }

    /// Lower and upper bound on the remaining count; both are exact.
    pub fn size_hint(&self) -> (r: (usize, Option<usize>))
        requires
            self.wf(),
        ensures
            r.0 == self.remaining().len(),
            r.1 == Some(self.remaining().len() as usize),
    {
        let len = self.len();
        (len, Some(len))
    }
}

/// Three-dimensional grid iterator: flat 3-tuples, not nested pairs,
/// row-major (first axis slowest, last fastest).
pub struct Grid3<T> {
    pub a: LinearInterpolation<T>,
    pub a_len: usize,
    pub b: LinearInterpolation<T>,
    pub b_len: usize,
    pub c: LinearInterpolation<T>,
    pub c_len: usize,
    pub i: usize,
}

impl<T: Linear> Grid3<T> {
    /// Total number of combinations.
    pub open spec fn total(self) -> int {
        self.a_len * self.b_len * self.c_len
    }

    /// Well-formedness: the cursor is inside the product, the (partial)
    /// products fit the machine, and all axes evaluate exactly.
    pub open spec fn wf(self) -> bool {
        &&& self.a_len * self.b_len <= usize::MAX
        &&& self.total() <= usize::MAX
        &&& self.i <= self.total()
        &&& forall|k: int| 0 <= k < self.a_len ==> self.a.ok(k)
        &&& forall|k: int| 0 <= k < self.b_len ==> self.b.ok(k)
        &&& forall|k: int| 0 <= k < self.c_len ==> self.c.ok(k)
    }

    /// The combination at flat index `k`.
    pub open spec fn triple_at(self, k: int) -> (T, T, T) {
        (
            self.a.val(k / self.c_len as int / self.b_len as int),
            self.b.val((k / self.c_len as int) % self.b_len as int),
            self.c.val(k % self.c_len as int),
        )
    }

    /// The combinations still to be produced, front to back.
    pub open spec fn remaining(self) -> Seq<(T, T, T)> {
        Seq::new((self.total() - self.i) as nat, |k: int| self.triple_at(self.i + k))
    }

    /// Produce the combination at the cursor and advance it, or signal
    /// exhaustion. Exhaustion is idempotent.
    pub fn next(&mut self) -> (r: Option<(T, T, T)>)
        requires
            old(self).wf(),
        ensures
            final(self).wf(),
            final(self).a == old(self).a,
            final(self).a_len == old(self).a_len,
            final(self).b == old(self).b,
            final(self).b_len == old(self).b_len,
            final(self).c == old(self).c,
            final(self).c_len == old(self).c_len,
            old(self).i < old(self).total() ==> {
                &&& r == Some(old(self).triple_at(old(self).i as int))
                &&& final(self).i == old(self).i + 1
            },
            old(self).i >= old(self).total() ==> r == None::<(T, T, T)> && *final(self) == *old(
                self,
            ),
            old(self).remaining().len() > 0 ==> r == Some(old(self).remaining()[0])
                && final(self).remaining() == old(self).remaining().drop_first(),
            old(self).remaining().len() == 0 ==> r == None::<(T, T, T)> && *final(self) == *old(
                self,
            ),
    {
        let total = self.a_len * self.b_len * self.c_len;
        if self.i < total {
            proof {
                let la = self.a_len as int;
                let lb = self.b_len as int;
                let lc = self.c_len as int;
                if self.c_len == 0 {
                    assert(la * lb * 0 == 0) by (nonlinear_arith);
                }
                assert(la * lb * lc == lc * (la * lb)) by (nonlinear_arith);
                lemma_multiply_divide_lt(self.i as int, lc, la * lb);
                if self.b_len == 0 {
                    assert(la * 0 == 0) by (nonlinear_arith);
                }
                assert(la * lb == lb * la) by (nonlinear_arith);
                lemma_multiply_divide_lt(self.i as int / lc, lb, la);
            }
            let q = self.i / self.c_len;
            let ia = q / self.b_len;
            let ib = q % self.b_len;
            let ic = self.i % self.c_len;
            let va = self.a.lerp(ia);
            let vb = self.b.lerp(ib);
            let vc = self.c.lerp(ic);
            self.i = self.i + 1;
            proof {
                assert(final(self).remaining() =~= old(self).remaining().drop_first());
            }
            Some((va, vb, vc))
        } else {
            None
        }
    }

    /// Exact remaining count: the number of combinations still to be
    /// produced.
    pub fn len(&self) -> (r: usize)
        requires
            self.wf(),
        ensures
            r == self.total() - self.i,
            r == self.remaining().len(),
    {
        self.a_len * self.b_len * self.c_len - self.i
    }

    /// Lower and upper bound on the remaining count; both are exact.
    pub fn size_hint(&self) -> (r: (usize, Option<usize>))
        requires
            self.wf(),
        ensures
            r.0 == self.remaining().len(),
            r.1 == Some(self.remaining().len() as usize),
    {
        let len = self.len();
        (len, Some(len))
    }
}

/// Create a two-dimensional grid over the tuple bound, one step size per
/// axis. The first axis is the slowest.
pub fn grid_each<T: Linear>(bounds: Range<(T, T)>, step: (T, T)) -> (r: Grid2<T>)
    requires
        axis_ok(bounds.start.0, bounds.end.0, step.0),
        axis_ok(bounds.start.1, bounds.end.1, step.1),
        axis_len(bounds.start.0, bounds.end.0, step.0) * axis_len(
            bounds.start.1,
            bounds.end.1,
            step.1,
        ) <= usize::MAX,
    ensures
        r.i == 0,
        r.a == axis_params(bounds.start.0, step.0),
        r.a_len == axis_len(bounds.start.0, bounds.end.0, step.0),
        r.b == axis_params(bounds.start.1, step.1),
        r.b_len == axis_len(bounds.start.1, bounds.end.1, step.1),
        r.wf(),
{
    let a = ArangeImpl::from(bounds.start.0..bounds.end.0, step.0);
    let b = ArangeImpl::from(bounds.start.1..bounds.end.1, step.1);
    let r = Grid2 { a: a.interpolate, a_len: a.steps, b: b.interpolate, b_len: b.steps, i: 0 };
    proof {
        assert(r.a_len as int * r.b_len as int >= 0) by (nonlinear_arith);
    }
    r
}

/// Create a two-dimensional grid over the tuple bound with one uniform
/// step size.
pub fn grid<T: Linear>(bounds: Range<(T, T)>, step: T) -> (r: Grid2<T>)
    requires
        axis_ok(bounds.start.0, bounds.end.0, step),
        axis_ok(bounds.start.1, bounds.end.1, step),
        axis_len(bounds.start.0, bounds.end.0, step) * axis_len(
            bounds.start.1,
            bounds.end.1,
            step,
        ) <= usize::MAX,
    ensures
        r.i == 0,
        r.a == axis_params(bounds.start.0, step),
        r.a_len == axis_len(bounds.start.0, bounds.end.0, step),
        r.b == axis_params(bounds.start.1, step),
        r.b_len == axis_len(bounds.start.1, bounds.end.1, step),
        r.wf(),
{
    grid_each(bounds, (step, step))
}

/// Create a three-dimensional grid over the tuple bound, one step size per
/// axis. The first axis is the slowest, the last the fastest.
pub fn grid3_each<T: Linear>(bounds: Range<(T, T, T)>, step: (T, T, T)) -> (r: Grid3<T>)
    requires
        axis_ok(bounds.start.0, bounds.end.0, step.0),
        axis_ok(bounds.start.1, bounds.end.1, step.1),
        axis_ok(bounds.start.2, bounds.end.2, step.2),
        axis_len(bounds.start.0, bounds.end.0, step.0) * axis_len(
            bounds.start.1,
            bounds.end.1,
            step.1,
        ) <= usize::MAX,
        axis_len(bounds.start.0, bounds.end.0, step.0) * axis_len(
            bounds.start.1,
            bounds.end.1,
            step.1,
        ) * axis_len(bounds.start.2, bounds.end.2, step.2) <= usize::MAX,
    ensures
        r.i == 0,
        r.a == axis_params(bounds.start.0, step.0),
        r.a_len == axis_len(bounds.start.0, bounds.end.0, step.0),
        r.b == axis_params(bounds.start.1, step.1),
        r.b_len == axis_len(bounds.start.1, bounds.end.1, step.1),
        r.c == axis_params(bounds.start.2, step.2),
        r.c_len == axis_len(bounds.start.2, bounds.end.2, step.2),
        r.wf(),
{
    let a = ArangeImpl::from(bounds.start.0..bounds.end.0, step.0);
    let b = ArangeImpl::from(bounds.start.1..bounds.end.1, step.1);
    let c = ArangeImpl::from(bounds.start.2..bounds.end.2, step.2);
    let r = Grid3 {
        a: a.interpolate,
        a_len: a.steps,
        b: b.interpolate,
        b_len: b.steps,
        c: c.interpolate,
        c_len: c.steps,
        i: 0,
    };
    proof {
        assert(r.a_len as int * r.b_len as int * (r.c_len as int) >= 0) by (nonlinear_arith);
    }
    r
}

/// Create a three-dimensional grid over the tuple bound with one uniform
/// step size.
pub fn grid3<T: Linear>(bounds: Range<(T, T, T)>, step: T) -> (r: Grid3<T>)
    requires
        axis_ok(bounds.start.0, bounds.end.0, step),
        axis_ok(bounds.start.1, bounds.end.1, step),
        axis_ok(bounds.start.2, bounds.end.2, step),
        axis_len(bounds.start.0, bounds.end.0, step) * axis_len(
            bounds.start.1,
            bounds.end.1,
            step,
        ) <= usize::MAX,
        axis_len(bounds.start.0, bounds.end.0, step) * axis_len(
            bounds.start.1,
            bounds.end.1,
            step,
        ) * axis_len(bounds.start.2, bounds.end.2, step) <= usize::MAX,
    ensures
        r.i == 0,
        r.a == axis_params(bounds.start.0, step),
        r.a_len == axis_len(bounds.start.0, bounds.end.0, step),
        r.b == axis_params(bounds.start.1, step),
        r.b_len == axis_len(bounds.start.1, bounds.end.1, step),
        r.c == axis_params(bounds.start.2, step),
        r.c_len == axis_len(bounds.start.2, bounds.end.2, step),
        r.wf(),
{
    grid3_each(bounds, (step, step, step))
}

/// A fresh two-dimensional grid is exactly the row-major Cartesian product
/// of its two axis sequences: combination count is the product of the axis
/// lengths, and the combination at flat index `ia * b_len + ib` pairs the
/// `ia`-th value of the first axis with the `ib`-th value of the second,
/// so the first axis varies slowest.
pub proof fn lemma_grid2_row_major<T: Linear>(g: Grid2<T>, ia: int, ib: int)
    requires
        g.i == 0,
        0 <= ia < g.a_len,
        0 <= ib < g.b_len,
    ensures
        g.remaining().len() == g.a_len * g.b_len,
        g.remaining()[ia * g.b_len + ib] == (g.a.val(ia), g.b.val(ib)),
{
    let lb = g.b_len as int;
    let k = ia * lb + ib;
    assert(0 <= k < g.a_len * lb) by (nonlinear_arith)
        requires
            0 <= ia < g.a_len as int,
            0 <= ib < lb,
            k == ia * lb + ib,
    ;
    lemma_fundamental_div_mod_converse_div(k, lb, ia, ib);
    lemma_fundamental_div_mod_converse_mod(k, lb, ia, ib);
}

/// Two distinct flat indices of a grid decode to two distinct pairs of
/// axis indices: no combination is produced twice.
pub proof fn lemma_grid2_no_duplicates<T: Linear>(g: Grid2<T>, k1: int, k2: int)
    requires
        0 <= k1 < k2 < g.a_len * g.b_len,
    ensures
        k1 / g.b_len as int != k2 / g.b_len as int || k1 % g.b_len as int != k2 % g.b_len
            as int,
{
    let lb = g.b_len as int;
    if g.b_len == 0 {
        assert(g.a_len as int * 0 == 0) by (nonlinear_arith);
    }
    lemma_fundamental_div_mod(k1, lb);
    lemma_fundamental_div_mod(k2, lb);
    if k1 / lb == k2 / lb && k1 % lb == k2 % lb {
        assert(lb * (k1 / lb) == lb * (k2 / lb)) by (nonlinear_arith)
            requires
                k1 / lb == k2 / lb,
        ;
    }
}

/// A fresh two-dimensional grid equals the row-major product of its axis
/// sequences.
pub proof fn lemma_grid2_is_product<T: Linear>(g: Grid2<T>)
    requires
        g.i == 0,
    ensures
        g.remaining() == product2(
            axis_seq(g.a, g.a_len as nat),
            axis_seq(g.b, g.b_len as nat),
        ),
{
    let s = axis_seq(g.a, g.a_len as nat);
    let t = axis_seq(g.b, g.b_len as nat);
    assert forall|k: int| 0 <= k < g.total() implies g.remaining()[k] == product2(s, t)[k] by {
        if g.b_len == 0 {
            assert(g.a_len as int * 0 == 0) by (nonlinear_arith);
        }
        assert(g.a_len as int * g.b_len as int == g.b_len as int * g.a_len as int)
            by (nonlinear_arith);
        lemma_multiply_divide_lt(k, g.b_len as int, g.a_len as int);
    }
    assert(g.remaining() =~= product2(s, t));
}

/// A fresh three-dimensional grid is the nested pairwise product of its
/// axis sequences with every nested pair flattened to a 3-tuple: the
/// flattening changes neither the ordering nor the count of the 2D
/// composition laws.
pub proof fn lemma_grid3_flattens_nested<T: Linear>(g: Grid3<T>)
    requires
        g.i == 0,
    ensures
        g.remaining() == product2(
            product2(axis_seq(g.a, g.a_len as nat), axis_seq(g.b, g.b_len as nat)),
            axis_seq(g.c, g.c_len as nat),
        ).map_values(|p: ((T, T), T)| flatten3(p)),
{
    let s = axis_seq(g.a, g.a_len as nat);
    let t = axis_seq(g.b, g.b_len as nat);
    let u = axis_seq(g.c, g.c_len as nat);
    let nested = product2(product2(s, t), u).map_values(|p: ((T, T), T)| flatten3(p));
    let la = g.a_len as int;
    let lb = g.b_len as int;
    let lc = g.c_len as int;
    assert(la * lb * lc == (la * lb) * lc) by (nonlinear_arith);
    assert forall|k: int| 0 <= k < g.total() implies g.remaining()[k] == nested[k] by {
        if g.c_len == 0 {
            assert(la * lb * 0 == 0) by (nonlinear_arith);
        }
        assert(la * lb * lc == lc * (la * lb)) by (nonlinear_arith);
        lemma_multiply_divide_lt(k, lc, la * lb);
        if g.b_len == 0 {
            assert(la * 0 == 0) by (nonlinear_arith);
        }
        assert(la * lb == lb * la) by (nonlinear_arith);
        lemma_multiply_divide_lt(k / lc, lb, la);
    }
    assert(g.remaining() =~= nested);
}

} // verus!
