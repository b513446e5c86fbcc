//! Evenly spaced linear ranges: the linear interpolation primitive and the
//! 1D space iterator that drives it forward and backward with exact
//! remaining-length tracking.

use vstd::prelude::*;
use core::ops::{Range, RangeInclusive};

verus! {

/// Capability set a coordinate type must offer to the linear generators:
/// the field operations of the interpolation formulas, a conversion from a
/// step index, and a ceiling step count. Each operation comes with a
/// predicate saying on which operands the machine representation computes
/// it exactly, and a spec function giving the computed value.
pub trait Linear: Sized + Copy {
    /// Value of `self + rhs`.
    spec fn add_spec(self, rhs: Self) -> Self;

    /// When `self + rhs` is representable.
    spec fn add_ok(self, rhs: Self) -> bool;

    /// Value of `self - rhs`.
    spec fn sub_spec(self, rhs: Self) -> Self;

    /// When `self - rhs` is representable.
    spec fn sub_ok(self, rhs: Self) -> bool;

    /// Value of `self * rhs`.
    spec fn mul_spec(self, rhs: Self) -> Self;

    /// When `self * rhs` is representable.
    spec fn mul_ok(self, rhs: Self) -> bool;

    /// Value of `self / rhs`.
    spec fn div_spec(self, rhs: Self) -> Self;

    /// When `self / rhs` is defined and representable.
    spec fn div_ok(self, rhs: Self) -> bool;

    /// The coordinate standing for the step index `n`.
    spec fn from_count_spec(n: int) -> Self;

    /// When the step index `n` is representable.
    spec fn from_count_ok(n: int) -> bool;

    /// Ceiling of `self / step`: how many fixed steps of size `step` are
    /// needed to cover a span of `self`.
    spec fn count_steps_spec(self, step: Self) -> int;

    /// When the ceiling step count is defined and fits in `usize`.
    spec fn count_steps_ok(self, step: Self) -> bool;

    fn add(self, rhs: Self) -> (r: Self)
        requires
            self.add_ok(rhs),
        ensures
            r == self.add_spec(rhs),
    ;

    fn sub(self, rhs: Self) -> (r: Self)
        requires
            self.sub_ok(rhs),
        ensures
            r == self.sub_spec(rhs),
    ;

    fn mul(self, rhs: Self) -> (r: Self)
        requires
            self.mul_ok(rhs),
        ensures
            r == self.mul_spec(rhs),
    ;

    fn div(self, rhs: Self) -> (r: Self)
        requires
            self.div_ok(rhs),
        ensures
            r == self.div_spec(rhs),
    ;

    fn from_count(n: usize) -> (r: Self)
        requires
            Self::from_count_ok(n as int),
        ensures
            r == Self::from_count_spec(n as int),
    ;

    fn count_steps(self, step: Self) -> (r: usize)
        requires
            self.count_steps_ok(step),
        ensures
            r == self.count_steps_spec(step),
    ;
}

/// Linear interpolation primitive: the pure map `i -> start + step * i`.
#[derive(Clone, Copy)]
pub struct LinearInterpolation<T> {
    pub start: T,
    pub step: T,
}

impl<T: Linear> LinearInterpolation<T> {
    /// The value at step index `i`.
    pub open spec fn val(self, i: int) -> T {
        self.start.add_spec(self.step.mul_spec(T::from_count_spec(i)))
    }

    /// Whether the value at step index `i` is computed exactly.
    pub open spec fn ok(self, i: int) -> bool {
        &&& T::from_count_ok(i)
        &&& self.step.mul_ok(T::from_count_spec(i))
        &&& self.start.add_ok(self.step.mul_spec(T::from_count_spec(i)))
    }

    /// Evaluate the primitive at step index `x`.
    pub fn lerp(self, x: usize) -> (r: T)
        requires
            self.ok(x as int),
        ensures
            r == self.val(x as int),
    {
        self.start.add(self.step.mul(T::from_count(x)))
    }
}

/// 1D space iterator over a linear interpolation primitive. The cursor `x`
/// and the backward boundary `steps` never cross; the values still to be
/// produced are exactly the interpolations at indices `x..steps`.
#[derive(Clone, Copy)]
pub struct LinSpace<T> {
    pub x: usize,
    pub steps: usize,
    pub interpolate: LinearInterpolation<T>,
}

impl<T: Linear> LinSpace<T> {
    /// Well-formedness: the cursors have not crossed, and every value still
    /// to be produced is computed exactly.
    pub open spec fn wf(self) -> bool {
        &&& self.x <= self.steps
        &&& forall|i: int| self.x <= i < self.steps ==> self.interpolate.ok(i)
    }

    /// The values still to be produced, front to back.
    pub open spec fn remaining(self) -> Seq<T> {
        Seq::new((self.steps - self.x) as nat, |k: int| self.interpolate.val(self.x + k))
    }

    pub fn new(steps: usize, interpolate: LinearInterpolation<T>) -> (r: Self)
        requires
            forall|i: int| 0 <= i < steps ==> interpolate.ok(i),
        ensures
            r.x == 0,
            r.steps == steps,
            r.interpolate == interpolate,
            r.wf(),
    {
        LinSpace { x: 0, steps, interpolate }
    }

    /// Forward step: produce the value at the cursor and advance it, or
    /// signal exhaustion. Exhaustion is idempotent.
    pub fn next(&mut self) -> (r: Option<T>)
        requires
            old(self).wf(),
        ensures
            final(self).wf(),
            final(self).steps == old(self).steps,
            final(self).interpolate == old(self).interpolate,
            old(self).x < old(self).steps ==> {
                &&& r == Some(old(self).interpolate.val(old(self).x as int))
                &&& final(self).x == old(self).x + 1
            },
            old(self).x >= old(self).steps ==> r == None::<T> && *final(self) == *old(self),
            old(self).remaining().len() > 0 ==> r == Some(old(self).remaining()[0])
                && final(self).remaining() == old(self).remaining().drop_first(),
            old(self).remaining().len() == 0 ==> r == None::<T> && *final(self) == *old(self),
    {
        if self.x < self.steps {
            let v = self.interpolate.lerp(self.x);
            self.x = self.x + 1;
            proof {
                assert(final(self).remaining() =~= old(self).remaining().drop_first());
            }
            Some(v)
        } else {
            None
        }
    }

    /// Backward step: retreat the backward boundary and produce the value
    /// there, or signal exhaustion. Exhaustion is idempotent.
    pub fn next_back(&mut self) -> (r: Option<T>)
        requires
            old(self).wf(),
        ensures
            final(self).wf(),
            final(self).x == old(self).x,
            final(self).interpolate == old(self).interpolate,
            old(self).x < old(self).steps ==> {
                &&& r == Some(old(self).interpolate.val(old(self).steps - 1))
                &&& final(self).steps == old(self).steps - 1
            },
            old(self).x >= old(self).steps ==> r == None::<T> && *final(self) == *old(self),
            old(self).remaining().len() > 0 ==> r == Some(old(self).remaining().last())
                && final(self).remaining() == old(self).remaining().drop_last(),
            old(self).remaining().len() == 0 ==> r == None::<T> && *final(self) == *old(self),
    {
        if self.x < self.steps {
            self.steps = self.steps - 1;
            let v = self.interpolate.lerp(self.steps);
            proof {
                assert(final(self).remaining() =~= old(self).remaining().drop_last());
            }
            Some(v)
        } else {
            None
        }
    }

    /// Exact remaining count: the number of values still to be produced.
    pub fn len(&self) -> (r: usize)
        requires
            self.wf(),
        ensures
            r == self.steps - self.x,
            r == self.remaining().len(),
    {
        self.steps - self.x
    }

    /// Lower and upper bound on the remaining count; both are exact.
    pub fn size_hint(&self) -> (r: (usize, Option<usize>))
        requires
            self.wf(),
        ensures
            r.0 == self.remaining().len(),
            r.1 == Some(self.remaining().len() as usize),
    {
        let len = self.len();
        (len, Some(len))
    }
}

/// Conversion of a bound (half-open or closed) into a linear space
/// iterator with a fixed number of steps.
pub trait IntoLinSpace<T: Linear>: Sized {
    /// The interpolation parameters this bound normalizes to.
    spec fn lin_params(self, steps: int) -> LinearInterpolation<T>;

    /// When the normalization and every produced value are computed
    /// exactly.
    spec fn lin_ok(self, steps: int) -> bool;

    fn into_lin_space(self, steps: usize) -> (r: LinSpace<T>)
        requires
            self.lin_ok(steps as int),
        ensures
            r.x == 0,
            r.steps == steps,
            r.interpolate == self.lin_params(steps as int),
            r.wf(),
    ;
}

impl<T: Linear> IntoLinSpace<T> for Range<T> {
    /// Half-open `[start, end)` with `n` steps: step size `(end - start) / n`,
    /// so the excluded `n`-th value is `end`.
    open spec fn lin_params(self, steps: int) -> LinearInterpolation<T> {
        (LinearInterpolation {
            start: self.start,
            step: self.end.sub_spec(self.start).div_spec(T::from_count_spec(steps)),
        })
    }

    open spec fn lin_ok(self, steps: int) -> bool {
        &&& self.end.sub_ok(self.start)
        &&& T::from_count_ok(steps)
        &&& self.end.sub_spec(self.start).div_ok(T::from_count_spec(steps))
        &&& forall|i: int| 0 <= i < steps ==> self.lin_params(steps).ok(i)
    }

    fn into_lin_space(self, steps: usize) -> (r: LinSpace<T>) {
        let step = self.end.sub(self.start).div(T::from_count(steps));
        let interpolate = LinearInterpolation { start: self.start, step };
        proof {
            assert(interpolate == self.lin_params(steps as int));
        }
        LinSpace::new(steps, interpolate)
    }
}

impl<T: Linear> IntoLinSpace<T> for RangeInclusive<T> {
    /// Closed `[start, end]` with `n` steps: step size `(end - start) / (n - 1)`,
    /// so the last produced value is `end`.
    open spec fn lin_params(self, steps: int) -> LinearInterpolation<T> {
        (LinearInterpolation {
            start: self@.start,
            step: self@.end.sub_spec(self@.start).div_spec(T::from_count_spec(steps - 1)),
        })
    }

    open spec fn lin_ok(self, steps: int) -> bool {
        &&& steps >= 1
        &&& self@.end.sub_ok(self@.start)
        &&& T::from_count_ok(steps - 1)
        &&& self@.end.sub_spec(self@.start).div_ok(T::from_count_spec(steps - 1))
        &&& forall|i: int| 0 <= i < steps ==> self.lin_params(steps).ok(i)
    }

    fn into_lin_space(self, steps: usize) -> (r: LinSpace<T>) {
        let (start, end) = self.into_inner();
        let step = end.sub(start).div(T::from_count(steps - 1));
        let interpolate = LinearInterpolation { start, step };
        proof {
            assert(interpolate == self.lin_params(steps as int));
        }
        LinSpace::new(steps, interpolate)
    }
}

/// Create an evenly spaced linear range over `range` with a fixed number of
/// steps. A half-open bound excludes `end` (the implied `steps`-th value
/// would be `end`); a closed bound ends exactly at `end`.
pub fn lin_space<R, T>(range: R, steps: usize) -> (r: LinSpace<T>) where
    T: Linear,
    R: IntoLinSpace<T>,

    requires
        range.lin_ok(steps as int),
    ensures
        r.x == 0,
        r.steps == steps,
        r.interpolate == range.lin_params(steps as int),
        r.wf(),
{
    range.into_lin_space(steps)
}

/// Driving a space iterator entirely backward produces the reverse of the
/// forward traversal: the value of the `k`-th backward step is the
/// `k`-th element of the reversed remaining sequence.
pub proof fn lemma_backward_is_reverse<T: Linear>(s: LinSpace<T>)
    requires
        s.x <= s.steps,
    ensures
        Seq::new(s.remaining().len(), |k: int| s.interpolate.val(s.steps - 1 - k))
            == s.remaining().reverse(),
{
    let fwd = s.remaining();
    let bwd = Seq::new(fwd.len(), |k: int| s.interpolate.val(s.steps - 1 - k));
    assert(bwd =~= fwd.reverse());
}

/// Mixing forward and backward steps loses and repeats nothing: after `f`
/// forward steps and `b` backward steps (in any interleaving, since the two
/// cursors move independently), the forward outputs, the values still
/// remaining, and the backward outputs in reverse order together lay out the
/// original traversal exactly.
pub proof fn lemma_mixed_traversal_partition<T: Linear>(s0: LinSpace<T>, s1: LinSpace<T>, f: int, b: int)
    requires
        s0.wf(),
        0 <= f,
        0 <= b,
        f + b <= s0.steps - s0.x,
        s1.x == s0.x + f,
        s1.steps == s0.steps - b,
        s1.interpolate == s0.interpolate,
    ensures
        s1.wf(),
        s0.remaining() == Seq::new(f as nat, |j: int| s0.interpolate.val(s0.x + j))
            + s1.remaining()
            + Seq::new(b as nat, |k: int| s0.interpolate.val(s1.steps + k)),
{
    let front = Seq::new(f as nat, |j: int| s0.interpolate.val(s0.x + j));
    let back = Seq::new(b as nat, |k: int| s0.interpolate.val(s1.steps + k));
    assert(s0.remaining() =~= front + s1.remaining() + back);
}

} // verus!
