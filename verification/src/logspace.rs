//! Logarithmically spaced ranges: the logarithmic interpolation primitive
//! (repeated multiplication by a fixed ratio) and the 1D space iterator
//! that drives it.

use vstd::prelude::*;
use core::ops::{Range, RangeInclusive};
use crate::linspace::Linear;

verus! {

/// Capability a coordinate type must offer to the logarithmic generators on
/// top of [`Linear`]: an `n`-th root, used to precompute the constant ratio
/// `(end / start)^(1 / n)`. What the root guarantees is the instance's own
/// business (`root_post`); exact integer coordinates promise a floor root,
/// and nothing forces the root to be exact.
pub trait Logarithmic: Linear {
    /// When the root is computable.
    spec fn root_ok(self, n: int) -> bool;

    /// What the computed root `r` of `self` guarantees.
    spec fn root_post(self, n: int, r: Self) -> bool;

    fn root(self, n: usize) -> (r: Self)
        requires
            n >= 1,
            self.root_ok(n as int),
        ensures
            self.root_post(n as int, r),
    ;
}

/// Logarithmic interpolation primitive: the pure map `i -> start * step^i`,
/// where `step` is the precomputed constant ratio.
#[derive(Clone, Copy, Debug)]
pub struct LogInterpolation<T> {
    pub start: T,
    pub step: T,
}

impl<T: Linear> LogInterpolation<T> {
    /// The value at step index `i`: `start` multiplied `i` times by the
    /// ratio.
    pub open spec fn val(self, i: int) -> T
        decreases i,
    {
        if i <= 0 {
            self.start
        } else {
            self.val(i - 1).mul_spec(self.step)
        }
    }

    /// Whether every multiplication up to step index `i` is computed
    /// exactly.
    pub open spec fn ok(self, i: int) -> bool
        decreases i,
    {
        if i <= 0 {
            true
        } else {
            self.ok(i - 1) && self.val(i - 1).mul_ok(self.step)
        }
    }

    /// Evaluate the primitive at step index `x`.
    pub fn lerp(self, x: usize) -> (r: T)
        requires
            self.ok(x as int),
        ensures
            r == self.val(x as int),
    {
        let mut r: T = self.start;
        let mut j: usize = 0;
        while j < x
            invariant
                j <= x,
                self.ok(x as int),
                r == self.val(j as int),
            decreases x - j,
        {
            proof {
                lemma_log_ok_mono(self, j as int + 1, x as int);
            }
            r = r.mul(self.step);
            j = j + 1;
        }
        r
    }
}

/// Exactness at a step index carries down to every smaller index.
pub proof fn lemma_log_ok_mono<T: Linear>(p: LogInterpolation<T>, j: int, i: int)
    requires
        p.ok(i),
        0 <= j <= i,
    ensures
        p.ok(j),
    decreases i,
{
    if j < i {
        lemma_log_ok_mono(p, j, i - 1);
    }
}

/// 1D space iterator over a logarithmic interpolation primitive. The cursor
/// `x` and the backward boundary `steps` never cross; the values still to
/// be produced are exactly the interpolations at indices `x..steps`.
#[derive(Clone, Debug)]
pub struct LogSpace<T> {
    pub x: usize,
    pub steps: usize,
    pub lerp: LogInterpolation<T>,
}

impl<T: Linear> LogSpace<T> {
    /// Well-formedness: the cursors have not crossed, and every value still
    /// to be produced is computed exactly.
    pub open spec fn wf(self) -> bool {
        &&& self.x <= self.steps
        &&& forall|i: int| self.x <= i < self.steps ==> self.lerp.ok(i)
    }

    /// The values still to be produced, front to back.
    pub open spec fn remaining(self) -> Seq<T> {
        Seq::new((self.steps - self.x) as nat, |k: int| self.lerp.val(self.x + k))
    }

    /// Forward step: produce the value at the cursor and advance it, or
    /// signal exhaustion. Exhaustion is idempotent.
    pub fn next(&mut self) -> (r: Option<T>)
        requires
            old(self).wf(),
        ensures
            final(self).wf(),
            final(self).steps == old(self).steps,
            final(self).lerp == old(self).lerp,
            old(self).x < old(self).steps ==> {
                &&& r == Some(old(self).lerp.val(old(self).x as int))
                &&& final(self).x == old(self).x + 1
            },
            old(self).x >= old(self).steps ==> r == None::<T> && *final(self) == *old(self),
            old(self).remaining().len() > 0 ==> r == Some(old(self).remaining()[0])
                && final(self).remaining() == old(self).remaining().drop_first(),
            old(self).remaining().len() == 0 ==> r == None::<T> && *final(self) == *old(self),
    {
        if self.x < self.steps {
            let v = self.lerp.lerp(self.x);
            self.x = self.x + 1;
            proof {
                assert(final(self).remaining() =~= old(self).remaining().drop_first());
            }
            Some(v)
        } else {
            None
        }
    }

    /// Backward step: retreat the backward boundary and produce the value
    /// there, or signal exhaustion. Exhaustion is idempotent.
    pub fn next_back(&mut self) -> (r: Option<T>)
        requires
            old(self).wf(),
        ensures
            final(self).wf(),
            final(self).x == old(self).x,
            final(self).lerp == old(self).lerp,
            old(self).x < old(self).steps ==> {
                &&& r == Some(old(self).lerp.val(old(self).steps - 1))
                &&& final(self).steps == old(self).steps - 1
            },
            old(self).x >= old(self).steps ==> r == None::<T> && *final(self) == *old(self),
            old(self).remaining().len() > 0 ==> r == Some(old(self).remaining().last())
                && final(self).remaining() == old(self).remaining().drop_last(),
            old(self).remaining().len() == 0 ==> r == None::<T> && *final(self) == *old(self),
    {
        if self.x < self.steps {
            self.steps = self.steps - 1;
            let v = self.lerp.lerp(self.steps);
            proof {
                assert(final(self).remaining() =~= old(self).remaining().drop_last());
            }
            Some(v)
        } else {
            None
        }
    }

    /// Exact remaining count: the number of values still to be produced.
    pub fn len(&self) -> (r: usize)
        requires
            self.wf(),
        ensures
            r == self.steps - self.x,
            r == self.remaining().len(),
    {
        self.steps - self.x
    }

    /// Lower and upper bound on the remaining count; both are exact.
    pub fn size_hint(&self) -> (r: (usize, Option<usize>))
        requires
            self.wf(),
        ensures
            r.0 == self.remaining().len(),
            r.1 == Some(self.remaining().len() as usize),
    {
        let len = self.len();
        (len, Some(len))
    }
}

/// Conversion of a bound (half-open or closed) into a logarithmic space
/// iterator with a fixed number of steps.
pub trait IntoLogSpace<T: Logarithmic>: Sized {
    /// The first value of the space.
    spec fn log_start(self) -> T;

    /// The quotient `end / start` the constant ratio is a root of.
    spec fn log_base(self) -> T;

    /// How many multiplications by the ratio should reach `end`.
    spec fn log_n(self, steps: int) -> int;

    /// When the normalization and every produced value are computed
    /// exactly.
    spec fn log_ok(self, steps: int) -> bool;

    fn into_log_space(self, steps: usize) -> (r: LogSpace<T>)
        requires
            self.log_ok(steps as int),
        ensures
            r.x == 0,
            r.steps == steps,
            r.lerp.start == self.log_start(),
            self.log_base().root_post(self.log_n(steps as int), r.lerp.step),
            r.wf(),
    ;
}

impl<T: Logarithmic> IntoLogSpace<T> for Range<T> {
    open spec fn log_start(self) -> T {
        self.start
    }

    open spec fn log_base(self) -> T {
        self.end.div_spec(self.start)
    }

    /// Half-open `[start, end)` with `n` steps: `n` multiplications reach
    /// `end`, which is excluded.
    open spec fn log_n(self, steps: int) -> int {
        steps
    }

    open spec fn log_ok(self, steps: int) -> bool {
        &&& steps >= 1
        &&& self.end.div_ok(self.start)
        &&& self.log_base().root_ok(steps)
        &&& forall|q: T, i: int|
            (self.log_base().root_post(steps, q) && 0 <= i < steps) ==> #[trigger] (
            LogInterpolation { start: self.start, step: q }).ok(i)
    }

    fn into_log_space(self, steps: usize) -> (r: LogSpace<T>) {
        let step = self.end.div(self.start).root(steps);
        let lerp = LogInterpolation { start: self.start, step };
        proof {
            assert forall|i: int| 0 <= i < steps implies lerp.ok(i) by {
                assert(self.log_base().root_post(steps as int, step));
            }
        }
        LogSpace { x: 0, steps, lerp }
    }
}

impl<T: Logarithmic> IntoLogSpace<T> for RangeInclusive<T> {
    open spec fn log_start(self) -> T {
        self@.start
    }

    open spec fn log_base(self) -> T {
        self@.end.div_spec(self@.start)
    }

    /// Closed `[start, end]` with `n` steps: `n - 1` multiplications reach
    /// `end`, which is the last value.
    open spec fn log_n(self, steps: int) -> int {
        steps - 1
    }

    open spec fn log_ok(self, steps: int) -> bool {
        &&& steps >= 2
        &&& self@.end.div_ok(self@.start)
        &&& self.log_base().root_ok(steps - 1)
        &&& forall|q: T, i: int|
            (self.log_base().root_post(steps - 1, q) && 0 <= i < steps) ==> #[trigger] (
            LogInterpolation { start: self@.start, step: q }).ok(i)
    }

    fn into_log_space(self, steps: usize) -> (r: LogSpace<T>) {
        let (start, end) = self.into_inner();
        let step = end.div(start).root(steps - 1);
        let lerp = LogInterpolation { start, step };
        proof {
            assert forall|i: int| 0 <= i < steps implies lerp.ok(i) by {
                assert(self.log_base().root_post(steps as int - 1, step));
            }
        }
        LogSpace { x: 0, steps, lerp }
    }
}

/// Create a logarithmic space over `range` with a fixed number of steps.
/// The produced values are `start * ratio^i`, with the constant ratio a
/// root of `end / start`: the `steps`-th root for a half-open bound (the
/// implied excluded value is `end`), the `(steps - 1)`-th for a closed one
/// (the last value is `end`). Both endpoints must be strictly positive;
/// that is the caller's responsibility, as is picking bounds whose ratio
/// the coordinate type can represent.
pub fn log_space<R, T>(range: R, steps: usize) -> (r: LogSpace<T>) where
    T: Logarithmic,
    R: IntoLogSpace<T>,

    requires
        range.log_ok(steps as int),
    ensures
        r.x == 0,
        r.steps == steps,
        r.lerp.start == range.log_start(),
        range.log_base().root_post(range.log_n(steps as int), r.lerp.step),
        r.wf(),
{
    range.into_log_space(steps)
}

/// Driving a logarithmic space iterator entirely backward produces the
/// reverse of the forward traversal.
pub proof fn lemma_log_backward_is_reverse<T: Linear>(s: LogSpace<T>)
    requires
        s.x <= s.steps,
    ensures
        Seq::new(s.remaining().len(), |k: int| s.lerp.val(s.steps - 1 - k))
            == s.remaining().reverse(),
{
    let fwd = s.remaining();
    let bwd = Seq::new(fwd.len(), |k: int| s.lerp.val(s.steps - 1 - k));
    assert(bwd =~= fwd.reverse());
}

/// Mixing forward and backward steps loses and repeats nothing: after `f`
/// forward steps and `b` backward steps, the forward outputs, the values
/// still remaining, and the backward outputs in reverse order together lay
/// out the original traversal exactly.
pub proof fn lemma_log_mixed_traversal_partition<T: Linear>(
    s0: LogSpace<T>,
    s1: LogSpace<T>,
    f: int,
    b: int,
)
    requires
        s0.wf(),
        0 <= f,
        0 <= b,
        f + b <= s0.steps - s0.x,
        s1.x == s0.x + f,
        s1.steps == s0.steps - b,
        s1.lerp == s0.lerp,
    ensures
        s1.wf(),
        s0.remaining() == Seq::new(f as nat, |j: int| s0.lerp.val(s0.x + j)) + s1.remaining()
            + Seq::new(b as nat, |k: int| s0.lerp.val(s1.steps + k)),
{
    let front = Seq::new(f as nat, |j: int| s0.lerp.val(s0.x + j));
    let back = Seq::new(b as nat, |k: int| s0.lerp.val(s1.steps + k));
    assert(s0.remaining() =~= front + s1.remaining() + back);
}

} // verus!
