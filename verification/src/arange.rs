//! Fixed-step ranges: iterate `start + k * step` for `k = 0, 1, 2, ...`
//! over a half-open bound. The bound and step size are normalized into
//! interpolation parameters and a ceiling-division step count.

use vstd::prelude::*;
use crate::linspace::{LinSpace, Linear, LinearInterpolation};
use core::ops::Range;

verus! {

/// Iterator returned by [`arange`].
pub type Arange<T> = LinSpace<T>;

/// Normalized fixed-step parameters: the interpolation primitive and the
/// derived step count `ceil((end - start) / step)`.
pub struct ArangeImpl<T> {
    pub interpolate: LinearInterpolation<T>,
    pub steps: usize,
}

impl<F: Linear> ArangeImpl<F> {
    /// Normalize a half-open bound and a step size.
    pub fn from(range: Range<F>, step: F) -> (r: Self)
        requires
            range.end.sub_ok(range.start),
            range.end.sub_spec(range.start).count_steps_ok(step),
        ensures
            r.interpolate == (LinearInterpolation { start: range.start, step }),
            r.steps == range.end.sub_spec(range.start).count_steps_spec(step),
    {
        let steps = range.end.sub(range.start).count_steps(step);
        ArangeImpl { interpolate: LinearInterpolation { start: range.start, step }, steps }
    }
}

/// Conversion of a half-open bound and a step size into a fixed-step
/// iterator.
pub trait IntoArange<F: Linear>: Sized {
    /// The interpolation parameters this bound normalizes to.
    spec fn arange_params(self, step: F) -> LinearInterpolation<F>;

    /// The derived step count.
    spec fn arange_steps(self, step: F) -> int;

    /// When the normalization and every produced value are computed
    /// exactly.
    spec fn arange_ok(self, step: F) -> bool;

    fn into_arange(self, step: F) -> (r: Arange<F>)
        requires
            self.arange_ok(step),
        ensures
            r.x == 0,
            r.steps == self.arange_steps(step),
            r.interpolate == self.arange_params(step),
            r.wf(),
    ;
}

impl<F: Linear> IntoArange<F> for Range<F> {
    open spec fn arange_params(self, step: F) -> LinearInterpolation<F> {
        (LinearInterpolation { start: self.start, step })
    }

    open spec fn arange_steps(self, step: F) -> int {
        self.end.sub_spec(self.start).count_steps_spec(step)
    }

    open spec fn arange_ok(self, step: F) -> bool {
        &&& self.end.sub_ok(self.start)
        &&& self.end.sub_spec(self.start).count_steps_ok(step)
        &&& forall|i: int|
            0 <= i < self.arange_steps(step) ==> self.arange_params(step).ok(i)
    }

    fn into_arange(self, step: F) -> (r: Arange<F>) {
        let ghost params = self.arange_params(step);
        let a = ArangeImpl::from(self, step);
        proof {
            assert(a.interpolate == params);
        }
        LinSpace::new(a.steps, a.interpolate)
    }
}

/// Create a fixed-step iterator over `range`, stepping by `step` each time.
/// It produces the values `start + k * step` for `k = 0, 1, 2, ...` that
/// lie strictly below `end`; the step count is derived by ceiling division,
/// which is exact for coordinate types whose arithmetic is exact (see
/// `lemma_arange_count_exact`).
pub fn arange<R, F>(range: R, step: F) -> (r: Arange<F>) where
    F: Linear,
    R: IntoArange<F>,

    requires
        range.arange_ok(step),
    ensures
        r.x == 0,
        r.steps == range.arange_steps(step),
        r.interpolate == range.arange_params(step),
        r.wf(),
{
    range.into_arange(step)
}

} // verus!
