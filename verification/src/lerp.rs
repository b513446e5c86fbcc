//! The two-point linear map: sends the segment `[x0, x1]` onto `[y0, y1]`
//! by `x -> (y0 * (x1 - x) + y1 * (x - x0)) / (x1 - x0)`.

use vstd::prelude::*;
use core::ops::RangeInclusive;
use crate::linspace::Linear;

verus! {

/// Linear map fixed by two input/output pairs: `x0 -> y0` and `x1 -> y1`.
#[derive(Clone, Copy)]
pub struct Lerp<T> {
    pub x0: T,
    pub x1: T,
    pub y0: T,
    pub y1: T,
}

impl<T> Lerp<T> {
    pub fn new(from: RangeInclusive<T>, to: RangeInclusive<T>) -> (r: Self)
        ensures
            r.x0 == from@.start,
            r.x1 == from@.end,
            r.y0 == to@.start,
            r.y1 == to@.end,
    {
        let (x0, x1) = from.into_inner();
        let (y0, y1) = to.into_inner();
        Lerp { x0, x1, y0, y1 }
    }
}

impl<T: Linear> Lerp<T> {
    /// The interpolated value at `x`.
    pub open spec fn lerp_spec(self, x: T) -> T {
        self.y0.mul_spec(self.x1.sub_spec(x)).add_spec(
            self.y1.mul_spec(x.sub_spec(self.x0)),
        ).div_spec(self.x1.sub_spec(self.x0))
    }

    /// When the interpolation formula is computed exactly at `x`.
    pub open spec fn lerp_ok(self, x: T) -> bool {
        &&& self.x1.sub_ok(x)
        &&& self.y0.mul_ok(self.x1.sub_spec(x))
        &&& x.sub_ok(self.x0)
        &&& self.y1.mul_ok(x.sub_spec(self.x0))
        &&& self.y0.mul_spec(self.x1.sub_spec(x)).add_ok(self.y1.mul_spec(x.sub_spec(self.x0)))
        &&& self.x1.sub_ok(self.x0)
        &&& self.y0.mul_spec(self.x1.sub_spec(x)).add_spec(
            self.y1.mul_spec(x.sub_spec(self.x0)),
        ).div_ok(self.x1.sub_spec(self.x0))
    }

    /// Evaluate the map at `x`.
    pub fn lerp(&self, x: T) -> (r: T)
        requires
            self.lerp_ok(x),
        ensures
            r == self.lerp_spec(x),
    {
        let num = self.y0.mul(self.x1.sub(x)).add(self.y1.mul(x.sub(self.x0)));
        num.div(self.x1.sub(self.x0))
    }

    /// Evaluate the map at `x` (the function-object calling convention).
    pub fn call(&self, x: T) -> (r: T)
        requires
            self.lerp_ok(x),
        ensures
            r == self.lerp_spec(x),
    {
        self.lerp(x)
    }
}

/// A [`Lerp`] whose inputs are plain step counts rather than coordinates:
/// the primitive-type dispatch wrapper.
#[derive(Clone, Copy)]
pub struct LerpPrim<T>(pub Lerp<T>);

impl<T: Linear> LerpPrim<T> {
    /// Build the map from a count range, converting the endpoints into
    /// coordinates.
    pub fn new_usize(from: RangeInclusive<usize>, to: RangeInclusive<T>) -> (r: Self)
        requires
            T::from_count_ok(from@.start as int),
            T::from_count_ok(from@.end as int),
        ensures
            r.0.x0 == T::from_count_spec(from@.start as int),
            r.0.x1 == T::from_count_spec(from@.end as int),
            r.0.y0 == to@.start,
            r.0.y1 == to@.end,
    {
        let (x0, x1) = from.into_inner();
        let (y0, y1) = to.into_inner();
        LerpPrim(
            Lerp { x0: T::from_count(x0), x1: T::from_count(x1), y0, y1 },
        )
    }

    /// Evaluate the map at the step count `x`.
    pub fn call(&self, x: usize) -> (r: T)
        requires
            T::from_count_ok(x as int),
            self.0.lerp_ok(T::from_count_spec(x as int)),
        ensures
            r == self.0.lerp_spec(T::from_count_spec(x as int)),
    {
        self.0.lerp(T::from_count(x))
    }
}

} // verus!
