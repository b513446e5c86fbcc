//! Contract for reading a closed bound. `vstd` specifies how a
//! `RangeInclusive` is built but not how it is taken apart.

use vstd::prelude::*;
use core::ops::RangeInclusive;

verus! {

/// Relies on `RangeInclusive::into_inner` from `core`: its documentation
/// says it destructures the range into `(lower bound, upper (inclusive)
/// bound)`, which `vstd` models as the `start` and `end` of its view.
pub assume_specification<Idx>[ RangeInclusive::<Idx>::into_inner ](
    r: RangeInclusive<Idx>,
) -> (ret: (Idx, Idx))
    ensures
        ret.0 == r@.start,
        ret.1 == r@.end,
;

} // verus!
