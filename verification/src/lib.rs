//! Lazily evaluated numeric sequence generators: evenly spaced linear
//! ranges, logarithmically spaced ranges, fixed-step ranges, and their
//! multi-dimensional Cartesian-grid extensions.
//!
//! Every generator is driven by a pure interpolation primitive (an index to
//! value map) wrapped in a cursor state machine with exact remaining-length
//! tracking. Coordinate types supply the field operations through the
//! [`Linear`] and [`Logarithmic`] capability traits; exact instances are
//! provided for `u64` and for the rational type [`Ratio`].

pub mod arange;
pub mod bounds;
pub mod grid;
pub mod lerp;
pub mod linspace;
pub mod logspace;
pub mod ratio;
pub mod uint;

pub use arange::{arange, Arange, ArangeImpl, IntoArange};
pub use grid::{grid, grid3, grid3_each, grid_each, Grid2, Grid3};
pub use lerp::{Lerp, LerpPrim};
pub use linspace::{lin_space, IntoLinSpace, LinSpace, Linear, LinearInterpolation};
pub use logspace::{log_space, IntoLogSpace, LogInterpolation, LogSpace, Logarithmic};
pub use ratio::Ratio;
