//! A typed bump-pointer arena allocator.
//!
//! An arena hands out individually addressable slots for values of a single
//! fixed type. Storage is organised in coarse blocks requested in bulk, so
//! many small allocations share a few underlying requests; all slots live
//! until the whole arena is torn down, and every element's cleanup runs
//! exactly once, in allocation order, when it is.
//!
//! The `model` module gives the mathematical account of the arena's state and
//! of one allocation step, together with the proved laws of the allocator;
//! the `arena` module holds the executable `Arena`, whose contracts are
//! stated against that model.

pub mod arena;
pub mod model;
