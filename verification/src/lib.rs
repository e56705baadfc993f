//! Finding the minimum of a sequence, generically.
//!
//! The crate provides four collaborating pieces:
//! - [`optional::SomethingOrNothing`], a two-variant container that
//!   distinguishes "a value" from "no value";
//! - [`reducer`], a generic single-pass minimum reduction over any type
//!   with the [`reducer::Minimum`] capability;
//! - [`reader`], a fault-tolerant line-oriented integer parser that feeds
//!   the reducer;
//! - [`render`], the canonical decimal rendering and the display line for
//!   a reduction result.

pub mod optional;
pub mod reader;
pub mod reducer;
pub mod render;

pub use optional::SomethingOrNothing;
pub use reducer::Minimum;
pub use reducer::vec_min;
