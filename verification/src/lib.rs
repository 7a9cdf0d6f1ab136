//! Duration arithmetic on human-written expressions such as `3d 20h 10m 15s`
//! or `-1y 3h 40m`.
//!
//! - [`duration`]: the duration value, a bounded count of whole seconds, with
//!   checked and saturating arithmetic;
//! - [`grammar`]: what a line of text is worth, as a function on sequences of
//!   characters;
//! - [`parse`]: the scanner that reads a line;
//! - [`format`]: the rendering of a duration in hours, minutes and seconds;
//! - [`accumulator`]: the running total of a run;
//! - [`laws`]: what holds of reading and writing, for every line and every
//!   duration.

pub mod accumulator;
pub mod duration;
pub mod format;
pub mod grammar;
pub mod laws;
pub mod parse;

pub use crate::accumulator::Accumulator;
pub use crate::duration::Duration;
pub use crate::format::DisplayableDuration;
pub use crate::parse::ParseError;
