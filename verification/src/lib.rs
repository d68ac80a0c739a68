//! Verified building blocks for a batch thumbnailing pipeline, and a handful
//! of small, self-contained routines beside it.
//!
//! The `pipeline` module holds the planning and accounting logic of the
//! thumbnailer: which directory entries become work, how work is assigned to
//! a fixed set of workers under each dispatch strategy, what a worker does
//! with the answers of the image codec, how successes are counted, and in
//! which order a run goes about all this. Everything that touches the file
//! system, the codec or threads lives with the caller.
//!
//! The other modules stand each for itself: a calendar of schedules that do
//! not overlap, a bookshelf that is searched by title, the reading side of a
//! calculator, a hand of poker, the merging of two arrays, and the checking
//! of parentheses.

pub mod calculator;
pub mod calendar;
pub mod library;
pub mod merge_array;
pub mod parenthesis;
pub mod pipeline;
pub mod poker;
