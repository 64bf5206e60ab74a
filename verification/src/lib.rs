//! Verified core of a GPU-accelerated Needleman-Wunsch aligner.
//!
//! The library holds everything that can be reasoned about as pure logic:
//! the sequence model, the scalar scoring oracle, the wavefront schedule
//! that turns the sequential recurrence into independent anti-diagonal
//! passes, the layout-safe types whose byte images match the shading
//! language's structure layout, and the comparison core of the round-trip
//! conformance tester.  Device acquisition and dispatch live outside the
//! library and consume the verified schedule and codecs through plain
//! values.

pub mod align;
pub mod error;
pub mod image;
pub mod layout;
pub mod matrix;
pub mod sample;
pub mod sequence;
pub mod tester;
pub mod transform;
pub mod wavefront;
