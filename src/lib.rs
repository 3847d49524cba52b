//! Fletcher checksums of widths 16, 32, 64 and 128 bits, computed incrementally
//! over blocks of half the width, with a lane-parallel path that is proved to
//! agree with the sequential recurrence.

mod block;
pub mod fletcher;
pub mod lanes;
pub mod model;
pub mod scalar;

pub use block::{BlockWord, MAX_VECTOR_BITS};
pub use fletcher::{Fletcher, Fletcher128, Fletcher16, Fletcher32, Fletcher64, FletcherChecksum};
