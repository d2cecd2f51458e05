//! Storage: stream keys, the segment frame format and the time index.
pub mod key;
pub mod frame;
pub mod timestamp_index;
pub mod batch;
pub mod index;
pub mod recovery;

use vstd::prelude::*;

verus! {

/// The value that tells the background flusher to stop.
#[derive(Clone, Copy)]
pub struct ShutdownSentinel;

} // verus!
