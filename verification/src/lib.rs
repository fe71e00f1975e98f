//! Lazy sequence adapters built around an ordered parallel-map engine.
//!
//! Every adapter consumes a pull-based [`source::Source`] and is itself
//! consumed the same way, so adapters compose freely. The scheduling core
//! (`threaded`, `stateful_threaded`) distributes per-element work over a
//! fixed pool of workers in round-robin rotation while keeping the output
//! order identical to the source order.

pub mod bucket;
pub mod buffered;
pub mod interleave;
pub mod logging;
pub mod source;
pub mod stateful;
pub mod stateful_threaded;
pub mod threaded;
