//! Observability signals that the library reports to its caller.
use vstd::prelude::*;

verus! {

/// A pending trace was flushed because it had grown stale.
#[derive(Debug, Clone, Copy, PartialEq, Eq, Structural)]
pub struct DetectExceptionsStaleEventFlushed;

} // verus!
