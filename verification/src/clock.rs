//! Time as the library sees it: plain nanosecond counts on a monotonic clock.

use vstd::prelude::*;

verus! {

/// A point on the monotonic clock, in nanoseconds since its start.
pub type Instant = u64;

/// A span of time in nanoseconds.
pub type Duration = u64;

/// One millisecond.
pub const MILLISECOND: Duration = 1_000_000;

/// One second.
pub const SECOND: Duration = 1_000_000_000;

} // verus!
