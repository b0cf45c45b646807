//! Runtime options of a deployment.

use std::time::Duration;
use vstd::prelude::*;

verus! {

/// The bounds a deployment runs its guests under.
#[derive(Clone, Copy, Debug, PartialEq, Eq)]
pub struct RuntimeOptions {
    /// Maximum dispatch nesting depth (`MAX_DISPATCH_DEPTH`).
    pub max_dispatch_depth: usize,
    /// Wall-clock bound on each host-mediated dispatch (`GUEST_TIMEOUT_MS`).
    pub guest_timeout: Duration,
    /// Cap on a guest's linear-memory growth, in bytes.
    pub max_memory_bytes: usize,
    /// Fuel a guest may consume; zero runs it unmetered.
    pub max_fuel: u64,
}

} // verus!
