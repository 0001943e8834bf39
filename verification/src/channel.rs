//! Inter-process channel names and the server loop's retry backoff.
//!
//! The channel itself (a named duplex byte pipe) is operating-system state;
//! the surrounding program opens it, reads frames and hands the bytes to the
//! codec. This module owns what can be decided without the OS: the well-known
//! channel name of each build flavor, and how long the server loop waits
//! after consecutive failures.

use vstd::prelude::*;

verus! {

/// Longest backoff delay of the server loop, in milliseconds.
pub const MAX_RETRY_DELAY_MS: u64 = 5000;

/// Backoff step per consecutive failure, in milliseconds.
pub const RETRY_DELAY_STEP_MS: u64 = 100;

/// Delay before the next retry after `fail_count` consecutive failures.
pub open spec fn spec_retry_delay_ms(fail_count: u32) -> u64 {
    if RETRY_DELAY_STEP_MS * fail_count <= MAX_RETRY_DELAY_MS {
        (RETRY_DELAY_STEP_MS * fail_count) as u64
    } else {
        MAX_RETRY_DELAY_MS
    }
}

/// After `fail_count` consecutive server-loop failures, the next retry waits
/// `min(100 * fail_count, 5000)` milliseconds.
pub fn retry_delay_ms(fail_count: u32) -> (delay: u64)
    ensures
        delay == spec_retry_delay_ms(fail_count),
{
    let scaled: u64 = RETRY_DELAY_STEP_MS * (fail_count as u64);
    if scaled <= MAX_RETRY_DELAY_MS {
        scaled
    } else {
        MAX_RETRY_DELAY_MS
    }
}

/// Failure counter of the server loop. One connection instance is served per
/// iteration; a failed iteration bumps the counter, a successful one resets
/// it, and the delay before the next attempt grows with the counter.
pub struct ServerBackoff {
    pub consecutive_failures: u32,
}

impl ServerBackoff {
    /// A fresh loop has seen no failures.
    pub fn new() -> (s: ServerBackoff)
        ensures
            s.consecutive_failures == 0,
    {
        ServerBackoff { consecutive_failures: 0 }
    }

    /// Record one failed iteration and say how long to wait before the next.
    pub fn after_failure(&mut self) -> (delay: u64)
        requires
            old(self).consecutive_failures < u32::MAX,
        ensures
            final(self).consecutive_failures == old(self).consecutive_failures + 1,
            delay == spec_retry_delay_ms(final(self).consecutive_failures),
    {
        self.consecutive_failures = self.consecutive_failures + 1;
        retry_delay_ms(self.consecutive_failures)
    }

    /// A successful iteration resets the counter: the next failure backs off
    /// from the shortest delay again.
    pub fn after_success(&mut self)
        ensures
            final(self).consecutive_failures == 0,
    {
        self.consecutive_failures = 0;
    }
}

/// Well-known channel name of a build flavor. Debug and release daemons use
/// different names so they never collide.
pub fn pipe_name(debug_build: bool) -> (name: &'static str)
    ensures
        debug_build ==> name@ == "\\\\.\\pipe\\agent-toast-dev"@,
        !debug_build ==> name@ == "\\\\.\\pipe\\agent-toast"@,
{
    if debug_build {
        "\\\\.\\pipe\\agent-toast-dev"
    } else {
        "\\\\.\\pipe\\agent-toast"
    }
}

} // verus!
