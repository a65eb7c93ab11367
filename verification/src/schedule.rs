//! When the lists of sessions and tasks are read again.
use vstd::prelude::*;

verus! {

/// How long the program waits for a key before it looks around, in milliseconds.
pub const UI_TICK_MS: u64 = 80;

/// How long a list of sessions is taken to hold, in nanoseconds.
pub const REFRESH_NANOS: u128 = 2_000_000_000;

/// How long a list of remote tasks is taken to hold, in nanoseconds.
pub const REMOTE_REFRESH_NANOS: u128 = 60_000_000_000;

/// When the lists were last read, in nanoseconds since the epoch.
#[derive(Debug, Clone, Copy, PartialEq, Eq, Structural)]
pub struct Schedule {
    pub last_refresh: u128,
    pub last_remote_refresh: u128,
}

/// So much time has passed since; none where the clock was set back.
pub open spec fn has_passed(since: u128, now: u128, span: u128) -> bool {
    now >= since && now - since >= span
}

impl Schedule {
    /// At the start the sessions are due, and the remote tasks are being read.
    pub fn new(now: u128) -> (out: Schedule)
        ensures
            out == (Schedule { last_refresh: 0, last_remote_refresh: now }),
    {
        Schedule { last_refresh: 0, last_remote_refresh: now }
    }

    /// Whether the sessions are due.
    pub fn refresh_due(&self, now: u128) -> (yes: bool)
        ensures
            yes == has_passed(self.last_refresh, now, REFRESH_NANOS),
    {
        now >= self.last_refresh && now - self.last_refresh >= REFRESH_NANOS
    }

    /// Whether the remote tasks are due.
    pub fn remote_refresh_due(&self, now: u128) -> (yes: bool)
        ensures
            yes == has_passed(self.last_remote_refresh, now, REMOTE_REFRESH_NANOS),
    {
        now >= self.last_remote_refresh && now - self.last_remote_refresh >= REMOTE_REFRESH_NANOS
    }

    /// The sessions were read.
    pub fn refreshed(&mut self, now: u128)
        ensures
            *final(self) == (Schedule { last_refresh: now, ..*old(self) }),
    {
        self.last_refresh = now;
    }

    /// The remote tasks are being read.
    pub fn remote_refreshed(&mut self, now: u128)
        ensures
            *final(self) == (Schedule { last_remote_refresh: now, ..*old(self) }),
    {
        self.last_remote_refresh = now;
    }
}

/// What was just read is not due before its time has passed, and is due then.
pub proof fn read_lists_hold_for_their_time(read: u128, now: u128, span: u128)
    requires
        read <= now,
    ensures
        has_passed(read, now, span) <==> read + span <= now,
{
}

/// A list of sessions holds for two seconds, and a list of remote tasks for a minute. A clock that
/// was set back makes nothing due.
pub proof fn lists_are_read_again_in_time(read: u128, now: u128)
    ensures
        has_passed(read, now, REFRESH_NANOS) <==> now >= read + 2 * 1_000_000_000,
        has_passed(read, now, REMOTE_REFRESH_NANOS) <==> now >= read + 60 * 1_000_000_000,
{
}

} // verus!
