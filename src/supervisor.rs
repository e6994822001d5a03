//! Restart decisions for the overlay network's child process.
use vstd::prelude::*;

verus! {

/// Restart attempts allowed before the supervisor gives up.
pub const MAX_RESTARTS: u32 = 5;

/// Longest wait before a restart, in seconds.
pub const MAX_BACKOFF_SECS: u64 = 60;

pub open spec fn pow2(n: nat) -> nat
    decreases n,
{
    if n == 0 {
        1
    } else {
        2 * pow2((n - 1) as nat)
    }
}

/// The wait before restart attempt `attempt`: `min(2^attempt, 60)` seconds.
pub open spec fn backoff(attempt: nat) -> nat {
    if pow2(attempt) < 60 {
        pow2(attempt)
    } else {
        60
    }
}

/// The wait, in seconds, before restart attempt `attempt`.
pub fn restart_backoff(attempt: u32) -> (r: u64)
    ensures
        r as nat == backoff(attempt as nat),
{
    let mut d: u64 = 1;
    let mut k: u32 = 0;
    while k < attempt
        invariant
            k <= attempt,
            d as nat == backoff(k as nat),
            d <= 60,
        decreases attempt - k,
    {
        d = if d * 2 < 60 { d * 2 } else { 60 };
        k = k + 1;
    }
    d
}

/// What a poll of the child found, or how a restart went.
#[derive(Debug, Clone, Copy, PartialEq, Eq, Structural)]
pub enum ChildEvent {
    /// The child is still running.
    Running,
    /// The child has exited.
    Exited,
    /// Its state could not be read.
    PollFailed,
    /// A restart brought it up.
    Restarted,
    /// A restart failed.
    RestartFailed,
}

/// What the monitor does next.
#[derive(Debug, Clone, Copy, PartialEq, Eq, Structural)]
pub enum SupervisorAction {
    /// Poll again after the poll interval.
    Poll,
    /// Restart the child after waiting this many seconds.
    RestartAfter(u64),
    /// Stop monitoring: the restarts are used up.
    GiveUp,
    /// Stop monitoring: the child cannot be watched.
    Stop,
}

/// The supervisor's state: restart attempts since the last successful start,
/// and whether the child runs.
pub struct Supervisor {
    pub restart_count: u32,
    pub running: bool,
}

impl Supervisor {
    /// A supervisor whose child was just started.
    pub fn new() -> (r: Supervisor)
        ensures
            r.restart_count == 0,
            r.running,
    {
        Supervisor { restart_count: 0, running: true }
    }

    /// Whether the child is running.
    pub fn is_running(&self) -> (r: bool)
        ensures
            r == self.running,
    {
        self.running
    }

    /// Decides what follows an event. An exit is followed by a restart after
    /// `min(2^n, 60)` seconds, `n` counting the attempts, up to five attempts;
    /// then the supervisor gives up. A successful restart resets the count.
    pub fn on_event(&mut self, e: ChildEvent) -> (r: SupervisorAction)
        requires
            old(self).restart_count <= MAX_RESTARTS,
        ensures
            final(self).restart_count <= MAX_RESTARTS,
            e == ChildEvent::Running ==> r == SupervisorAction::Poll && *final(self) == *old(self),
            e == ChildEvent::Exited && old(self).restart_count < MAX_RESTARTS ==> final(self).restart_count
                == old(self).restart_count + 1 && !final(self).running && r == SupervisorAction::RestartAfter(
                backoff(final(self).restart_count as nat) as u64,
            ),
            e == ChildEvent::Exited && old(self).restart_count >= MAX_RESTARTS ==> r == SupervisorAction::GiveUp
                && !final(self).running && final(self).restart_count == old(self).restart_count,
            e == ChildEvent::PollFailed ==> r == SupervisorAction::Stop && !final(self).running
                && final(self).restart_count == old(self).restart_count,
            e == ChildEvent::Restarted ==> r == SupervisorAction::Poll && final(self).running
                && final(self).restart_count == 0,
            e == ChildEvent::RestartFailed ==> r == SupervisorAction::Stop && !final(self).running
                && final(self).restart_count == old(self).restart_count,
    {
        match e {
            ChildEvent::Running => SupervisorAction::Poll,
            ChildEvent::Exited => {
                self.running = false;
                if self.restart_count < MAX_RESTARTS {
                    self.restart_count = self.restart_count + 1;
                    SupervisorAction::RestartAfter(restart_backoff(self.restart_count))
                } else {
                    SupervisorAction::GiveUp
                }
            },
            ChildEvent::PollFailed => {
                self.running = false;
                SupervisorAction::Stop
            },
            ChildEvent::Restarted => {
                self.running = true;
                self.restart_count = 0;
                SupervisorAction::Poll
            },
            ChildEvent::RestartFailed => {
                self.running = false;
                SupervisorAction::Stop
            },
        }
    }

    /// Records that the child was stopped on request.
    pub fn stopped(&mut self)
        ensures
            !final(self).running,
            final(self).restart_count == old(self).restart_count,
    {
        self.running = false;
    }
}

} // verus!
