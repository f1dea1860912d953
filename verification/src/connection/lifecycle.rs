//! Who still holds a connection, and who sees to its end.
use vstd::prelude::*;

verus! {

/// How many tasks work for a connection.
pub const WORKER_COUNT: usize = 4;

/// What the caller of a close is to start.
#[derive(Debug, Clone, Copy, PartialEq, Eq, Structural)]
pub enum CloseStart {
    /// Nothing: someone closes it.
    Nothing,
    /// To take leave of the peer.
    Graceful,
    /// To wait for what is going on already.
    Reap,
}

/// The handles and tasks of a connection.
#[derive(Debug, Clone, Copy, PartialEq, Eq, Structural)]
pub struct Lifecycle {
    /// How many handles the user has.
    pub external_handles: usize,
    /// How many tasks still work.
    pub workers_remaining: usize,
    /// Whether someone has taken over closing it.
    pub takeover_started: bool,
}

impl Lifecycle {
    /// One handle, all tasks at work.
    pub fn new() -> (lifecycle: Lifecycle)
        ensures
            lifecycle == (Lifecycle {
                external_handles: 1,
                workers_remaining: WORKER_COUNT,
                takeover_started: false,
            }),
            lifecycle.workers_remaining == 4,
    {
        Lifecycle {
            external_handles: 1,
            workers_remaining: WORKER_COUNT,
            takeover_started: false,
        }
    }

    /// Notes one more handle.
    pub fn add_handle(&mut self)
        requires
            old(self).external_handles < usize::MAX,
        ensures
            *final(self) == (Lifecycle {
                external_handles: (old(self).external_handles + 1) as usize,
                ..*old(self)
            }),
    {
        self.external_handles = self.external_handles + 1;
    }

    /// Notes one handle less. Whether it was the last.
    pub fn drop_handle(&mut self) -> (last: bool)
        requires
            old(self).external_handles > 0,
        ensures
            last == (old(self).external_handles == 1),
            *final(self) == (Lifecycle {
                external_handles: (old(self).external_handles - 1) as usize,
                ..*old(self)
            }),
    {
        self.external_handles = self.external_handles - 1;
        self.external_handles == 0
    }

    /// Notes that a task ended. Whether it was the last.
    pub fn worker_done(&mut self) -> (last: bool)
        requires
            old(self).workers_remaining > 0,
        ensures
            last == (old(self).workers_remaining == 1),
            *final(self) == (Lifecycle {
                workers_remaining: (old(self).workers_remaining - 1) as usize,
                ..*old(self)
            }),
    {
        self.workers_remaining = self.workers_remaining - 1;
        self.workers_remaining == 0
    }

    /// Asks to take over closing. Whether nobody has.
    pub fn start_takeover(&mut self) -> (granted: bool)
        ensures
            granted == !old(self).takeover_started,
            *final(self) == (Lifecycle { takeover_started: true, ..*old(self) }),
    {
        let granted: bool = !self.takeover_started;
        self.takeover_started = true;
        granted
    }

    /// Notes that a takeover ended.
    pub fn end_takeover(&mut self)
        ensures
            *final(self) == (Lifecycle { takeover_started: false, ..*old(self) }),
    {
        self.takeover_started = false;
    }
}

} // verus!
