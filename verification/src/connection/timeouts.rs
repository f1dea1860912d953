//! What is done about a SUBMIT or an ACTIVE_TEST whose response does not come in time.
use vstd::prelude::*;

use crate::connection::outbound::{
    HeartbeatAttemptKey, HeartbeatAttemptState, SubmitAttemptKey, SubmitAttemptState,
};
use crate::connection::session::{Breakdown, Session, SessionView};
use crate::connection::steps::{leads, SessionStep};
use crate::error::Error;

verus! {

/// What is done about a SUBMIT whose response did not come in time.
#[derive(Debug, Clone, Copy, PartialEq, Eq, Structural)]
pub enum SubmitTimeout {
    /// It is sent once more.
    Resend(SubmitAttemptKey),
    /// It is given up.
    GiveUp(SubmitAttemptKey),
}

/// What is done about an ACTIVE_TEST whose response did not come in time.
#[derive(Debug, Clone, Copy, PartialEq, Eq, Structural)]
pub enum HeartbeatTimeout {
    /// Nothing: there is none.
    Nothing,
    /// It is sent once more.
    Resend(HeartbeatAttemptKey),
    /// It was given up, and the connection is to be ended.
    Exhausted,
}

impl SubmitTimeout {
    /// The attempt that timed out.
    pub open spec fn attempt(self) -> SubmitAttemptKey {
        match self {
            SubmitTimeout::Resend(key) => key,
            SubmitTimeout::GiveUp(key) => key,
        }
    }
}

impl HeartbeatTimeout {
    /// Why the connection is to be ended, if it is.
    pub fn end_reason(self) -> (reason: Option<Error>)
        ensures
            reason == match self {
                HeartbeatTimeout::Exhausted => Some(Error::Closed),
                _ => None,
            },
    {
        match self {
            HeartbeatTimeout::Exhausted => Some(Breakdown::HeartbeatLost.end_reason()),
            _ => None,
        }
    }
}

/// The attempts that timed out.
pub open spec fn timed_out(steps: Seq<SubmitTimeout>) -> Seq<SubmitAttemptKey> {
    steps.map_values(|step: SubmitTimeout| step.attempt())
}

impl<R> SessionView<R> {
    /// What is done about an attempt to send a SUBMIT that timed out: another, as long as it was
    /// not sent as often as it may be.
    pub open spec fn submit_timeout(self, key: SubmitAttemptKey) -> SubmitTimeout {
        if key.attempt < self.limits.retry_count {
            SubmitTimeout::Resend(key)
        } else {
            SubmitTimeout::GiveUp(key)
        }
    }

    /// What is done about the ACTIVE_TEST at `now`.
    pub open spec fn heartbeat_timeout(self, now: u128) -> HeartbeatTimeout {
        match self.overdue_heartbeat(now) {
            None => HeartbeatTimeout::Nothing,
            Some(key) => if key.attempt < self.limits.retry_count {
                HeartbeatTimeout::Resend(key)
            } else {
                HeartbeatTimeout::Exhausted
            },
        }
    }
}

impl<R> Session<R> {
    /// Looks at the ACTIVE_TEST: one that was sent as often as it may be and has waited for too
    /// long at `now` is given up.
    pub fn check_heartbeat(&mut self, now: u128) -> (step: HeartbeatTimeout)
        requires
            old(self).wf(),
        ensures
            final(self).wf(),
            step == old(self)@.heartbeat_timeout(now),
            leads(
                old(self)@,
                if step == HeartbeatTimeout::Exhausted {
                    SessionStep::DropHeartbeat
                } else {
                    SessionStep::Nothing
                },
                final(self)@,
            ),
            final(self)@ == if step == HeartbeatTimeout::Exhausted {
                old(self)@.without_heartbeat()
            } else {
                old(self)@
            },
    {
        match self.expired_heartbeat(now) {
            None => HeartbeatTimeout::Nothing,
            Some(key) => {
                if self.has_attempts_left(key.attempt) {
                    HeartbeatTimeout::Resend(key)
                } else {
                    self.exhaust_heartbeat(key);
                    HeartbeatTimeout::Exhausted
                }
            },
        }
    }

    /// Looks at the SUBMITs: what is done about those that have waited for too long at `now`,
    /// those that were written first in front, and no more than are looked at in one go.
    pub fn check_submits(&self, now: u128) -> (steps: Vec<SubmitTimeout>)
        requires
            self.wf(),
        ensures
            self@.are_first_overdue(timed_out(steps@), now),
            forall|i: int|
                0 <= i < steps@.len() ==> (#[trigger] steps@[i]) == self@.submit_timeout(
                    steps@[i].attempt(),
                ),
    {
        let keys: Vec<SubmitAttemptKey> = self.expired_submits(now);
        let mut steps: Vec<SubmitTimeout> = Vec::new();
        let mut i: usize = 0;
        while i < keys.len()
            invariant
                i <= keys@.len(),
                steps@.len() == i,
                forall|j: int|
                    0 <= j < i ==> (#[trigger] steps@[j]) == self@.submit_timeout(keys@[j]),
            decreases keys@.len() - i,
        {
            let key: SubmitAttemptKey = keys[i];
            if self.has_attempts_left(key.attempt) {
                steps.push(SubmitTimeout::Resend(key));
            } else {
                steps.push(SubmitTimeout::GiveUp(key));
            }
            i = i + 1;
        }
        assert(timed_out(steps@) =~= keys@);
        steps
    }
}

// ---- laws ----

/// A SUBMIT whose response does not come is given up after it was sent `retry_count` times, and
/// never before.
pub proof fn submit_is_sent_retry_count_times<R>(state: SessionView<R>, id: u32, now: u128)
    requires
        state.wf(),
        state.limits.retry_count > 0,
        state.overdue(id, now),
    ensures
        state.submit_timeout(state.present_attempt(id)) is GiveUp <==> state.submits[id].state.number()
            == state.limits.retry_count,
{
}

/// The SUBMIT that was written first of those that have waited for too long is dealt with at once:
/// it is sent once more or given up, before any other.
pub proof fn oldest_is_dealt_with_first<R>(
    state: SessionView<R>,
    steps: Seq<SubmitTimeout>,
    id: u32,
    now: u128,
)
    requires
        state.limits.submit_retry_batch_size > 0,
        state.are_first_overdue(timed_out(steps), now),
        forall|i: int|
            0 <= i < steps.len() ==> (#[trigger] steps[i]) == state.submit_timeout(
                steps[i].attempt(),
            ),
        state.overdue(id, now),
        forall|other: u32|
            other != id && #[trigger] state.overdue(other, now) ==> state.written_before(id, other),
    ensures
        steps.len() > 0,
        steps[0] == state.submit_timeout(state.present_attempt(id)),
{
    let keys = timed_out(steps);
    if exists|i: int| 0 <= i < keys.len() && (#[trigger] keys[i]).sequence_id == id {
        let i = choose|i: int| 0 <= i < keys.len() && (#[trigger] keys[i]).sequence_id == id;
        if i > 0 {
            assert(state.written_before(keys[0].sequence_id, keys[i].sequence_id));
            assert(state.overdue(keys[0].sequence_id, now));
        }
    } else {
        assert(state.written_before(keys[0].sequence_id, id));
        assert(state.overdue(keys[0].sequence_id, now));
    }
    assert(keys[0].sequence_id == id);
    assert(keys[0] == steps[0].attempt());
}

/// An ACTIVE_TEST whose response does not come ends the connection after it was sent `retry_count`
/// times, and never before.
pub proof fn heartbeat_is_sent_retry_count_times<R>(state: SessionView<R>, now: u128)
    requires
        state.wf(),
        state.limits.retry_count > 0,
        state.overdue_heartbeat(now) is Some,
    ensures
        state.heartbeat_timeout(now) == HeartbeatTimeout::Exhausted
            <==> state.heartbeat->0.state.number() == state.limits.retry_count,
{
}

/// A SUBMIT that was written has all of the time for its response: nothing is done about it
/// before.
pub proof fn nothing_times_out_early<R>(
    state: SessionView<R>,
    id: u32,
    attempt: u32,
    written_at: u128,
    now: u128,
)
    requires
        state.submits.contains_key(id),
        state.submits[id].state == (SubmitAttemptState::AwaitingResponse { attempt, written_at }),
    ensures
        state.overdue(id, now) <==> now as int >= written_at + state.limits.response_timeout
            || state.limits.response_timeout == 0,
{
}

/// What is done about a SUBMIT that timed out is done about the attempt that did: it is sent
/// once more while it was sent fewer than `retry_count` times, and given up from then on.
pub proof fn timed_out_attempt_is_dealt_with<R>(state: SessionView<R>, key: SubmitAttemptKey)
    ensures
        key.attempt < state.limits.retry_count ==> state.submit_timeout(key)
            == SubmitTimeout::Resend(key),
        key.attempt >= state.limits.retry_count ==> state.submit_timeout(key)
            == SubmitTimeout::GiveUp(key),
{
}

/// Nothing is done about an ACTIVE_TEST before all of the time for its response has passed since
/// it was written. Then its present attempt is repeated, or it was the last.
pub proof fn probe_has_all_its_time<R>(
    state: SessionView<R>,
    attempt: u32,
    written_at: u128,
    now: u128,
)
    requires
        state.heartbeat matches Some(h) && h.state == (HeartbeatAttemptState::AwaitingResponse {
            attempt,
            written_at,
        }),
        state.limits.response_timeout > 0,
    ensures
        ({
            let h = state.heartbeat->0;
            let step = state.heartbeat_timeout(now);
            &&& (now as int) < written_at + state.limits.response_timeout <==> step
                == HeartbeatTimeout::Nothing
            &&& now as int >= written_at + state.limits.response_timeout && attempt
                < state.limits.retry_count ==> (step matches HeartbeatTimeout::Resend(key)
                && key.sequence_id == h.lease.sequence_id && key.heartbeat_id == h.heartbeat_id
                && key.attempt == attempt)
            &&& now as int >= written_at + state.limits.response_timeout && attempt
                >= state.limits.retry_count ==> step == HeartbeatTimeout::Exhausted
        }),
{
}

/// Nothing is done about an ACTIVE_TEST that does not exist or was not written.
pub proof fn unwritten_probe_waits<R>(state: SessionView<R>, now: u128)
    requires
        state.heartbeat matches Some(h) ==> h.state is Queued || h.state is Writing,
    ensures
        state.heartbeat_timeout(now) == HeartbeatTimeout::Nothing,
{
}

} // verus!
