//! What is written to the peer next, whether it still may be, and what its being written means.
use vstd::prelude::*;

use crate::connection::events::Event;
use crate::connection::outbound::{
    remaining_time, time_left, HeartbeatAttemptState, Outbound, OutboundView, SubmitAttemptKey,
    SubmitAttemptState,
};
use crate::connection::session::{
    Breakdown, ConnectionPhase, Session, SessionView, TerminateEntry,
};
use crate::connection::steps::{leads, SessionStep};
use crate::error::Error;

verus! {

/// After how many control messages in a row a SUBMIT comes first.
pub const CONTROL_BURST_LIMIT: usize = 16;

/// Where the next thing to write comes from.
#[derive(Debug, Clone, Copy, PartialEq, Eq, Structural)]
pub enum WriterTurn {
    /// From nowhere: the socket is to be shut.
    Shutdown,
    /// From either queue, the SUBMITs first.
    SubmitsFirst,
    /// From either queue, the control messages first.
    ControlFirst,
    /// From the control messages.
    ControlOnly,
}

/// What to do with what comes next.
#[derive(Debug, Clone, Copy, PartialEq, Eq, Structural)]
pub enum WriteStep {
    /// It is the mark behind the last SUBMIT, and who waits for it is to be woken.
    Acknowledge,
    /// Nothing: it is not to be written any more.
    Skip,
    /// It cannot be: the connection is to be ended.
    Broken,
    /// It comes too late: the connection is to be ended.
    Overdue,
    /// It is to be written.
    Write {
        /// How long that may take, in nanoseconds.
        timeout: u128,
    },
}

impl WriteStep {
    /// Why the connection is to be ended, if it is.
    pub fn end_reason(self) -> (reason: Option<Error>)
        ensures
            reason == match self {
                WriteStep::Broken => Some(Error::ChannelClosed),
                WriteStep::Overdue => Some(Error::Timeout),
                _ => None,
            },
    {
        match self {
            WriteStep::Broken => Some(Breakdown::UnknownSubmit.end_reason()),
            WriteStep::Overdue => Some(Breakdown::ResponseTooLate.end_reason()),
            _ => None,
        }
    }
}

/// What comes of something that was written.
pub struct Written<R> {
    /// What a SUBMIT held whose response came meanwhile.
    pub freed: Option<R>,
    /// What is to be reported.
    pub event: Option<Event>,
}

/// How many control messages were written in a row.
pub open spec fn burst_behind(control_burst: usize, is_submit: bool) -> usize {
    if is_submit {
        0
    } else if control_burst == usize::MAX {
        usize::MAX
    } else {
        (control_burst + 1) as usize
    }
}

/// Counts the control messages that are written in a row.
pub fn burst_after(control_burst: usize, is_submit: bool) -> (burst: usize)
    ensures
        burst == burst_behind(control_burst, is_submit),
{
    if is_submit {
        0
    } else {
        control_burst.saturating_add(1)
    }
}

/// Why the connection is to be ended when something could not be written in the time that it may
/// take: a response to a DELIVER comes too late; else the socket is too slow, as `slow` says.
pub fn write_timeout_reason(outbound: &Outbound, slow: std::io::Error) -> (reason: Error)
    ensures
        reason == if outbound@.response_budget_started_at is Some {
            Error::Timeout
        } else {
            Error::Io(slow)
        },
{
    if outbound.response_budget_started_at.is_some() {
        Error::Timeout
    } else {
        Error::Io(slow)
    }
}

impl<R> SessionView<R> {
    /// Where the next thing to write comes from.
    pub open spec fn turn(self, control_burst: usize) -> WriterTurn {
        if self.phase == ConnectionPhase::Closed {
            WriterTurn::Shutdown
        } else if !self.sends_submits() {
            WriterTurn::ControlOnly
        } else if control_burst >= CONTROL_BURST_LIMIT {
            WriterTurn::SubmitsFirst
        } else {
            WriterTurn::ControlFirst
        }
    }

    /// Whether the attempt that something is, if it is one, may be written now.
    pub open spec fn may_claim(self, outbound: OutboundView, is_submit: bool) -> bool {
        &&& is_submit ==> self.may_claim_submit(outbound.submit_attempt->0)
        &&& outbound.heartbeat_attempt matches Some(key) ==> self.may_claim_heartbeat(key)
    }

    /// The state when the attempt to send a SUBMIT that something is was claimed.
    pub open spec fn claimed_submit(self, outbound: OutboundView, is_submit: bool) -> SessionView<
        R,
    > {
        let key = outbound.submit_attempt->0;
        if is_submit && self.may_claim_submit(key) {
            self.with_submit_state(
                key.sequence_id,
                SubmitAttemptState::Writing { attempt: key.attempt },
            )
        } else {
            self
        }
    }

    /// The state when the attempts that something is were claimed, as far as they may be.
    pub open spec fn claimed(self, outbound: OutboundView, is_submit: bool) -> SessionView<R> {
        let after = self.claimed_submit(outbound, is_submit);
        match outbound.heartbeat_attempt {
            Some(key) if self.may_claim(outbound, is_submit) => after.with_heartbeat_state(
                HeartbeatAttemptState::Writing { attempt: key.attempt },
            ),
            _ => after,
        }
    }

    /// What to do with what comes next.
    pub open spec fn write_step(
        self,
        outbound: OutboundView,
        is_submit: bool,
        now: u128,
    ) -> WriteStep {
        if outbound.submit_drain_marker {
            WriteStep::Acknowledge
        } else if is_submit && outbound.submit_attempt is None {
            WriteStep::Broken
        } else if !self.may_claim(outbound, is_submit) {
            WriteStep::Skip
        } else if outbound.open_only && self.phase != ConnectionPhase::Open {
            WriteStep::Skip
        } else if outbound.cancel_after_peer_terminate && self.peer_terminate_answered {
            WriteStep::Skip
        } else {
            match outbound.response_budget_started_at {
                None => WriteStep::Write { timeout: self.limits.response_timeout },
                Some(started_at) => match time_left(
                    self.limits.response_timeout,
                    started_at,
                    now,
                ) {
                    Some(left) => WriteStep::Write { timeout: left },
                    None => WriteStep::Overdue,
                },
            }
        }
    }

    /// The state when it was decided what to do with what comes next.
    pub open spec fn write_prepared(self, outbound: OutboundView, is_submit: bool) -> SessionView<
        R,
    > {
        if outbound.submit_drain_marker {
            SessionView { drain_submits: false, ..self }
        } else if is_submit && outbound.submit_attempt is None {
            self
        } else {
            self.claimed(outbound, is_submit)
        }
    }

    /// The state when something was written.
    pub open spec fn written(
        self,
        outbound: OutboundView,
        is_submit: bool,
        written_at: u128,
    ) -> SessionView<R> {
        let sent = match outbound.submit_attempt {
            Some(key) if is_submit => self.submit_written(key, written_at),
            _ => self,
        };
        let tested = match outbound.heartbeat_attempt {
            Some(key) => sent.heartbeat_written(key, written_at),
            None => sent,
        };
        let answered = SessionView {
            peer_terminate_answered: tested.peer_terminate_answered
                || outbound.marks_peer_terminate_response,
            ..tested
        };
        match outbound.local_terminate {
            Some(id) if answered.terminates_with(id) => SessionView {
                terminate: Some(TerminateEntry { written: true, ..answered.terminate->0 }),
                ..answered
            },
            _ => answered,
        }
    }

    /// What a SUBMIT held whose response came while it was written.
    pub open spec fn freed_by_writing(self, outbound: OutboundView, is_submit: bool) -> Option<R> {
        match outbound.submit_attempt {
            Some(key) if is_submit && self.has_submission(key)
                && self.submits[key.sequence_id].state == (
            SubmitAttemptState::RespondedWhileWriting { attempt: key.attempt }) => Some(
                self.submits[key.sequence_id].resources,
            ),
            _ => None,
        }
    }
}

impl<R> Session<R> {
    /// Where the next thing to write comes from.
    pub fn writer_turn(&self, control_burst: usize) -> (turn: WriterTurn)
        ensures
            turn == self@.turn(control_burst),
    {
        if self.phase() == ConnectionPhase::Closed {
            WriterTurn::Shutdown
        } else if !self.can_send_submits() {
            WriterTurn::ControlOnly
        } else if control_burst >= CONTROL_BURST_LIMIT {
            WriterTurn::SubmitsFirst
        } else {
            WriterTurn::ControlFirst
        }
    }

    /// Decides what to do with what comes next, which is a SUBMIT or a control message.
    pub fn prepare_write(&mut self, outbound: &Outbound, is_submit: bool, now: u128) -> (step:
        WriteStep)
        requires
            old(self).wf(),
        ensures
            final(self).wf(),
            step == old(self)@.write_step(outbound@, is_submit, now),
            final(self)@ == old(self)@.write_prepared(outbound@, is_submit),
            leads(
                old(self)@,
                SessionStep::PrepareWrite { outbound: outbound@, is_submit },
                final(self)@,
            ),
    {
        if outbound.submit_drain_marker {
            self.stop_draining();
            return WriteStep::Acknowledge;
        }
        if is_submit {
            let key: SubmitAttemptKey = match outbound.submit_attempt {
                Some(key) => key,
                None => {
                    return WriteStep::Broken;
                },
            };
            if !self.claim_submit_attempt(key) {
                return WriteStep::Skip;
            }
        }
        if let Some(key) = outbound.heartbeat_attempt {
            if !self.claim_heartbeat_attempt(key) {
                return WriteStep::Skip;
            }
        }
        if outbound.open_only && self.phase() != ConnectionPhase::Open {
            return WriteStep::Skip;
        }
        if outbound.cancel_after_peer_terminate && self.is_peer_answered() {
            return WriteStep::Skip;
        }
        let limit: u128 = self.limits().response_timeout;
        match outbound.response_budget_started_at {
            Some(started_at) => match remaining_time(limit, started_at, now) {
                Some(left) => WriteStep::Write { timeout: left },
                None => WriteStep::Overdue,
            },
            None => WriteStep::Write { timeout: limit },
        }
    }

    /// Notes that something was written: what is free then, and what is to be reported.
    pub fn complete_write(&mut self, outbound: Outbound, is_submit: bool, written_at: u128) -> (written:
        Written<R>)
        requires
            old(self).wf(),
        ensures
            final(self).wf(),
            final(self)@ == old(self)@.written(outbound@, is_submit, written_at),
            leads(
                old(self)@,
                SessionStep::CompleteWrite { outbound: outbound@, is_submit, written_at },
                final(self)@,
            ),
            written.freed == old(self)@.freed_by_writing(outbound@, is_submit),
            written.event == outbound@.event_after_write,
    {
        let freed: Option<R> = match outbound.submit_attempt {
            Some(key) => {
                if is_submit {
                    self.complete_submit_attempt(key, written_at)
                } else {
                    None
                }
            },
            None => None,
        };
        if let Some(key) = outbound.heartbeat_attempt {
            self.complete_heartbeat_attempt(key, written_at);
        }
        if outbound.marks_peer_terminate_response {
            self.note_peer_answered();
        }
        if let Some(sequence_id) = outbound.local_terminate {
            self.note_terminate_written(sequence_id);
        }
        Written { freed, event: outbound.event_after_write }
    }
}

// ---- laws ----

/// SUBMITs wait for no more than a burst of control messages: as long as they are sent at all, each
/// control message counts for one, and after that many a SUBMIT comes first.
pub proof fn submits_get_their_turn<R>(state: SessionView<R>, control_burst: usize)
    requires
        state.sends_submits(),
    ensures
        state.turn(control_burst) == if control_burst < CONTROL_BURST_LIMIT {
            WriterTurn::ControlFirst
        } else {
            WriterTurn::SubmitsFirst
        },
        burst_behind(control_burst, true) == 0,
        control_burst < usize::MAX ==> burst_behind(control_burst, false) == control_burst + 1,
        control_burst == usize::MAX ==> burst_behind(control_burst, false) == usize::MAX,
{
}

/// An attempt to send a SUBMIT is claimed once: as it is being written, it cannot be claimed
/// again.
pub proof fn claimed_once<R>(state: SessionView<R>, outbound: OutboundView)
    requires
        !outbound.submit_drain_marker,
        outbound.submit_attempt is Some,
        state.may_claim(outbound, true),
    ensures
        !state.write_prepared(outbound, true).may_claim(outbound, true),
{
}

/// The time for the response to a SUBMIT begins when the SUBMIT is written, not before.
pub proof fn response_time_begins_at_writing<R>(
    state: SessionView<R>,
    outbound: OutboundView,
    written_at: u128,
)
    requires
        !outbound.submit_drain_marker,
        outbound.submit_attempt is Some,
        outbound.heartbeat_attempt is None,
        outbound.local_terminate is None,
        state.may_claim(outbound, true),
    ensures
        ({
            let key = outbound.submit_attempt->0;
            let after = state.write_prepared(outbound, true).written(outbound, true, written_at);
            after.submits[key.sequence_id].state == SubmitAttemptState::AwaitingResponse {
                attempt: key.attempt,
                written_at,
            }
        }),
{
}

/// A closed connection writes nothing more. One that sends no SUBMITs writes control messages
/// alone. Any other writes control messages first, but after 16 in a row a SUBMIT.
pub proof fn turns_are_taken<R>(state: SessionView<R>, control_burst: usize)
    ensures
        ({
            let turn = state.turn(control_burst);
            let submits = state.phase == ConnectionPhase::Open || (state.phase
                == ConnectionPhase::Closing && state.drain_submits);
            &&& turn is Shutdown <==> state.phase == ConnectionPhase::Closed
            &&& turn is ControlOnly <==> state.phase == ConnectionPhase::Closing
                && !state.drain_submits
            &&& turn is SubmitsFirst <==> submits && control_burst >= 16
            &&& turn is ControlFirst <==> submits && control_burst < 16
        }),
{
}

/// What is written is written within the time for a response: all of it, or for an answer to a
/// DELIVER what is left of it since the DELIVER came. Where nothing is left, the connection is
/// to be ended.
pub proof fn writing_has_its_time<R>(
    state: SessionView<R>,
    outbound: OutboundView,
    is_submit: bool,
    now: u128,
)
    ensures
        ({
            let step = state.write_step(outbound, is_submit, now);
            &&& step matches WriteStep::Write { timeout } ==> {
                &&& outbound.response_budget_started_at is None ==> timeout
                    == state.limits.response_timeout
                &&& outbound.response_budget_started_at matches Some(started_at) ==> (started_at
                    <= now ==> timeout + (now - started_at) == state.limits.response_timeout
                    && timeout > 0)
            }
            &&& step is Overdue ==> (outbound.response_budget_started_at matches Some(started_at)
                && now as int >= started_at + state.limits.response_timeout
                || state.limits.response_timeout == 0)
        }),
{
}

/// The mark behind the last SUBMIT is never written, and from then on no SUBMIT is sent while
/// the connection closes. Else, a SUBMIT that does not say which it is breaks the connection.
/// What the connection closed before, what the peer has made needless and what is not the
/// attempt that is due is skipped; everything else is written, unless its time is over.
pub proof fn what_is_due_is_written<R>(
    state: SessionView<R>,
    outbound: OutboundView,
    is_submit: bool,
    now: u128,
)
    ensures
        ({
            let step = state.write_step(outbound, is_submit, now);
            let nameless = is_submit && outbound.submit_attempt is None;
            let submit_due = !is_submit || state.may_claim_submit(outbound.submit_attempt->0);
            let probe_due = outbound.heartbeat_attempt is None || state.may_claim_heartbeat(
                outbound.heartbeat_attempt->0,
            );
            let closed = outbound.open_only && state.phase != ConnectionPhase::Open;
            let needless = outbound.cancel_after_peer_terminate && state.peer_terminate_answered;
            &&& step is Acknowledge <==> outbound.submit_drain_marker
            &&& step is Broken <==> !outbound.submit_drain_marker && nameless
            &&& step is Skip <==> !outbound.submit_drain_marker && !nameless && (!submit_due
                || !probe_due || closed || needless)
            &&& outbound.response_budget_started_at is None ==> !(step is Overdue)
        }),
        outbound.submit_drain_marker && state.phase == ConnectionPhase::Closing
            ==> !state.write_prepared(outbound, is_submit).sends_submits(),
        outbound.submit_drain_marker ==> state.write_prepared(outbound, is_submit).submits
            == state.submits,
{
}

/// What is about to be written is marked as being written, and nothing else is touched: no other
/// SUBMIT, nothing that is not sent, and nothing of the SUBMIT but how far it is.
pub proof fn preparing_marks_the_attempt<R>(
    state: SessionView<R>,
    outbound: OutboundView,
    is_submit: bool,
    other: u32,
)
    ensures
        ({
            let after = state.write_prepared(outbound, is_submit);
            let key = outbound.submit_attempt->0;
            let claims = is_submit && outbound.submit_attempt is Some
                && !outbound.submit_drain_marker && state.may_claim_submit(key);
            &&& claims ==> {
                &&& after.submits.contains_key(key.sequence_id)
                &&& after.submits[key.sequence_id].state == (SubmitAttemptState::Writing {
                    attempt: key.attempt,
                })
                &&& after.submits[key.sequence_id].packet
                    == state.submits[key.sequence_id].packet
                &&& after.submits[key.sequence_id].resources
                    == state.submits[key.sequence_id].resources
                &&& after.submits[key.sequence_id].lease == state.submits[key.sequence_id].lease
                &&& after.submits[key.sequence_id].submission_id
                    == state.submits[key.sequence_id].submission_id
            }
            &&& !claims ==> after.submits == state.submits
            &&& other != key.sequence_id ==> after.submits.contains_key(other)
                == state.submits.contains_key(other) && after.submits[other]
                == state.submits[other]
            &&& after.sequences == state.sequences
            &&& after.phase == state.phase
            &&& after.spool == state.spool
            &&& after.terminate == state.terminate
            &&& outbound.heartbeat_attempt is None ==> after.heartbeat == state.heartbeat
            &&& !is_submit && !outbound.submit_drain_marker
                && (outbound.heartbeat_attempt matches Some(probe) && state.may_claim_heartbeat(
                probe,
            )) ==> (after.heartbeat matches Some(h) && h.state is Writing && h.state.number()
                == outbound.heartbeat_attempt->0.attempt && h.lease == state.heartbeat->0.lease
                && h.heartbeat_id == state.heartbeat->0.heartbeat_id)
        }),
{
}

/// What was written has the meaning that was attached to it: the answer to the peer is noted,
/// the TERMINATE of this side counts as written, and bytes without a meaning change nothing.
pub proof fn written_bytes_have_their_meaning<R>(
    state: SessionView<R>,
    outbound: OutboundView,
    is_submit: bool,
    written_at: u128,
)
    ensures
        ({
            let after = state.written(outbound, is_submit, written_at);
            &&& after.peer_terminate_answered <==> state.peer_terminate_answered
                || outbound.marks_peer_terminate_response
            &&& outbound.local_terminate matches Some(id) ==> ((state.terminate matches Some(t)
                && t.lease.sequence_id == id) ==> (after.terminate matches Some(t) && t.written
                && t.lease == state.terminate->0.lease))
            &&& outbound.local_terminate is None ==> after.terminate == state.terminate
            &&& !is_submit || outbound.submit_attempt is None ==> after.submits == state.submits
                && after.sequences == state.sequences
            &&& is_submit && outbound.submit_attempt is Some ==> after.submits
                == state.submit_written(outbound.submit_attempt->0, written_at).submits
            &&& outbound.heartbeat_attempt is None ==> after.heartbeat == state.heartbeat
            &&& outbound.heartbeat_attempt is Some && !is_submit ==> after.heartbeat
                == state.heartbeat_written(outbound.heartbeat_attempt->0, written_at).heartbeat
            &&& after.phase == state.phase
            &&& after.spool == state.spool
            &&& after.terminal_reason == state.terminal_reason
        }),
{
}

/// What a SUBMIT held is let go of when it was written and its response had come by then, and at
/// no other time.
pub proof fn writing_frees_what_was_answered<R>(
    state: SessionView<R>,
    outbound: OutboundView,
    is_submit: bool,
)
    ensures
        ({
            let key = outbound.submit_attempt->0;
            let freed = state.freed_by_writing(outbound, is_submit);
            let done = is_submit && outbound.submit_attempt is Some && state.submits.contains_key(
                key.sequence_id,
            ) && state.submits[key.sequence_id].submission_id == key.submission_id
                && state.submits[key.sequence_id].state is RespondedWhileWriting
                && state.submits[key.sequence_id].state.number() == key.attempt;
            &&& done ==> freed == Some(state.submits[key.sequence_id].resources)
            &&& !done ==> freed is None
        }),
{
}

} // verus!
