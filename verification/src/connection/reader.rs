//! What a frame from the peer does to a connection, and what it calls for.
use bytes::Bytes;
use vstd::prelude::*;

use crate::buffer::frozen_contents;
use crate::connection::events::Event;
use crate::connection::outbound::{Outbound, OutboundView, SubmitAttemptKey};
use crate::connection::session::{Answer, ConnectionPhase, Session, SessionView};
use crate::connection::steps::{leads, SessionStep};
use crate::error::Error;
use crate::octets::be32;
use crate::pdu::{Deliver, DeliverResp, Frame, Pdu};
use crate::wire::{AckView, PduView};

verus! {

/// What a frame calls for.
pub enum ReadStep<R> {
    /// Nothing more than to let go of what a SUBMIT held.
    Nothing(Option<R>),
    /// A report, and to let go of what a SUBMIT held.
    Report(Event, Option<R>),
    /// A place in the queue of reports for a DELIVER; once there is one, the response, and once
    /// that is written, the report.
    Deliver(Deliver, Bytes),
    /// An answer.
    Reply(Bytes),
    /// An answer to the TERMINATE of the peer.
    PeerTerminate(Outbound),
    /// To wake who waits for the response to the TERMINATE of this side.
    TerminateAnswered,
    /// Nothing: a client is not sent such a frame.
    Unexpected(u32),
}

/// Why nothing more is read.
pub enum ReadFailure {
    /// A frame could not be read.
    Frame(Error),
    /// The peer closed the stream.
    EndOfStream,
    /// Nothing came for too long.
    Idle,
}

/// What became of a response on its way to the queue of what is written.
#[derive(Debug, Clone, Copy, PartialEq, Eq, Structural)]
pub enum QueueOutcome {
    /// It is in the queue.
    Queued,
    /// The queue is closed.
    Refused,
    /// There was no room in time.
    TimedOut,
}

/// How reading goes on.
pub enum ReadNext {
    /// With the next frame.
    Continue,
    /// Not at all.
    Stop,
    /// Not at all, and the connection is to be ended.
    End(Error),
}

impl ReadFailure {
    /// Why the connection is to be ended.
    pub fn reason(self) -> (reason: Error)
        ensures
            reason == match self {
                ReadFailure::Frame(error) => error,
                ReadFailure::EndOfStream => Error::Closed,
                ReadFailure::Idle => Error::Timeout,
            },
    {
        match self {
            ReadFailure::Frame(error) => error,
            ReadFailure::EndOfStream => Error::Closed,
            ReadFailure::Idle => Error::Timeout,
        }
    }
}

/// The response to a DELIVER, on its way: the time that it may take begins, and once it is written,
/// the DELIVER is reported.
pub fn deliver_response(deliver: Deliver, response: Bytes, started_at: u128) -> (outbound: Outbound)
    ensures
        outbound@ == (OutboundView {
            response_budget_started_at: Some(started_at),
            event_after_write: Some(Event::Deliver(deliver)),
            ..OutboundView::bare(frozen_contents(response))
        }),
{
    Outbound::event_after_write(response, started_at, Event::Deliver(deliver))
}

/// The state when a TERMINATE of the peer came.
pub open spec fn peer_terminated<R>(before: SessionView<R>) -> SessionView<R> {
    SessionView {
        peer_terminate_seen: true,
        spool: before.spool.draining(),
        ..before.closing(false)
    }
}

/// What a frame does to the state and what it calls for.
pub open spec fn reads<R>(
    before: SessionView<R>,
    after: SessionView<R>,
    frame: Frame,
    step: ReadStep<R>,
) -> bool {
    let id = frame.sequence_id;
    match frame.pdu {
        Pdu::SubmitResp(resp) => {
            let freed = if before.is_answered(id) && !(before.submits[id].state is Writing) {
                Some(before.submits[id].resources)
            } else {
                None
            };
            &&& after == before.answered(id)
            &&& step == if before.is_answered(id) && !before.spool.overflowed {
                ReadStep::Report(
                    Event::SubmitResp { sequence_id: id, msg_id: resp.msg_id, result: resp.result },
                    freed,
                )
            } else {
                ReadStep::Nothing(freed)
            }
        },
        Pdu::Deliver(deliver) => {
            &&& after == before
            &&& step matches ReadStep::Deliver(d, response) && d == deliver && frozen_contents(
                response,
            ) == PduView::DeliverResp(AckView { msg_id: deliver.msg_id@, result: 0 }).frame(id)
        },
        Pdu::ActiveTest => {
            &&& after == before
            &&& step matches ReadStep::Reply(response) && frozen_contents(response)
                == PduView::ActiveTestResp.frame(id)
        },
        Pdu::ActiveTestResp => {
            &&& after == if before.heartbeat matches Some(h) && h.lease.sequence_id == id {
                before.without_heartbeat()
            } else {
                before
            }
            &&& step == ReadStep::<R>::Nothing(None)
        },
        Pdu::Terminate => {
            &&& after == peer_terminated(before)
            &&& step matches ReadStep::PeerTerminate(outbound) && outbound@ == (OutboundView {
                marks_peer_terminate_response: true,
                ..OutboundView::bare(PduView::TerminateResp.frame(id))
            })
        },
        Pdu::TerminateResp => {
            if before.terminates_with(id) {
                after == before.without_terminate() && step == ReadStep::<R>::TerminateAnswered
            } else {
                after == before && step == ReadStep::<R>::Nothing(None)
            }
        },
        other => {
            &&& after == before
            &&& step == ReadStep::<R>::Unexpected(other@.command_id())
        },
    }
}

/// The step that a frame is.
pub open spec fn frame_step<R>(before: SessionView<R>, frame: Frame) -> SessionStep<R> {
    let id = frame.sequence_id;
    match frame.pdu {
        Pdu::SubmitResp(_) => SessionStep::Answer { id },
        Pdu::ActiveTestResp if (before.heartbeat matches Some(h) && h.lease.sequence_id == id) => {
            SessionStep::DropHeartbeat
        },
        Pdu::Terminate => SessionStep::PeerTerminate,
        Pdu::TerminateResp if before.terminates_with(id) => SessionStep::DropTerminate,
        _ => SessionStep::Nothing,
    }
}

impl<R> Session<R> {
    /// Takes in a frame from the peer.
    pub fn read_frame(&mut self, frame: Frame) -> (step: ReadStep<R>)
        requires
            old(self).wf(),
        ensures
            final(self).wf(),
            reads(old(self)@, final(self)@, frame, step),
            leads(old(self)@, frame_step(old(self)@, frame), final(self)@),
    {
        let sequence_id: u32 = frame.sequence_id;
        match frame.pdu {
            Pdu::SubmitResp(resp) => {
                let answer: Answer<R> = self.answer_submit(sequence_id);
                if answer.handled && !self.spool().is_overflowed() {
                    ReadStep::Report(
                        Event::SubmitResp {
                            sequence_id,
                            msg_id: resp.msg_id,
                            result: resp.result,
                        },
                        answer.resources,
                    )
                } else {
                    ReadStep::Nothing(answer.resources)
                }
            },
            Pdu::Deliver(deliver) => {
                let response: Bytes = Pdu::DeliverResp(
                    DeliverResp { msg_id: deliver.msg_id, result: 0 },
                ).encode(sequence_id);
                ReadStep::Deliver(deliver, response)
            },
            Pdu::ActiveTest => ReadStep::Reply(Pdu::ActiveTestResp.encode(sequence_id)),
            Pdu::ActiveTestResp => {
                self.answer_heartbeat(sequence_id);
                ReadStep::Nothing(None)
            },
            Pdu::Terminate => {
                self.note_peer_terminate();
                ReadStep::PeerTerminate(
                    Outbound::peer_terminate_response(Pdu::TerminateResp.encode(sequence_id)),
                )
            },
            Pdu::TerminateResp => {
                if self.take_terminate(sequence_id) {
                    ReadStep::TerminateAnswered
                } else {
                    ReadStep::Nothing(None)
                }
            },
            other => ReadStep::Unexpected(other.command_id()),
        }
    }

    /// How reading goes on when the answer to the TERMINATE of the peer was written, or was not:
    /// only where it was, and the TERMINATE of this side was, too, a response is still due.
    pub fn after_peer_terminate(&self, response_written: bool) -> (next: ReadNext)
        ensures
            next == if response_written && (self@.terminate matches Some(t) && t.written) {
                ReadNext::Continue
            } else {
                ReadNext::End(Error::Terminated)
            },
    {
        if response_written && self.is_terminate_written() {
            ReadNext::Continue
        } else {
            ReadNext::End(Error::Terminated)
        }
    }

    /// How reading goes on when an answer was queued, or was not.
    pub fn after_reply(&self, queued: bool) -> (next: ReadNext)
        ensures
            next == if queued {
                ReadNext::Continue
            } else {
                ReadNext::End(Error::ChannelClosed)
            },
    {
        if queued {
            ReadNext::Continue
        } else {
            ReadNext::End(Error::ChannelClosed)
        }
    }

    /// How reading goes on when the response to a DELIVER was queued, or was not.
    pub fn after_deliver(&self, outcome: QueueOutcome) -> (next: ReadNext)
        ensures
            next == match outcome {
                QueueOutcome::Queued => ReadNext::Continue,
                QueueOutcome::Refused => if self@.phase == ConnectionPhase::Closed {
                    ReadNext::Stop
                } else {
                    ReadNext::End(Error::ChannelClosed)
                },
                QueueOutcome::TimedOut => ReadNext::End(Error::Timeout),
            },
    {
        match outcome {
            QueueOutcome::Queued => ReadNext::Continue,
            QueueOutcome::Refused => {
                if self.phase() == ConnectionPhase::Closed {
                    ReadNext::Stop
                } else {
                    ReadNext::End(Error::ChannelClosed)
                }
            },
            QueueOutcome::TimedOut => ReadNext::End(Error::Timeout),
        }
    }
}

// ---- laws ----

/// A SUBMIT is reported as answered at most once: a second SUBMIT_RESP with the same sequence id
/// calls for nothing.
pub proof fn answered_once<R>(before: SessionView<R>, after: SessionView<R>, id: u32)
    requires
        after == before.answered(id),
        before.is_answered(id),
    ensures
        !after.is_answered(id),
        after.answered(id) == after,
{
}

/// A SUBMIT that was given up is not answered any more, however late a SUBMIT_RESP comes.
pub proof fn expired_is_not_answered<R>(before: SessionView<R>, id: u32)
    ensures
        !before.expired(id).is_answered(id),
        before.expired(id).answered(id) == before.expired(id),
{
}

/// The sequence id of a SUBMIT that was given up is handed out to no other, so that a late response
/// cannot be taken for one to another.
pub proof fn expired_id_never_comes_back<R>(before: SessionView<R>, id: u32)
    requires
        before.wf(),
        before.submits.contains_key(id),
    ensures
        before.expired(id).sequences.spent(id),
        !before.expired(id).sequences.free(id),
{
}

/// A SUBMIT that was answered does not time out, whatever is written after that.
pub proof fn answered_does_not_time_out<R>(
    before: SessionView<R>,
    id: u32,
    key: SubmitAttemptKey,
    written_at: u128,
    now: u128,
)
    requires
        before.is_answered(id),
    ensures
        !before.answered(id).overdue(id, now),
        !before.answered(id).submit_written(key, written_at).overdue(id, now),
{
}

/// Once the peer has sent a TERMINATE, the connection is open no longer, no more SUBMITs are
/// sent, and whatever it is told, it ends for that reason.
pub proof fn peer_terminate_closes<R>(before: SessionView<R>, reason: Option<Error>)
    requires
        before.wf(),
    ensures
        peer_terminated(before).phase != ConnectionPhase::Open,
        !peer_terminated(before).sends_submits(),
        peer_terminated(before).end_reason(reason) == Some(Error::Terminated),
{
}

/// The report of a SUBMIT_RESP carries the response: its sequence id, its message id and its
/// result. Two responses that differ in any of these never yield the same report.
pub proof fn report_carries_the_response<R>(
    before: SessionView<R>,
    after: SessionView<R>,
    frame: Frame,
    step: ReadStep<R>,
)
    requires
        reads(before, after, frame, step),
        frame.pdu is SubmitResp,
    ensures
        ({
            let resp = frame.pdu->SubmitResp_0;
            &&& step matches ReadStep::Report(event, _) ==> event matches Event::SubmitResp {
                sequence_id,
                msg_id,
                result,
            } && sequence_id == frame.sequence_id && msg_id == resp.msg_id && result == resp.result
            &&& step is Report || step is Nothing
        }),
{
}

/// Reports tell responses apart: what yields the same report is the same response.
pub proof fn reports_tell_responses_apart<R>(
    before: SessionView<R>,
    after: SessionView<R>,
    frame: Frame,
    step: ReadStep<R>,
    other_before: SessionView<R>,
    other_after: SessionView<R>,
    other_frame: Frame,
    other_step: ReadStep<R>,
)
    requires
        reads(before, after, frame, step),
        reads(other_before, other_after, other_frame, other_step),
        frame.pdu is SubmitResp,
        other_frame.pdu is SubmitResp,
        step is Report,
        other_step is Report,
        step->Report_0 == other_step->Report_0,
    ensures
        frame.sequence_id == other_frame.sequence_id,
        frame.pdu->SubmitResp_0.msg_id == other_frame.pdu->SubmitResp_0.msg_id,
        frame.pdu->SubmitResp_0.result == other_frame.pdu->SubmitResp_0.result,
{
}

/// The first response to a SUBMIT that waits is reported, as long as the queue of reports did not
/// overflow; a response to nothing, and a second one, are not. What the SUBMIT held is let go of
/// with its response, unless it is being written right now.
pub proof fn first_response_is_reported<R>(
    before: SessionView<R>,
    after: SessionView<R>,
    frame: Frame,
    step: ReadStep<R>,
)
    requires
        reads(before, after, frame, step),
        frame.pdu is SubmitResp,
    ensures
        ({
            let id = frame.sequence_id;
            let freed = match step {
                ReadStep::Nothing(r) => r,
                ReadStep::Report(_, r) => r,
                _ => None,
            };
            let first = before.submits.contains_key(id)
                && !(before.submits[id].state is RespondedWhileWriting);
            &&& step is Report <==> first && !before.spool.overflowed
            &&& !first ==> freed is None && after == before
            &&& first && before.submits[id].state is Writing ==> freed is None
                && after.submits.contains_key(id)
            &&& first && !(before.submits[id].state is Writing) ==> freed
                == Some(before.submits[id].resources) && !after.submits.contains_key(id)
        }),
{
}

/// A DELIVER is handed on as it came, and its answer is a DELIVER_RESP of 21 bytes: under the
/// sequence id of the DELIVER, with its message id and the result 0. The state stays.
pub proof fn deliver_is_acknowledged<R>(
    before: SessionView<R>,
    after: SessionView<R>,
    frame: Frame,
    step: ReadStep<R>,
)
    requires
        reads(before, after, frame, step),
        frame.pdu is Deliver,
    ensures
        after == before,
        step matches ReadStep::Deliver(deliver, response) && deliver == frame.pdu->Deliver_0 && {
            let bytes = frozen_contents(response);
            &&& bytes.len() == 21
            &&& bytes.subrange(0, 4) == seq![0u8, 0, 0, 21]
            &&& bytes.subrange(4, 8) == seq![0x80u8, 0, 0, 5]
            &&& bytes.subrange(8, 12) == be32(frame.sequence_id)
            &&& bytes.subrange(12, 20) == deliver.msg_id@
            &&& bytes[20] == 0
        },
{
    let bytes = frozen_contents(step->Deliver_1);
    let deliver = frame.pdu->Deliver_0;
    assert(bytes.subrange(0, 4) =~= seq![0u8, 0, 0, 21]);
    assert(bytes.subrange(4, 8) =~= seq![0x80u8, 0, 0, 5]);
    assert(bytes.subrange(8, 12) =~= be32(frame.sequence_id));
    assert(bytes.subrange(12, 20) =~= deliver.msg_id@);
}

/// An ACTIVE_TEST is answered by an ACTIVE_TEST_RESP of 13 bytes, under its own sequence id, and
/// changes nothing.
pub proof fn probe_is_answered<R>(
    before: SessionView<R>,
    after: SessionView<R>,
    frame: Frame,
    step: ReadStep<R>,
)
    requires
        reads(before, after, frame, step),
        frame.pdu is ActiveTest,
    ensures
        after == before,
        step matches ReadStep::Reply(response) && frozen_contents(response) == seq![
            0u8,
            0,
            0,
            13,
            0x80,
            0,
            0,
            8,
        ] + be32(frame.sequence_id) + seq![0u8],
{
    assert(PduView::ActiveTestResp.frame(frame.sequence_id) =~= seq![
        0u8,
        0,
        0,
        13,
        0x80,
        0,
        0,
        8,
    ] + be32(frame.sequence_id) + seq![0u8]);
}

/// An ACTIVE_TEST_RESP settles the ACTIVE_TEST of its sequence id, and calls for nothing; one
/// with another id changes nothing.
pub proof fn probe_is_settled<R>(
    before: SessionView<R>,
    after: SessionView<R>,
    frame: Frame,
    step: ReadStep<R>,
)
    requires
        reads(before, after, frame, step),
        frame.pdu is ActiveTestResp,
    ensures
        step == ReadStep::<R>::Nothing(None),
        before.heartbeat matches Some(h) && h.lease.sequence_id == frame.sequence_id ==> {
            &&& after.heartbeat is None
            &&& after.submits == before.submits
            &&& after.phase == before.phase
            &&& after.terminate == before.terminate
        },
        !(before.heartbeat matches Some(h) && h.lease.sequence_id == frame.sequence_id) ==> after
            == before,
{
}

/// A TERMINATE of the peer is answered by a TERMINATE_RESP of 12 bytes, under its own sequence
/// id, whose writing is noted. It is remembered, an open connection begins to close, and no
/// more SUBMITs are sent; those that wait still wait. The queue of reports drains.
pub proof fn farewell_is_answered<R>(
    before: SessionView<R>,
    after: SessionView<R>,
    frame: Frame,
    step: ReadStep<R>,
)
    requires
        before.wf(),
        reads(before, after, frame, step),
        frame.pdu is Terminate,
    ensures
        step matches ReadStep::PeerTerminate(outbound) && outbound@.packet == seq![
            0u8,
            0,
            0,
            12,
            0x80,
            0,
            0,
            2,
        ] + be32(frame.sequence_id) && outbound@.marks_peer_terminate_response,
        after.peer_terminate_seen,
        !after.sends_submits(),
        after.phase == if before.phase == ConnectionPhase::Open {
            ConnectionPhase::Closing
        } else {
            before.phase
        },
        before.spool.admission is Open ==> after.spool.admission is Draining,
        !(before.spool.admission is Open) ==> after.spool == before.spool,
        after.spool.depth == before.spool.depth,
        after.spool.tickets == before.spool.tickets,
        after.submits == before.submits,
        after.sequences == before.sequences,
        after.heartbeat == before.heartbeat,
        after.terminate == before.terminate,
        after.terminal_reason == before.terminal_reason,
{
    assert(PduView::TerminateResp.frame(frame.sequence_id) =~= seq![
        0u8,
        0,
        0,
        12,
        0x80,
        0,
        0,
        2,
    ] + be32(frame.sequence_id));
}

/// A TERMINATE_RESP settles the TERMINATE of its sequence id and wakes who waits for that; one
/// with another id changes nothing and calls for nothing.
pub proof fn own_farewell_is_settled<R>(
    before: SessionView<R>,
    after: SessionView<R>,
    frame: Frame,
    step: ReadStep<R>,
)
    requires
        reads(before, after, frame, step),
        frame.pdu is TerminateResp,
    ensures
        before.terminate matches Some(t) && t.lease.sequence_id == frame.sequence_id ==> {
            &&& step is TerminateAnswered
            &&& after.terminate is None
            &&& after.submits == before.submits
            &&& after.phase == before.phase
        },
        !(before.terminate matches Some(t) && t.lease.sequence_id == frame.sequence_id) ==> {
            &&& step == ReadStep::<R>::Nothing(None)
            &&& after == before
        },
{
}

/// Whatever else the peer sends changes nothing and calls for nothing; its command id is told.
pub proof fn unexpected_frames_change_nothing<R>(
    before: SessionView<R>,
    after: SessionView<R>,
    frame: Frame,
    step: ReadStep<R>,
)
    requires
        reads(before, after, frame, step),
        frame.pdu is Connect || frame.pdu is ConnectResp || frame.pdu is Submit
            || frame.pdu is DeliverResp,
    ensures
        after == before,
        frame.pdu is Connect ==> step == ReadStep::<R>::Unexpected(1),
        frame.pdu is ConnectResp ==> step == ReadStep::<R>::Unexpected(0x8000_0001),
        frame.pdu is Submit ==> step == ReadStep::<R>::Unexpected(4),
        frame.pdu is DeliverResp ==> step == ReadStep::<R>::Unexpected(0x8000_0005),
{
}

} // verus!
