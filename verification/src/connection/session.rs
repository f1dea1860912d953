//! The state that the tasks of a connection share, and each step that they take on it.
use std::collections::HashMap;

use bytes::Bytes;
use vstd::prelude::*;

use crate::buffer::frozen_contents;
use crate::connection::events::{
    Event, EventAdmissionState, EventSpool, SpoolView, EVENT_SPOOL_NORMAL_CAPACITY,
};
use crate::connection::lifecycle::CloseStart;
use crate::connection::outbound::{
    remaining_time, time_left, HeartbeatAttemptKey, HeartbeatAttemptState, Outbound, OutboundView,
    SubmitAttemptKey, SubmitAttemptState,
};
use crate::connection::sequence::{
    batch_id, lease_views, registry_wf, spent_stays_spent, LeaseView, SequenceLease,
    SequenceRegistry, SequenceView,
};
use crate::connection::reader::peer_terminated;
use crate::connection::steps::{leads, SessionStep};
use crate::error::{Error, Result};
use crate::pdu::{Pdu, Submit};
use crate::wire::PduView;

verus! {

broadcast use vstd::std_specs::hash::group_hash_axioms;

/// How far a connection is from its end.
#[derive(Debug, Clone, Copy, PartialEq, Eq, Structural)]
pub enum ConnectionPhase {
    /// It works.
    Open,
    /// It takes leave of the peer.
    Closing,
    /// It is gone.
    Closed,
}

impl ConnectionPhase {
    /// The phases in the order in which they come.
    pub open spec fn rank(self) -> nat {
        match self {
            ConnectionPhase::Open => 0,
            ConnectionPhase::Closing => 1,
            ConnectionPhase::Closed => 2,
        }
    }
}

/// The limits that a connection was made with.
#[derive(Debug, Clone, Copy, PartialEq, Eq, Structural)]
pub struct Limits {
    /// How long a response may take, in nanoseconds.
    pub response_timeout: u128,
    /// How often something is sent before it is given up.
    pub retry_count: u32,
    /// How many SUBMITs may wait for a response.
    pub window_size: usize,
    /// How many SUBMITs are looked at in one go when they time out.
    pub submit_retry_batch_size: usize,
}

impl Limits {
    /// Which attempt can be the last.
    pub open spec fn last_attempt(self) -> u32 {
        if self.retry_count == 0 {
            1
        } else {
            self.retry_count
        }
    }
}

/// A SUBMIT that waits for a response. What it holds until then is `resources`.
pub struct PendingSubmit<R> {
    submission_id: u64,
    packet: Bytes,
    state: SubmitAttemptState,
    sequence_lease: SequenceLease,
    resources: R,
}

/// An ACTIVE_TEST that waits for a response.
pub struct PendingHeartbeat {
    heartbeat_id: u64,
    state: HeartbeatAttemptState,
    sequence_lease: SequenceLease,
}

/// A TERMINATE that waits for a response.
pub struct PendingTerminate {
    written: bool,
    sequence_lease: SequenceLease,
}

/// What is known of a SUBMIT that waits.
#[verifier::ext_equal]
pub struct SubmitEntry<R> {
    pub submission_id: u64,
    pub packet: Seq<u8>,
    pub state: SubmitAttemptState,
    pub lease: LeaseView,
    pub resources: R,
}

/// What is known of an ACTIVE_TEST that waits.
pub struct HeartbeatEntry {
    pub heartbeat_id: u64,
    pub state: HeartbeatAttemptState,
    pub lease: LeaseView,
}

/// What is known of a TERMINATE that waits.
pub struct TerminateEntry {
    pub written: bool,
    pub lease: LeaseView,
}

/// The shared state of a connection.
pub struct Session<R> {
    phase: ConnectionPhase,
    drain_submits_on_close: bool,
    sequences: SequenceRegistry,
    pending_submits: HashMap<u32, PendingSubmit<R>>,
    heartbeat_pending: Option<PendingHeartbeat>,
    pending_terminate: Option<PendingTerminate>,
    spool: EventSpool,
    peer_terminate_seen: bool,
    peer_terminate_response_written: bool,
    terminal_reason: Option<Error>,
    next_submission_id: u64,
    next_heartbeat_id: u64,
    close_driver_started: bool,
    terminate_begun: bool,
    limits: Limits,
}

/// What the tasks of a connection know together.
#[verifier::ext_equal]
pub struct SessionView<R> {
    /// How far the connection is from its end.
    pub phase: ConnectionPhase,
    /// Whether the SUBMITs that were accepted are still sent while the connection closes.
    pub drain_submits: bool,
    /// The sequence ids.
    pub sequences: SequenceView,
    /// The SUBMITs that wait for a response, by sequence id.
    pub submits: Map<u32, SubmitEntry<R>>,
    /// The ACTIVE_TEST that waits for a response.
    pub heartbeat: Option<HeartbeatEntry>,
    /// The TERMINATE of this side that waits for a response.
    pub terminate: Option<TerminateEntry>,
    /// The count of the queue of reports.
    pub spool: SpoolView,
    /// Whether the peer sent a TERMINATE.
    pub peer_terminate_seen: bool,
    /// Whether it was answered.
    pub peer_terminate_answered: bool,
    /// Why the connection ended, until that is reported.
    pub terminal_reason: Option<Error>,
    /// The number of the next SUBMIT.
    pub next_submission_id: u64,
    /// The number of the next ACTIVE_TEST.
    pub next_heartbeat_id: u64,
    /// Whether the user asked to close.
    pub close_started: bool,
    /// Whether this side has begun to take leave of the peer.
    pub terminate_begun: bool,
    /// The limits that the connection was made with.
    pub limits: Limits,
}

/// What is left to do for a connection that was cleaned up.
pub struct Ending {
    /// Whether its end is to be put into the queue of reports.
    pub report: bool,
    /// Why it ended.
    pub reason: Option<Error>,
}

/// What comes of a SUBMIT_RESP.
pub struct Answer<R> {
    /// Whether it is the first to a SUBMIT that waits.
    pub handled: bool,
    /// What the SUBMIT held, if it waits no longer.
    pub resources: Option<R>,
}

/// What comes of the wish to send an ACTIVE_TEST.
pub enum HeartbeatStart {
    /// One waits for a response.
    Busy,
    /// There is no sequence id left.
    Exhausted,
    /// It can be sent.
    Ready(SequenceLease, HeartbeatAttemptKey),
}

/// What comes of an ACTIVE_TEST that is to be sent.
pub enum HeartbeatAdmission {
    /// The connection closes.
    Closed,
    /// One waits for a response.
    Busy,
    /// It is to be written.
    Queued(Outbound),
}

/// A SUBMIT that was given up.
pub struct Expired<R> {
    /// What is to be reported.
    pub report: Event,
    /// What it held.
    pub resources: R,
    /// Whether its sequence id could be taken out of use for good.
    pub retired: bool,
}

impl<R> Expired<R> {
    /// Why the connection is to be ended, if it is: sequence ids that cannot be taken out of use
    /// would come back.
    pub fn end_reason(&self) -> (reason: Option<Error>)
        ensures
            reason == if self.retired {
                None
            } else {
                Some(Error::ChannelClosed)
            },
    {
        if self.retired {
            None
        } else {
            Some(Breakdown::NotRetired.end_reason())
        }
    }
}

impl HeartbeatStart {
    /// Why the connection is to be ended, if it is.
    pub fn end_reason(&self) -> (reason: Option<Error>)
        ensures
            reason == match *self {
                HeartbeatStart::Exhausted => Some(Error::ChannelClosed),
                _ => None,
            },
    {
        match self {
            HeartbeatStart::Exhausted => Some(Breakdown::NoSequenceId.end_reason()),
            _ => None,
        }
    }
}

/// What breaks a connection from within.
#[derive(Debug, Clone, Copy, PartialEq, Eq, Structural)]
pub enum Breakdown {
    /// There is no sequence id left.
    NoSequenceId,
    /// A sequence id could not be taken out of use.
    NotRetired,
    /// There were too many reports.
    Overload,
    /// Nothing more can come to be written.
    NothingToWrite,
    /// A SUBMIT in the queue of what is written does not say which it is.
    UnknownSubmit,
    /// The response to a DELIVER cannot be written in time.
    ResponseTooLate,
    /// An ACTIVE_TEST was not answered, however often it was sent.
    HeartbeatLost,
}

impl Breakdown {
    /// Why the connection ends.
    pub open spec fn reason(self) -> Error {
        match self {
            Breakdown::ResponseTooLate => Error::Timeout,
            Breakdown::HeartbeatLost => Error::Closed,
            _ => Error::ChannelClosed,
        }
    }

    /// Why the connection ends.
    pub fn end_reason(self) -> (reason: Error)
        ensures
            reason == self.reason(),
    {
        match self {
            Breakdown::ResponseTooLate => Error::Timeout,
            Breakdown::HeartbeatLost => Error::Closed,
            _ => Error::ChannelClosed,
        }
    }
}

/// The text of the error for sequence ids that the caller named and cannot have.
pub open spec fn batch_refused_text() -> Seq<char> {
    "base_sequence_id 区间超过 255 段、包含重复值或已被当前 connection 使用"@
}

/// The number behind `n`; 0 comes behind the last.
pub open spec fn next_number(n: u64) -> u64 {
    if n == u64::MAX {
        0
    } else {
        (n + 1) as u64
    }
}

impl<R> SessionView<R> {
    /// What waits is filed under its own sequence id, which never comes back; no more SUBMITs
    /// wait than the window lets; and nothing was sent more often than it may be.
    pub open spec fn wf(self) -> bool {
        &&& self.sequences.wf()
        &&& self.spool.wf()
        &&& self.drain_submits ==> self.phase == ConnectionPhase::Closing
        &&& self.submits.dom().finite()
        &&& self.submits.len() <= self.limits.window_size
        &&& forall|id: u32| #[trigger]
            self.submits.contains_key(id) ==> {
                &&& self.submits[id].lease.sequence_id == id
                &&& self.sequences.spent(id)
                &&& 1 <= self.submits[id].state.number() <= self.limits.last_attempt()
            }
        &&& self.heartbeat matches Some(h) ==> {
            &&& self.sequences.spent(h.lease.sequence_id)
            &&& 1 <= h.state.number() <= self.limits.last_attempt()
        }
        &&& self.terminate matches Some(t) ==> self.sequences.spent(t.lease.sequence_id)
        &&& self.terminate is Some ==> self.terminate_begun
        &&& self.close_started ==> self.phase != ConnectionPhase::Open
    }

    /// Whether SUBMITs are sent: always while the connection is open, and then as long as those
    /// that were accepted are.
    pub open spec fn sends_submits(self) -> bool {
        self.phase == ConnectionPhase::Open || (self.phase == ConnectionPhase::Closing
            && self.drain_submits)
    }

    /// The state when closing was asked for: an open connection begins to close; one that closes
    /// can only be told to send no more SUBMITs.
    pub open spec fn closing(self, drain_submits: bool) -> SessionView<R> {
        if self.phase == ConnectionPhase::Open {
            SessionView { phase: ConnectionPhase::Closing, drain_submits, ..self }
        } else if self.phase == ConnectionPhase::Closing && !drain_submits {
            SessionView { drain_submits: false, ..self }
        } else {
            self
        }
    }

    /// What who asks to close is to start: the first who does sees to it, and takes leave of the
    /// peer if the connection is open.
    pub open spec fn close_start(self) -> CloseStart {
        if self.close_started {
            CloseStart::Nothing
        } else if self.phase == ConnectionPhase::Open {
            CloseStart::Graceful
        } else {
            CloseStart::Reap
        }
    }

    /// The state when the user has asked to close: an open connection closes, the SUBMITs that were
    /// accepted are sent before, and the reports that are under way are let through.
    pub open spec fn close_asked(self) -> SessionView<R> {
        if self.close_started {
            self
        } else if self.phase == ConnectionPhase::Open {
            SessionView {
                close_started: true,
                spool: self.spool.draining(),
                ..self.closing(true)
            }
        } else {
            SessionView { close_started: true, ..self }
        }
    }

    /// Why a connection ends that is told to end for `reason`: what the peer did comes first, then
    /// an overload of reports.
    pub open spec fn end_reason(self, reason: Option<Error>) -> Option<Error> {
        if self.peer_terminate_seen {
            Some(Error::Terminated)
        } else if self.spool.overflowed {
            Some(Error::ChannelClosed)
        } else {
            reason
        }
    }

    /// The state when the connection was told to end: it ends once.
    pub open spec fn finished(self, reason: Option<Error>) -> SessionView<R> {
        if self.phase == ConnectionPhase::Closed {
            self
        } else {
            SessionView {
                phase: ConnectionPhase::Closed,
                drain_submits: false,
                terminal_reason: self.end_reason(reason),
                ..self
            }
        }
    }

    /// The state with a SUBMIT further on.
    pub open spec fn with_submit_state(
        self,
        id: u32,
        state: SubmitAttemptState,
    ) -> SessionView<R> {
        SessionView {
            submits: self.submits.insert(id, SubmitEntry { state, ..self.submits[id] }),
            ..self
        }
    }

    /// The state without a SUBMIT, whose lease is given up.
    pub open spec fn without_submit(self, id: u32) -> SessionView<R> {
        SessionView {
            submits: self.submits.remove(id),
            sequences: self.sequences.without(self.submits[id].lease),
            ..self
        }
    }

    /// The state with the ACTIVE_TEST further on.
    pub open spec fn with_heartbeat_state(self, state: HeartbeatAttemptState) -> SessionView<R> {
        SessionView { heartbeat: Some(HeartbeatEntry { state, ..self.heartbeat->0 }), ..self }
    }

    /// The state without the ACTIVE_TEST, whose lease is given up.
    pub open spec fn without_heartbeat(self) -> SessionView<R> {
        match self.heartbeat {
            Some(h) => SessionView {
                heartbeat: None,
                sequences: self.sequences.without(h.lease),
                ..self
            },
            None => self,
        }
    }

    /// The state without the TERMINATE, whose lease is given up.
    pub open spec fn without_terminate(self) -> SessionView<R> {
        match self.terminate {
            Some(t) => SessionView {
                terminate: None,
                sequences: self.sequences.without(t.lease),
                ..self
            },
            None => self,
        }
    }

    /// Whether a SUBMIT waits that a key is for.
    pub open spec fn has_submission(self, key: SubmitAttemptKey) -> bool {
        self.submits.contains_key(key.sequence_id) && self.submits[key.sequence_id].submission_id
            == key.submission_id
    }

    /// Whether the ACTIVE_TEST waits that a key is for.
    pub open spec fn has_heartbeat(self, key: HeartbeatAttemptKey) -> bool {
        self.heartbeat matches Some(h) && h.lease.sequence_id == key.sequence_id && h.heartbeat_id
            == key.heartbeat_id
    }

    /// Whether an attempt to send a SUBMIT may be written now.
    pub open spec fn may_claim_submit(self, key: SubmitAttemptKey) -> bool {
        &&& self.sends_submits()
        &&& self.has_submission(key)
        &&& self.submits[key.sequence_id].state == SubmitAttemptState::Queued {
            attempt: key.attempt,
        }
    }

    /// The state when an attempt to send a SUBMIT was written: the time for the response begins,
    /// unless the response came meanwhile.
    pub open spec fn submit_written(self, key: SubmitAttemptKey, written_at: u128) -> SessionView<
        R,
    > {
        if !self.has_submission(key) {
            self
        } else if self.submits[key.sequence_id].state == (SubmitAttemptState::Writing {
            attempt: key.attempt,
        }) {
            self.with_submit_state(
                key.sequence_id,
                SubmitAttemptState::AwaitingResponse { attempt: key.attempt, written_at },
            )
        } else if self.submits[key.sequence_id].state == (
        SubmitAttemptState::RespondedWhileWriting { attempt: key.attempt }) {
            self.without_submit(key.sequence_id)
        } else {
            self
        }
    }

    /// Whether a SUBMIT_RESP is the first to a SUBMIT that waits.
    pub open spec fn is_answered(self, id: u32) -> bool {
        self.submits.contains_key(id) && !(self.submits[id].state is RespondedWhileWriting)
    }

    /// The state when a SUBMIT_RESP came: the SUBMIT waits no longer, unless it is being written
    /// right now, which has to end first.
    pub open spec fn answered(self, id: u32) -> SessionView<R> {
        if !self.is_answered(id) {
            self
        } else {
            match self.submits[id].state {
                SubmitAttemptState::Writing { attempt } => self.with_submit_state(
                    id,
                    SubmitAttemptState::RespondedWhileWriting { attempt },
                ),
                _ => self.without_submit(id),
            }
        }
    }

    /// Whether a SUBMIT under a lease can be taken in, if the connection is open: the lease comes
    /// from here, nothing waits under its id, and the window has room.
    pub open spec fn has_room_for(self, lease: LeaseView) -> bool {
        &&& self.sequences.gave(lease)
        &&& !self.submits.contains_key(lease.sequence_id)
        &&& self.submits.len() < self.limits.window_size
    }

    /// The state when a SUBMIT was taken in. An id that the caller named is spent from then on.
    pub open spec fn admitted(
        self,
        lease: LeaseView,
        submission_id: u64,
        packet: Seq<u8>,
        resources: R,
    ) -> SessionView<R> {
        SessionView {
            sequences: if lease.manual {
                self.sequences.with_retired(lease.sequence_id)
            } else {
                self.sequences
            },
            submits: self.submits.insert(
                lease.sequence_id,
                SubmitEntry {
                    submission_id,
                    packet,
                    state: SubmitAttemptState::Queued { attempt: 1 },
                    lease: LeaseView { releases: lease.releases && !lease.manual, ..lease },
                    resources,
                },
            ),
            ..self
        }
    }

    /// Whether a SUBMIT waits for a response and a key is for its present attempt.
    pub open spec fn awaits(self, key: SubmitAttemptKey) -> bool {
        &&& self.has_submission(key)
        &&& self.submits[key.sequence_id].state matches SubmitAttemptState::AwaitingResponse {
            attempt,
            ..
        } && attempt == key.attempt
    }

    /// Whether the ACTIVE_TEST waits for a response and a key is for its present attempt.
    pub open spec fn awaits_heartbeat(self, key: HeartbeatAttemptKey) -> bool {
        &&& self.has_heartbeat(key)
        &&& self.heartbeat->0.state matches HeartbeatAttemptState::AwaitingResponse {
            attempt,
            ..
        } && attempt == key.attempt
    }

    /// The state when a SUBMIT is given up: its id never comes back.
    pub open spec fn expired(self, id: u32) -> SessionView<R> {
        SessionView {
            submits: self.submits.remove(id),
            sequences: self.sequences.with_retired(id),
            ..self
        }
    }

    /// Whether a SUBMIT has waited for a response for too long at `now`.
    pub open spec fn overdue(self, id: u32, now: u128) -> bool {
        self.submits.contains_key(id) && (self.submits[id].state matches
            SubmitAttemptState::AwaitingResponse { written_at, .. } && time_left(
            self.limits.response_timeout,
            written_at,
            now,
        ) is None)
    }

    /// The present attempt to send the ACTIVE_TEST, if that has waited for a response for too long
    /// at `now`.
    pub open spec fn overdue_heartbeat(self, now: u128) -> Option<HeartbeatAttemptKey> {
        match self.heartbeat {
            Some(h) => match h.state {
                HeartbeatAttemptState::AwaitingResponse { attempt, written_at } if time_left(
                    self.limits.response_timeout,
                    written_at,
                    now,
                ) is None => Some(
                    HeartbeatAttemptKey {
                        sequence_id: h.lease.sequence_id,
                        heartbeat_id: h.heartbeat_id,
                        attempt,
                    },
                ),
                _ => None,
            },
            None => None,
        }
    }

    /// The present attempt to send a SUBMIT.
    pub open spec fn present_attempt(self, id: u32) -> SubmitAttemptKey {
        SubmitAttemptKey {
            sequence_id: id,
            submission_id: self.submits[id].submission_id,
            attempt: self.submits[id].state.number(),
        }
    }

    /// When a SUBMIT that waits for a response was written.
    pub open spec fn written_at(self, id: u32) -> u128 {
        self.submits[id].state->written_at
    }

    /// Whether one SUBMIT was written before another; of two that were written at once, the one
    /// with the lower id counts as first.
    pub open spec fn written_before(self, a: u32, b: u32) -> bool {
        self.written_at(a) < self.written_at(b) || (self.written_at(a) == self.written_at(b) && a
            < b)
    }

    /// Whether some keys are those of the SUBMITs that were written first, of those that have
    /// waited for too long at `now`: no more than are looked at in one go, in order, and all if
    /// there are no more.
    pub open spec fn are_first_overdue(self, keys: Seq<SubmitAttemptKey>, now: u128) -> bool {
        &&& keys.len() <= self.limits.submit_retry_batch_size
        &&& forall|i: int|
            0 <= i < keys.len() ==> self.overdue((#[trigger] keys[i]).sequence_id, now) && keys[i]
                == self.present_attempt(keys[i].sequence_id)
        &&& forall|i: int, j: int|
            0 <= i < j < keys.len() ==> self.written_before(
                (#[trigger] keys[i]).sequence_id,
                (#[trigger] keys[j]).sequence_id,
            )
        &&& forall|id: u32| #[trigger]
            self.overdue(id, now) ==> {
                ||| exists|i: int| 0 <= i < keys.len() && (#[trigger] keys[i]).sequence_id == id
                ||| keys.len() == self.limits.submit_retry_batch_size && forall|i: int|
                    0 <= i < keys.len() ==> self.written_before(
                        (#[trigger] keys[i]).sequence_id,
                        id,
                    )
            }
    }

    /// Whether the TERMINATE of this side has a sequence id.
    pub open spec fn terminates_with(self, id: u32) -> bool {
        self.terminate matches Some(t) && t.lease.sequence_id == id
    }

    /// The sequence ids that are free when no SUBMIT waits any longer.
    pub open spec fn released_ids(self) -> Set<u32> {
        Set::new(|id: u32| self.submits.contains_key(id) && self.submits[id].lease.releases)
    }

    /// The state when nothing waits any longer.
    pub open spec fn emptied(self) -> SessionView<R> {
        SessionView {
            submits: Map::empty(),
            sequences: SequenceView {
                reserved: self.sequences.reserved.difference(self.released_ids()),
                ..self.sequences
            },
            ..self
        }.without_heartbeat().without_terminate()
    }

    /// The state when the end of the connection is to be reported, which is done once.
    pub open spec fn cleaned_up(self) -> SessionView<R> {
        let empty = self.emptied();
        SessionView {
            spool: SpoolView { admission: EventAdmissionState::Terminal, ..empty.spool },
            terminal_reason: if empty.spool.admission == EventAdmissionState::Terminal {
                empty.terminal_reason
            } else {
                None
            },
            ..empty
        }
    }

    /// Whether an attempt to send the ACTIVE_TEST may be written now.
    pub open spec fn may_claim_heartbeat(self, key: HeartbeatAttemptKey) -> bool {
        &&& self.phase == ConnectionPhase::Open
        &&& self.has_heartbeat(key)
        &&& self.heartbeat->0.state == HeartbeatAttemptState::Queued { attempt: key.attempt }
    }

    /// The state when an attempt to send the ACTIVE_TEST was written: the time for the response
    /// begins.
    pub open spec fn heartbeat_written(
        self,
        key: HeartbeatAttemptKey,
        written_at: u128,
    ) -> SessionView<R> {
        if self.has_heartbeat(key) && self.heartbeat->0.state == (HeartbeatAttemptState::Writing {
            attempt: key.attempt,
        }) {
            self.with_heartbeat_state(
                HeartbeatAttemptState::AwaitingResponse { attempt: key.attempt, written_at },
            )
        } else {
            self
        }
    }
}

impl<R> View for PendingSubmit<R> {
    type V = SubmitEntry<R>;

    closed spec fn view(&self) -> SubmitEntry<R> {
        SubmitEntry {
            submission_id: self.submission_id,
            packet: frozen_contents(self.packet),
            state: self.state,
            lease: self.sequence_lease@,
            resources: self.resources,
        }
    }
}

impl View for PendingHeartbeat {
    type V = HeartbeatEntry;

    closed spec fn view(&self) -> HeartbeatEntry {
        HeartbeatEntry {
            heartbeat_id: self.heartbeat_id,
            state: self.state,
            lease: self.sequence_lease@,
        }
    }
}

impl View for PendingTerminate {
    type V = TerminateEntry;

    closed spec fn view(&self) -> TerminateEntry {
        TerminateEntry { written: self.written, lease: self.sequence_lease@ }
    }
}

impl<R> View for Session<R> {
    type V = SessionView<R>;

    closed spec fn view(&self) -> SessionView<R> {
        SessionView {
            phase: self.phase,
            drain_submits: self.drain_submits_on_close,
            sequences: self.sequences@,
            submits: Map::new(
                |id: u32| self.pending_submits@.contains_key(id),
                |id: u32| self.pending_submits@[id]@,
            ),
            heartbeat: match self.heartbeat_pending {
                Some(h) => Some(h@),
                None => None,
            },
            terminate: match self.pending_terminate {
                Some(t) => Some(t@),
                None => None,
            },
            spool: self.spool@,
            peer_terminate_seen: self.peer_terminate_seen,
            peer_terminate_answered: self.peer_terminate_response_written,
            terminal_reason: self.terminal_reason,
            next_submission_id: self.next_submission_id,
            next_heartbeat_id: self.next_heartbeat_id,
            close_started: self.close_driver_started,
            terminate_begun: self.terminate_begun,
            limits: self.limits,
        }
    }
}

impl<R> Session<R> {
    /// The state is well-formed.
    pub closed spec fn wf(self) -> bool {
        self@.wf() && self.sequences.wf()
    }

    /// The state of a connection that was just opened, the sequence ids of which start at 2.
    pub fn new(limits: Limits) -> (session: Session<R>)
        ensures
            session.wf(),
            session@.wf(),
            session@.phase == ConnectionPhase::Open,
            !session@.drain_submits,
            session@.sequences == (SequenceView {
                start: 2,
                used_through: None,
                reserved: Set::empty(),
                retired: Set::empty(),
            }),
            session@.submits == Map::<u32, SubmitEntry<R>>::empty(),
            session@.heartbeat is None,
            session@.terminate is None,
            session@.spool == (SpoolView {
                admission: EventAdmissionState::Open,
                depth: 0,
                tickets: 0,
                overflowed: false,
            }),
            !session@.peer_terminate_seen,
            !session@.peer_terminate_answered,
            session@.terminal_reason is None,
            session@.next_submission_id == 1,
            session@.next_heartbeat_id == 1,
            !session@.close_started,
            !session@.terminate_begun,
            session@.limits == limits,
    {
        let session: Session<R> = Session {
            phase: ConnectionPhase::Open,
            drain_submits_on_close: false,
            sequences: SequenceRegistry::new(2),
            pending_submits: HashMap::new(),
            heartbeat_pending: None,
            pending_terminate: None,
            spool: EventSpool::new(),
            peer_terminate_seen: false,
            peer_terminate_response_written: false,
            terminal_reason: None,
            next_submission_id: 1,
            next_heartbeat_id: 1,
            close_driver_started: false,
            terminate_begun: false,
            limits,
        };
        assert(session@.submits =~= Map::<u32, SubmitEntry<R>>::empty());
        session
    }

    /// How far the connection is from its end.
    pub fn phase(&self) -> (phase: ConnectionPhase)
        ensures
            phase == self@.phase,
    {
        self.phase
    }

    /// The limits that the connection was made with.
    pub fn limits(&self) -> (limits: Limits)
        ensures
            limits == self@.limits,
    {
        self.limits
    }

    /// Begins to close an open connection. Whether it was open.
    pub fn begin_closing(&mut self, drain_submits: bool) -> (began: bool)
        requires
            old(self).wf(),
        ensures
            final(self).wf(),
            leads(old(self)@, SessionStep::BeginClosing { drain_submits }, final(self)@),
            began == (old(self)@.phase == ConnectionPhase::Open),
            final(self)@ == old(self)@.closing(drain_submits),
    {
        if self.phase != ConnectionPhase::Open {
            if self.phase == ConnectionPhase::Closing && !drain_submits {
                self.drain_submits_on_close = false;
            }
            return false;
        }
        self.drain_submits_on_close = drain_submits;
        self.phase = ConnectionPhase::Closing;
        true
    }

    /// Asks to close the connection: what is to be started for that.
    pub fn start_close(&mut self) -> (start: CloseStart)
        requires
            old(self).wf(),
        ensures
            final(self).wf(),
            start == old(self)@.close_start(),
            final(self)@ == old(self)@.close_asked(),
            leads(old(self)@, SessionStep::StartClose { start }, final(self)@),
    {
        if self.close_driver_started {
            return CloseStart::Nothing;
        }
        if self.begin_closing(true) {
            self.spool.begin_drain();
            self.close_driver_started = true;
            CloseStart::Graceful
        } else {
            self.close_driver_started = true;
            CloseStart::Reap
        }
    }

    /// Ends the connection for `reason`, unless there is a better one. Whether it had not ended.
    pub fn finish(&mut self, reason: Option<Error>) -> (ended: bool)
        requires
            old(self).wf(),
        ensures
            final(self).wf(),
            leads(old(self)@, SessionStep::Finish { reason }, final(self)@),
            ended == (old(self)@.phase != ConnectionPhase::Closed),
            final(self)@ == old(self)@.finished(reason),
            ended && !old(self)@.peer_terminate_seen && !old(self)@.spool.overflowed
                ==> final(self)@.terminal_reason == reason,
    {
        let reason: Option<Error> = if self.peer_terminate_seen {
            Some(Error::Terminated)
        } else if self.spool.is_overflowed() {
            Some(Error::ChannelClosed)
        } else {
            reason
        };
        if self.phase == ConnectionPhase::Closed {
            return false;
        }
        self.terminal_reason = reason;
        self.phase = ConnectionPhase::Closed;
        self.drain_submits_on_close = false;
        true
    }

    /// Moves a SUBMIT on.
    fn set_submit_state(&mut self, id: u32, state: SubmitAttemptState)
        requires
            old(self).wf(),
            old(self)@.submits.contains_key(id),
            1 <= state.number() <= old(self)@.limits.last_attempt(),
        ensures
            final(self).wf(),
            final(self)@ == old(self)@.with_submit_state(id, state),
    {
        let ghost before = self@;
        if let Some(mut entry) = self.pending_submits.remove(&id) {
            entry.state = state;
            self.pending_submits.insert(id, entry);
        }
        assert(self@.submits =~= before.with_submit_state(id, state).submits);
        assert(self@.submits.dom() =~= before.submits.dom());
    }

    /// Lets a SUBMIT go.
    fn remove_submit(&mut self, id: u32) -> (resources: R)
        requires
            old(self).wf(),
            old(self)@.submits.contains_key(id),
        ensures
            final(self).wf(),
            final(self)@ == old(self)@.without_submit(id),
            resources == old(self)@.submits[id].resources,
    {
        let ghost before = self@;
        let entry: PendingSubmit<R> = self.pending_submits.remove(&id).unwrap();
        assert(entry@ == before.submits[id]);
        entry.sequence_lease.give_up(&mut self.sequences);
        assert(self@.submits =~= before.submits.remove(id));
        assert(self@ =~= before.without_submit(id));
        entry.resources
    }

    /// Claims an attempt to send a SUBMIT for being written, and then it must be written whole.
    /// Whether it may be.
    pub fn claim_submit_attempt(&mut self, key: SubmitAttemptKey) -> (claimed: bool)
        requires
            old(self).wf(),
        ensures
            final(self).wf(),
            leads(old(self)@, SessionStep::ClaimSubmit { key }, final(self)@),
            claimed == old(self)@.may_claim_submit(key),
            final(self)@ == if claimed {
                old(self)@.with_submit_state(
                    key.sequence_id,
                    SubmitAttemptState::Writing { attempt: key.attempt },
                )
            } else {
                old(self)@
            },
    {
        if self.phase != ConnectionPhase::Open && !(self.phase == ConnectionPhase::Closing
            && self.drain_submits_on_close) {
            return false;
        }
        let queued: bool = match self.pending_submits.get(&key.sequence_id) {
            Some(entry) => {
                assert(entry@ == self@.submits[key.sequence_id]);
                entry.submission_id == key.submission_id && entry.state
                    == SubmitAttemptState::Queued { attempt: key.attempt }
            },
            None => false,
        };
        if queued {
            assert(self@.submits.contains_key(key.sequence_id));
            self.set_submit_state(
                key.sequence_id,
                SubmitAttemptState::Writing { attempt: key.attempt },
            );
        }
        queued
    }

    /// Notes that an attempt to send a SUBMIT was written. What the SUBMIT held, if its response
    /// came meanwhile.
    pub fn complete_submit_attempt(&mut self, key: SubmitAttemptKey, written_at: u128) -> (resources:
        Option<R>)
        requires
            old(self).wf(),
        ensures
            final(self).wf(),
            leads(old(self)@, SessionStep::SubmitWritten { key, written_at }, final(self)@),
            final(self)@ == old(self)@.submit_written(key, written_at),
            resources == if old(self)@.has_submission(key) && old(
                self,
            )@.submits[key.sequence_id].state == (SubmitAttemptState::RespondedWhileWriting {
                attempt: key.attempt,
            }) {
                Some(old(self)@.submits[key.sequence_id].resources)
            } else {
                None
            },
    {
        let state: SubmitAttemptState = match self.pending_submits.get(&key.sequence_id) {
            Some(entry) => {
                assert(entry@ == self@.submits[key.sequence_id]);
                if entry.submission_id != key.submission_id {
                    return None;
                }
                entry.state
            },
            None => {
                return None;
            },
        };
        if state == (SubmitAttemptState::Writing { attempt: key.attempt }) {
            self.set_submit_state(
                key.sequence_id,
                SubmitAttemptState::AwaitingResponse { attempt: key.attempt, written_at },
            );
            None
        } else if state == (SubmitAttemptState::RespondedWhileWriting { attempt: key.attempt }) {
            Some(self.remove_submit(key.sequence_id))
        } else {
            None
        }
    }

    /// Claims an attempt to send the ACTIVE_TEST for being written. Whether it may be.
    pub fn claim_heartbeat_attempt(&mut self, key: HeartbeatAttemptKey) -> (claimed: bool)
        requires
            old(self).wf(),
        ensures
            final(self).wf(),
            leads(old(self)@, SessionStep::ClaimHeartbeat { key }, final(self)@),
            claimed == old(self)@.may_claim_heartbeat(key),
            final(self)@ == if claimed {
                old(self)@.with_heartbeat_state(
                    HeartbeatAttemptState::Writing { attempt: key.attempt },
                )
            } else {
                old(self)@
            },
    {
        if self.phase != ConnectionPhase::Open {
            return false;
        }
        let queued: bool = match &self.heartbeat_pending {
            Some(entry) => entry.sequence_lease.id() == key.sequence_id && entry.heartbeat_id
                == key.heartbeat_id && entry.state == HeartbeatAttemptState::Queued {
                attempt: key.attempt,
            },
            None => false,
        };
        if queued {
            self.set_heartbeat_state(HeartbeatAttemptState::Writing { attempt: key.attempt });
        }
        queued
    }

    /// Notes that an attempt to send the ACTIVE_TEST was written.
    pub fn complete_heartbeat_attempt(&mut self, key: HeartbeatAttemptKey, written_at: u128)
        requires
            old(self).wf(),
        ensures
            final(self).wf(),
            leads(old(self)@, SessionStep::HeartbeatWritten { key, written_at }, final(self)@),
            final(self)@ == old(self)@.heartbeat_written(key, written_at),
    {
        let writing: bool = match &self.heartbeat_pending {
            Some(entry) => entry.sequence_lease.id() == key.sequence_id && entry.heartbeat_id
                == key.heartbeat_id && entry.state == HeartbeatAttemptState::Writing {
                attempt: key.attempt,
            },
            None => false,
        };
        if writing {
            self.set_heartbeat_state(
                HeartbeatAttemptState::AwaitingResponse { attempt: key.attempt, written_at },
            );
        }
    }

    /// Moves the ACTIVE_TEST on.
    fn set_heartbeat_state(&mut self, state: HeartbeatAttemptState)
        requires
            old(self).wf(),
            old(self)@.heartbeat is Some,
            1 <= state.number() <= old(self)@.limits.last_attempt(),
        ensures
            final(self).wf(),
            final(self)@ == old(self)@.with_heartbeat_state(state),
    {
        if let Some(mut entry) = self.heartbeat_pending.take() {
            entry.state = state;
            self.heartbeat_pending = Some(entry);
        }
    }

    /// Lets the ACTIVE_TEST go.
    fn remove_heartbeat(&mut self)
        requires
            old(self).wf(),
        ensures
            final(self).wf(),
            final(self)@ == old(self)@.without_heartbeat(),
    {
        if let Some(entry) = self.heartbeat_pending.take() {
            entry.sequence_lease.give_up(&mut self.sequences);
        }
    }

    /// Lets the TERMINATE of this side go.
    fn abandon_terminate(&mut self)
        requires
            old(self).wf(),
        ensures
            final(self).wf(),
            leads(old(self)@, SessionStep::DropTerminate, final(self)@),
            final(self)@ == old(self)@.without_terminate(),
    {
        if let Some(entry) = self.pending_terminate.take() {
            entry.sequence_lease.give_up(&mut self.sequences);
        }
    }

    /// The count of the queue of reports.
    pub fn spool(&mut self) -> (spool: &mut EventSpool)
        requires
            old(self).wf(),
        ensures
            spool@ == old(self)@.spool,
            spool@.wf(),
            final(self)@ == (SessionView { spool: final(spool)@, ..old(self)@ }),
            leads(old(self)@, SessionStep::Count { spool: final(spool)@ }, final(self)@),
            final(spool)@.wf() ==> final(self).wf(),
    {
        &mut self.spool
    }

    // ---- sequence ids ----

    /// Hands out the next sequence id in order.
    pub fn reserve_next(&mut self) -> (lease: Option<SequenceLease>)
        requires
            old(self).wf(),
        ensures
            final(self).wf(),
            leads(
                old(self)@,
                SessionStep::ReserveNext {
                    lease: match lease {
                        Some(l) => Some(l@),
                        None => None,
                    },
                },
                final(self)@,
            ),
            old(self)@.sequences.reserves_next(
                final(self)@.sequences,
                match lease {
                    Some(l) => Some(l@),
                    None => None,
                },
            ),
            final(self)@ == (SessionView { sequences: final(self)@.sequences, ..old(self)@ }),
    {
        let ghost before = self@;
        let lease: Option<SequenceLease> = self.sequences.reserve_next();
        proof {
            assert(self@.submits =~= before.submits);
            registry_wf(self.sequences);
            assert forall|id: u32| before.sequences.spent(id) implies self@.sequences.spent(id) by {
                spent_stays_spent(before.sequences, self@.sequences, id);
            }
        }
        lease
    }

    /// Hands out `count` sequence ids in a row, the first of which the caller names.
    pub fn reserve_batch(&mut self, base: u32, count: usize) -> (result: Result<Vec<SequenceLease>>)
        requires
            old(self).wf(),
        ensures
            final(self).wf(),
            leads(
                old(self)@,
                SessionStep::ReserveBatch { base, count: count as int },
                final(self)@,
            ),
            final(self)@ == (SessionView {
                sequences: old(self)@.sequences.with_batch(base, count as int),
                ..old(self)@
            }),
            if old(self)@.sequences.has_batch(base, count as int) {
                result matches Ok(leases) && lease_views(leases@) == Seq::new(
                    count as nat,
                    |i: int|
                        LeaseView {
                            sequence_id: batch_id(base, i),
                            manual: true,
                            releases: true,
                        },
                )
            } else {
                result matches Err(e) && e.is_config(batch_refused_text())
            },
    {
        let ghost before = self@;
        let leases: Option<Vec<SequenceLease>> = self.sequences.reserve_batch(base, count);
        proof {
            assert(self@.submits =~= before.submits);
            registry_wf(self.sequences);
        }
        match leases {
            Some(leases) => Ok(leases),
            None => Err(
                Error::Config(
                    "base_sequence_id 区间超过 255 段、包含重复值或已被当前 connection 使用".to_string(),
                ),
            ),
        }
    }

    /// Gives up a lease.
    pub fn give_up(&mut self, lease: SequenceLease)
        requires
            old(self).wf(),
        ensures
            final(self).wf(),
            leads(old(self)@, SessionStep::GiveUp { lease: lease@ }, final(self)@),
            final(self)@ == (SessionView {
                sequences: old(self)@.sequences.without(lease@),
                ..old(self)@
            }),
    {
        let ghost before = self@;
        lease.give_up(&mut self.sequences);
        proof {
            assert(self@.submits =~= before.submits);
            registry_wf(self.sequences);
        }
    }

    // ---- the end ----

    /// Frees the sequence ids of all SUBMITs that wait.
    fn free_submits(&mut self)
        requires
            old(self).wf(),
        ensures
            final(self).wf(),
            final(self)@ == (SessionView {
                submits: Map::empty(),
                sequences: SequenceView {
                    reserved: old(self)@.sequences.reserved.difference(old(self)@.released_ids()),
                    ..old(self)@.sequences
                },
                ..old(self)@
            }),
    {
        let ghost before = self@;
        let ghost map = self.pending_submits@;
        for (id, entry) in it: self.pending_submits.iter()
            invariant
                before.wf(),
                self.pending_submits@ == map,
                forall|id: u32| before.submits.contains_key(id) == #[trigger] map.contains_key(id),
                forall|id: u32| #[trigger] map.contains_key(id) ==> before.submits[id] == map[id]@,
                forall|k: int|
                    0 <= k < it.seq().len() ==> map.contains_key(*(#[trigger] it.seq()[k]).0)
                        && map[*it.seq()[k].0] == *it.seq()[k].1,
                forall|id: u32| #[trigger]
                    map.contains_key(id) ==> it.seq().contains((&id, &map[id])),
                self.sequences.wf(),
                self@.sequences == (SequenceView {
                    reserved: before.sequences.reserved.difference(
                        Set::new(
                            |id: u32|
                                before.released_ids().contains(id) && seen_id(
                                    it.seq().take(it.index() as int),
                                    id,
                                ),
                        ),
                    ),
                    ..before.sequences
                }),
                self@ == (SessionView { sequences: self@.sequences, ..before }),
                it.index() == it.seq().len() ==> self@.sequences.reserved
                    == before.sequences.reserved.difference(before.released_ids()),
        {
            let ghost seen = it.seq().take(it.index() as int);
            let ghost next = it.seq().take(it.index() + 1);
            proof {
                assert(next =~= seen.push((id, entry)));
                assert forall|other: u32| seen_id(next, other) == (seen_id(seen, other) || other
                    == *id) by {
                    if seen_id(seen, other) {
                        let k = choose|k: int|
                            0 <= k < seen.len() && *(#[trigger] seen[k]).0 == other;
                        assert(*next[k].0 == other);
                    }
                    if seen_id(next, other) && other != *id {
                        let k = choose|k: int|
                            0 <= k < next.len() && *(#[trigger] next[k]).0 == other;
                        assert(*seen[k].0 == other);
                    }
                    assert(*next[seen.len() as int].0 == *id);
                }
                assert(before.submits[*id] == entry@);
            }
            entry.sequence_lease.free_in(&mut self.sequences);
            proof {
                assert(self@.sequences.reserved =~= before.sequences.reserved.difference(
                    Set::new(
                        |id: u32| before.released_ids().contains(id) && seen_id(next, id),
                    ),
                ));
                assert(self@.submits =~= before.submits);
                assert forall|id: u32|
                    next.len() == it.seq().len() && before.released_ids().contains(
                        id,
                    ) implies seen_id(next, id) by {
                    assert(map.contains_key(id));
                    assert(next =~= it.seq());
                    let k = next.index_of((&id, &map[id]));
                    assert(*next[k].0 == id);
                }
                assert(next.len() == it.seq().len() ==> self@.sequences.reserved
                    =~= before.sequences.reserved.difference(before.released_ids()));
            }
        }
        self.pending_submits.clear();
        proof {
            registry_wf(self.sequences);
            assert(self@.submits =~= Map::<u32, SubmitEntry<R>>::empty());
        }
    }

    /// Lets go of everything that waits, once the connection has ended, and closes the
    /// queue of reports. What came of reporting the end is handed to
    /// [`EventSpool::settle_end`].
    pub fn cleanup(&mut self) -> (ending: Ending)
        requires
            old(self).wf(),
        ensures
            final(self).wf(),
            leads(old(self)@, SessionStep::Cleanup, final(self)@),
            final(self)@ == old(self)@.cleaned_up(),
            ending.report == (old(self)@.spool.admission != EventAdmissionState::Terminal),
            ending.reason == if ending.report {
                old(self)@.terminal_reason
            } else {
                None
            },
            ending.report ==> final(self)@.spool.depth <= EVENT_SPOOL_NORMAL_CAPACITY + 1,
    {
        self.free_submits();
        self.remove_heartbeat();
        self.abandon_terminate();
        let report: bool = self.spool.close();
        let reason: Option<Error> = if report {
            self.terminal_reason.take()
        } else {
            None
        };
        Ending { report, reason }
    }

    // ---- SUBMIT ----

    /// Encodes a SUBMIT under a lease and numbers it, or gives the lease up and says why it cannot
    /// be encoded.
    pub fn begin_submit(&mut self, lease: SequenceLease, submit: &Submit) -> (result: Result<
        (SequenceLease, SubmitAttemptKey, Bytes),
    >)
        requires
            old(self).wf(),
        ensures
            final(self).wf(),
            leads(
                old(self)@,
                if submit@.fault() is None {
                    SessionStep::NumberSubmit
                } else {
                    SessionStep::GiveUp { lease: lease@ }
                },
                final(self)@,
            ),
            match submit@.fault() {
                Some(fault) => {
                    &&& result matches Err(e) && e.is_config(fault)
                    &&& final(self)@ == (SessionView {
                        sequences: old(self)@.sequences.without(lease@),
                        ..old(self)@
                    })
                },
                None => {
                    &&& result matches Ok((l, key, packet)) && l == lease && key == (
                    SubmitAttemptKey {
                        sequence_id: lease@.sequence_id,
                        submission_id: old(self)@.next_submission_id,
                        attempt: 1,
                    }) && frozen_contents(packet) == PduView::Submit(submit@).frame(
                        lease@.sequence_id,
                    )
                    &&& final(self)@ == (SessionView {
                        next_submission_id: next_number(old(self)@.next_submission_id),
                        ..old(self)@
                    })
                },
            },
    {
        let sequence_id: u32 = lease.id();
        match submit.try_encode(sequence_id) {
            Ok(packet) => {
                let submission_id: u64 = self.next_submission_id;
                self.next_submission_id = submission_id.wrapping_add(1);
                Ok((lease, SubmitAttemptKey { sequence_id, submission_id, attempt: 1 }, packet))
            },
            Err(error) => {
                self.give_up(lease);
                Err(error)
            },
        }
    }

    /// Whether a SUBMIT under a lease can be taken in, if the connection is open.
    pub fn has_room(&self, lease: &SequenceLease) -> (room: bool)
        requires
            self.wf(),
        ensures
            room == self@.has_room_for(lease@),
    {
        assert(self@.submits.dom() =~= self.pending_submits@.dom());
        self.sequences.owns(lease) && !self.pending_submits.contains_key(&lease.id())
            && self.pending_submits.len() < self.limits.window_size
    }

    /// Takes in a SUBMIT: what is to be written. An id that the caller named is spent from then
    /// on; where it cannot be, the connection is to be ended.
    pub fn admit_submit(
        &mut self,
        lease: SequenceLease,
        key: SubmitAttemptKey,
        packet: Bytes,
        resources: R,
    ) -> (result: Result<Outbound>)
        requires
            old(self).wf(),
            old(self)@.has_room_for(lease@),
            key.sequence_id == lease@.sequence_id,
        ensures
            final(self).wf(),
            leads(
                old(self)@,
                if old(self)@.phase != ConnectionPhase::Open {
                    SessionStep::GiveUp { lease: lease@ }
                } else if lease@.manual && !old(self)@.sequences.can_retire(lease@.sequence_id) {
                    SessionStep::Nothing
                } else {
                    SessionStep::Admit {
                        lease: lease@,
                        submission_id: key.submission_id,
                        packet: frozen_contents(packet),
                        resources,
                    }
                },
                final(self)@,
            ),
            if old(self)@.phase != ConnectionPhase::Open {
                &&& result matches Err(Error::Closed)
                &&& final(self)@ == (SessionView {
                    sequences: old(self)@.sequences.without(lease@),
                    ..old(self)@
                })
            } else if lease@.manual && !old(self)@.sequences.can_retire(lease@.sequence_id) {
                &&& result matches Err(Error::ChannelClosed)
                &&& final(self)@ == old(self)@
            } else {
                &&& result matches Ok(outbound) && outbound@ == (OutboundView {
                    submit_attempt: Some(key),
                    ..OutboundView::bare(frozen_contents(packet))
                })
                &&& final(self)@ == old(self)@.admitted(
                    lease@,
                    key.submission_id,
                    frozen_contents(packet),
                    resources,
                )
            },
    {
        let ghost before = self@;
        if self.phase != ConnectionPhase::Open {
            self.give_up(lease);
            return Err(Error::Closed);
        }
        let ghost given = lease@;
        let mut held: SequenceLease = lease;
        if held.is_manual() {
            let retired: bool = held.retire(&mut self.sequences);
            proof {
                registry_wf(self.sequences);
                assert(self@.submits =~= before.submits);
            }
            if !retired {
                assert(self@ =~= before);
                return Err(Error::ChannelClosed);
            }
        }
        let sequence_id: u32 = held.id();
        self.pending_submits.insert(
            sequence_id,
            PendingSubmit {
                submission_id: key.submission_id,
                packet: packet.clone(),
                state: SubmitAttemptState::Queued { attempt: 1 },
                sequence_lease: held,
                resources,
            },
        );
        proof {
            let after = before.admitted(
                given,
                key.submission_id,
                frozen_contents(packet),
                resources,
            );
            assert(self@.submits =~= after.submits);
            assert(self@ =~= after);
            assert(after.submits.dom() =~= before.submits.dom().insert(sequence_id));
        }
        Ok(Outbound::submit(packet, key))
    }

    /// Takes in a SUBMIT_RESP.
    pub fn answer_submit(&mut self, sequence_id: u32) -> (answer: Answer<R>)
        requires
            old(self).wf(),
        ensures
            final(self).wf(),
            leads(old(self)@, SessionStep::Answer { id: sequence_id }, final(self)@),
            final(self)@ == old(self)@.answered(sequence_id),
            answer.handled == old(self)@.is_answered(sequence_id),
            answer.resources == if old(self)@.is_answered(sequence_id) && !(old(
                self,
            )@.submits[sequence_id].state is Writing) {
                Some(old(self)@.submits[sequence_id].resources)
            } else {
                None
            },
    {
        let state: SubmitAttemptState = match self.pending_submits.get(&sequence_id) {
            Some(entry) => {
                assert(entry@ == self@.submits[sequence_id]);
                entry.state
            },
            None => {
                return Answer { handled: false, resources: None };
            },
        };
        assert(self@.submits.contains_key(sequence_id));
        match state {
            SubmitAttemptState::Writing { attempt } => {
                self.set_submit_state(
                    sequence_id,
                    SubmitAttemptState::RespondedWhileWriting { attempt },
                );
                Answer { handled: true, resources: None }
            },
            SubmitAttemptState::RespondedWhileWriting { .. } => Answer {
                handled: false,
                resources: None,
            },
            _ => Answer { handled: true, resources: Some(self.remove_submit(sequence_id)) },
        }
    }

    /// Whether a SUBMIT waits for a response and a key is for its present attempt.
    pub fn still_awaits(&self, key: SubmitAttemptKey) -> (awaits: bool)
        ensures
            awaits == self@.awaits(key),
    {
        match self.pending_submits.get(&key.sequence_id) {
            Some(entry) => {
                assert(entry@ == self@.submits[key.sequence_id]);
                entry.submission_id == key.submission_id && match entry.state {
                    SubmitAttemptState::AwaitingResponse { attempt, .. } => attempt == key.attempt,
                    _ => false,
                }
            },
            None => false,
        }
    }

    /// Gives up a SUBMIT that was sent as often as it may be.
    pub fn expire_submit(&mut self, key: SubmitAttemptKey) -> (expired: Expired<R>)
        requires
            old(self).wf(),
            old(self)@.awaits(key),
            key.attempt >= old(self)@.limits.retry_count,
        ensures
            final(self).wf(),
            final(self)@ == old(self)@.expired(key.sequence_id),
            leads(old(self)@, SessionStep::Expire { key }, final(self)@),
            expired.report == (Event::SubmitTimeout { sequence_id: key.sequence_id }),
            expired.resources == old(self)@.submits[key.sequence_id].resources,
            expired.retired == old(self)@.sequences.can_retire(key.sequence_id),
    {
        let ghost before = self@;
        let entry: PendingSubmit<R> = self.pending_submits.remove(&key.sequence_id).unwrap();
        assert(entry@ == before.submits[key.sequence_id]);
        let mut lease: SequenceLease = entry.sequence_lease;
        let retired: bool = lease.retire(&mut self.sequences);
        proof {
            registry_wf(self.sequences);
            assert(self@.submits =~= before.submits.remove(key.sequence_id));
            assert(self@ =~= before.expired(key.sequence_id));
        }
        Expired { report: timeout_report(key), resources: entry.resources, retired }
    }

    /// The SUBMITs that have waited for a response for too long at `now`, those that were written
    /// first in front, and no more than are looked at in one go.
    pub fn expired_submits(&self, now: u128) -> (keys: Vec<SubmitAttemptKey>)
        requires
            self.wf(),
        ensures
            self@.are_first_overdue(keys@, now),
    {
        let mut found: Vec<(u128, SubmitAttemptKey)> = Vec::new();
        for (id, entry) in it: self.pending_submits.iter()
            invariant
                it.seq().no_duplicates(),
                forall|k: int|
                    0 <= k < it.seq().len() ==> self.pending_submits@.contains_key(
                        *(#[trigger] it.seq()[k]).0,
                    ) && self.pending_submits@[*it.seq()[k].0] == *it.seq()[k].1,
                forall|id: u32| #[trigger]
                    self.pending_submits@.contains_key(id) ==> it.seq().contains(
                        (&id, &self.pending_submits@[id]),
                    ),
                in_order(found@),
                forall|i: int|
                    0 <= i < found@.len() ==> self@.is_overdue_entry(#[trigger] found@[i], now),
                forall|i: int|
                    0 <= i < found@.len() ==> seen_id(
                        it.seq().take(it.index() as int),
                        (#[trigger] found@[i]).1.sequence_id,
                    ),
                forall|id: u32| #[trigger]
                    self@.overdue(id, now) && seen_id(it.seq().take(it.index() as int), id)
                        ==> has_id(found@, id),
                it.index() == it.seq().len() ==> forall|id: u32| #[trigger]
                    self@.overdue(id, now) ==> has_id(found@, id),
        {
            let ghost before = found@;
            let ghost seen = it.seq().take(it.index() as int);
            let ghost next = it.seq().take(it.index() + 1);
            proof {
                assert(next =~= seen.push((id, entry)));
                assert(self@.submits[*id] == entry@);
                assert(!seen_id(seen, *id)) by {
                    if seen_id(seen, *id) {
                        let k = choose|k: int| 0 <= k < seen.len() && *(#[trigger] seen[k]).0 == *id;
                        assert(seen[k] == it.seq()[k]);
                        assert(it.seq()[k] == it.seq()[it.index() as int]);
                    }
                }
                assert forall|other: u32| seen_id(next, other) == (seen_id(seen, other) || other
                    == *id) by {
                    if seen_id(seen, other) {
                        let k = choose|k: int|
                            0 <= k < seen.len() && *(#[trigger] seen[k]).0 == other;
                        assert(*next[k].0 == other);
                    }
                    if seen_id(next, other) && other != *id {
                        let k = choose|k: int|
                            0 <= k < next.len() && *(#[trigger] next[k]).0 == other;
                        assert(*seen[k].0 == other);
                    }
                    assert(*next[seen.len() as int].0 == *id);
                }
            }
            if let SubmitAttemptState::AwaitingResponse { attempt, written_at } = entry.state {
                if remaining_time(self.limits.response_timeout, written_at, now).is_none() {
                    let key: SubmitAttemptKey = SubmitAttemptKey {
                        sequence_id: *id,
                        submission_id: entry.submission_id,
                        attempt,
                    };
                    insert_in_order(&mut found, written_at, key);
                    assert(self@.is_overdue_entry((written_at, key), now));
                }
            }
            proof {
                assert forall|id: u32| #[trigger]
                    self@.overdue(id, now) && next.len() == it.seq().len() implies has_id(
                    found@,
                    id,
                ) by {
                    assert(self.pending_submits@.contains_key(id));
                    assert(next =~= it.seq());
                    let k = next.index_of((&id, &self.pending_submits@[id]));
                    assert(*next[k].0 == id);
                }
            }
        }
        let count: usize = if found.len() < self.limits.submit_retry_batch_size {
            found.len()
        } else {
            self.limits.submit_retry_batch_size
        };
        let mut keys: Vec<SubmitAttemptKey> = Vec::new();
        let mut i: usize = 0;
        while i < count
            invariant
                i <= count <= found@.len(),
                keys@.len() == i,
                forall|j: int| 0 <= j < i ==> #[trigger] keys@[j] == found@[j].1,
            decreases count - i,
        {
            keys.push(found[i].1);
            i = i + 1;
        }
        proof {
            assert forall|id: u32| #[trigger] self@.overdue(id, now) implies {
                ||| exists|i: int| 0 <= i < keys@.len() && (#[trigger] keys@[i]).sequence_id == id
                ||| keys@.len() == self@.limits.submit_retry_batch_size && forall|i: int|
                    0 <= i < keys@.len() ==> self@.written_before(
                        (#[trigger] keys@[i]).sequence_id,
                        id,
                    )
            } by {
                let k = choose|k: int|
                    0 <= k < found@.len() && (#[trigger] found@[k]).1.sequence_id == id;
                if k < count {
                    assert(keys@[k].sequence_id == id);
                } else {
                    assert forall|i: int| 0 <= i < keys@.len() implies self@.written_before(
                        (#[trigger] keys@[i]).sequence_id,
                        id,
                    ) by {
                        assert(stands_before(found@[i], found@[k]));
                        assert(self@.is_overdue_entry(found@[i], now));
                        assert(self@.is_overdue_entry(found@[k], now));
                    }
                }
            }
            assert forall|i: int, j: int| 0 <= i < j < keys@.len() implies self@.written_before(
                (#[trigger] keys@[i]).sequence_id,
                (#[trigger] keys@[j]).sequence_id,
            ) by {
                assert(stands_before(found@[i], found@[j]));
                assert(self@.is_overdue_entry(found@[i], now));
                assert(self@.is_overdue_entry(found@[j], now));
            }
            assert forall|i: int| 0 <= i < keys@.len() implies self@.overdue(
                (#[trigger] keys@[i]).sequence_id,
                now,
            ) && keys@[i] == self@.present_attempt(keys@[i].sequence_id) by {
                assert(self@.is_overdue_entry(found@[i], now));
            }
        }
        keys
    }

    /// Whether something that was sent `attempt` times may be sent once more.
    pub fn has_attempts_left(&self, attempt: u32) -> (left: bool)
        ensures
            left == (attempt < self@.limits.retry_count),
    {
        attempt < self.limits.retry_count
    }

    /// Sends a SUBMIT once more, if it still waits for a response and the connection is open:
    /// what is to be written.
    pub fn retry_submit(&mut self, key: SubmitAttemptKey) -> (outbound: Option<Outbound>)
        requires
            old(self).wf(),
            key.attempt < old(self)@.limits.retry_count,
        ensures
            final(self).wf(),
            leads(
                old(self)@,
                if outbound is Some {
                    SessionStep::Resend { key }
                } else {
                    SessionStep::Nothing
                },
                final(self)@,
            ),
            if old(self)@.phase == ConnectionPhase::Open && old(self)@.awaits(key) {
                let next = SubmitAttemptKey { attempt: (key.attempt + 1) as u32, ..key };
                &&& outbound matches Some(o) && o@ == (OutboundView {
                    submit_attempt: Some(next),
                    ..OutboundView::bare(old(self)@.submits[key.sequence_id].packet)
                })
                &&& final(self)@ == old(self)@.with_submit_state(
                    key.sequence_id,
                    SubmitAttemptState::Queued { attempt: next.attempt },
                )
            } else {
                outbound is None && final(self)@ == old(self)@
            },
    {
        if self.phase != ConnectionPhase::Open || !self.still_awaits(key) {
            return None;
        }
        let packet: Bytes = match self.pending_submits.get(&key.sequence_id) {
            Some(entry) => {
                assert(entry@ == self@.submits[key.sequence_id]);
                entry.packet.clone()
            },
            None => {
                return None;
            },
        };
        let attempt: u32 = key.attempt + 1;
        self.set_submit_state(key.sequence_id, SubmitAttemptState::Queued { attempt });
        Some(
            Outbound::submit(
                packet,
                SubmitAttemptKey {
                    sequence_id: key.sequence_id,
                    submission_id: key.submission_id,
                    attempt,
                },
            ),
        )
    }

    // ---- ACTIVE_TEST ----

    /// Whether an ACTIVE_TEST can be sent, and under which sequence id.
    pub fn begin_heartbeat(&mut self) -> (start: HeartbeatStart)
        requires
            old(self).wf(),
        ensures
            final(self).wf(),
            leads(
                old(self)@,
                match start {
                    HeartbeatStart::Busy => SessionStep::Nothing,
                    HeartbeatStart::Exhausted => SessionStep::ReserveNext { lease: None },
                    HeartbeatStart::Ready(lease, _) => SessionStep::BeginHeartbeat { lease: lease@ },
                },
                final(self)@,
            ),
            match start {
                HeartbeatStart::Busy => old(self)@.heartbeat is Some && final(self)@ == old(self)@,
                HeartbeatStart::Exhausted => {
                    &&& old(self)@.heartbeat is None
                    &&& old(self)@.sequences.reserves_next(final(self)@.sequences, None)
                    &&& final(self)@ == (SessionView {
                        sequences: final(self)@.sequences,
                        ..old(self)@
                    })
                },
                HeartbeatStart::Ready(lease, key) => {
                    &&& old(self)@.heartbeat is None
                    &&& old(self)@.sequences.reserves_next(final(self)@.sequences, Some(lease@))
                    &&& key == (HeartbeatAttemptKey {
                        sequence_id: lease@.sequence_id,
                        heartbeat_id: old(self)@.next_heartbeat_id,
                        attempt: 1,
                    })
                    &&& final(self)@ == (SessionView {
                        sequences: final(self)@.sequences,
                        next_heartbeat_id: next_number(old(self)@.next_heartbeat_id),
                        ..old(self)@
                    })
                },
            },
    {
        if self.heartbeat_pending.is_some() {
            return HeartbeatStart::Busy;
        }
        match self.reserve_next() {
            Some(lease) => {
                let heartbeat_id: u64 = self.next_heartbeat_id;
                self.next_heartbeat_id = heartbeat_id.wrapping_add(1);
                let key: HeartbeatAttemptKey = HeartbeatAttemptKey {
                    sequence_id: lease.id(),
                    heartbeat_id,
                    attempt: 1,
                };
                HeartbeatStart::Ready(lease, key)
            },
            None => HeartbeatStart::Exhausted,
        }
    }

    /// Whether a lease comes from the sequence ids of this connection.
    pub fn owns(&self, lease: &SequenceLease) -> (owned: bool)
        ensures
            owned == self@.sequences.gave(lease@),
    {
        self.sequences.owns(lease)
    }

    /// Takes in an ACTIVE_TEST: what is to be written. Where it is not, the lease is given up.
    pub fn admit_heartbeat(&mut self, lease: SequenceLease, key: HeartbeatAttemptKey) -> (admission:
        HeartbeatAdmission)
        requires
            old(self).wf(),
            old(self)@.sequences.gave(lease@),
            !lease@.manual,
            key.sequence_id == lease@.sequence_id,
        ensures
            final(self).wf(),
            leads(
                old(self)@,
                if admission is Queued {
                    SessionStep::AdmitHeartbeat { lease: lease@, heartbeat_id: key.heartbeat_id }
                } else {
                    SessionStep::GiveUp { lease: lease@ }
                },
                final(self)@,
            ),
            if old(self)@.phase == ConnectionPhase::Open && old(self)@.heartbeat is None {
                &&& admission matches HeartbeatAdmission::Queued(outbound) && outbound@ == (
                OutboundView {
                    open_only: true,
                    heartbeat_attempt: Some(HeartbeatAttemptKey { attempt: 1, ..key }),
                    ..OutboundView::bare(PduView::ActiveTest.frame(key.sequence_id))
                })
                &&& final(self)@ == (SessionView {
                    heartbeat: Some(
                        HeartbeatEntry {
                            heartbeat_id: key.heartbeat_id,
                            state: HeartbeatAttemptState::Queued { attempt: 1 },
                            lease: lease@,
                        },
                    ),
                    ..old(self)@
                })
            } else {
                &&& admission == if old(self)@.phase == ConnectionPhase::Open {
                    HeartbeatAdmission::Busy
                } else {
                    HeartbeatAdmission::Closed
                }
                &&& final(self)@ == (SessionView {
                    sequences: old(self)@.sequences.without(lease@),
                    ..old(self)@
                })
            },
    {
        if self.phase != ConnectionPhase::Open {
            self.give_up(lease);
            return HeartbeatAdmission::Closed;
        }
        if self.heartbeat_pending.is_some() {
            self.give_up(lease);
            return HeartbeatAdmission::Busy;
        }
        self.heartbeat_pending = Some(
            PendingHeartbeat {
                heartbeat_id: key.heartbeat_id,
                state: HeartbeatAttemptState::Queued { attempt: 1 },
                sequence_lease: lease,
            },
        );
        HeartbeatAdmission::Queued(heartbeat_outbound(key, 1))
    }

    /// Takes in an ACTIVE_TEST_RESP.
    pub fn answer_heartbeat(&mut self, sequence_id: u32)
        requires
            old(self).wf(),
        ensures
            final(self).wf(),
            leads(
                old(self)@,
                if old(self)@.heartbeat matches Some(h) && h.lease.sequence_id == sequence_id {
                    SessionStep::DropHeartbeat
                } else {
                    SessionStep::Nothing
                },
                final(self)@,
            ),
            final(self)@ == if old(self)@.heartbeat matches Some(h) && h.lease.sequence_id
                == sequence_id {
                old(self)@.without_heartbeat()
            } else {
                old(self)@
            },
    {
        let matched: bool = match &self.heartbeat_pending {
            Some(entry) => entry.sequence_lease.id() == sequence_id,
            None => false,
        };
        if matched {
            self.remove_heartbeat();
        }
    }

    /// The ACTIVE_TEST that has waited for a response for too long at `now`, if it has.
    pub fn expired_heartbeat(&self, now: u128) -> (key: Option<HeartbeatAttemptKey>)
        ensures
            key == self@.overdue_heartbeat(now),
    {
        match &self.heartbeat_pending {
            Some(entry) => match entry.state {
                HeartbeatAttemptState::AwaitingResponse { attempt, written_at } => {
                    if remaining_time(self.limits.response_timeout, written_at, now).is_none() {
                        Some(
                            HeartbeatAttemptKey {
                                sequence_id: entry.sequence_lease.id(),
                                heartbeat_id: entry.heartbeat_id,
                                attempt,
                            },
                        )
                    } else {
                        None
                    }
                },
                _ => None,
            },
            None => None,
        }
    }

    /// Whether the ACTIVE_TEST waits for a response and a key is for its present attempt.
    fn still_awaits_heartbeat(&self, key: HeartbeatAttemptKey) -> (awaits: bool)
        ensures
            awaits == self@.awaits_heartbeat(key),
    {
        match &self.heartbeat_pending {
            Some(entry) => entry.sequence_lease.id() == key.sequence_id && entry.heartbeat_id
                == key.heartbeat_id && match entry.state {
                HeartbeatAttemptState::AwaitingResponse { attempt, .. } => attempt == key.attempt,
                _ => false,
            },
            None => false,
        }
    }

    /// Gives up the ACTIVE_TEST, if it still waits for a response. Whether it did.
    pub fn exhaust_heartbeat(&mut self, key: HeartbeatAttemptKey) -> (exhausted: bool)
        requires
            old(self).wf(),
        ensures
            final(self).wf(),
            leads(
                old(self)@,
                if exhausted {
                    SessionStep::DropHeartbeat
                } else {
                    SessionStep::Nothing
                },
                final(self)@,
            ),
            exhausted == old(self)@.awaits_heartbeat(key),
            final(self)@ == if exhausted {
                old(self)@.without_heartbeat()
            } else {
                old(self)@
            },
    {
        let exhausted: bool = self.still_awaits_heartbeat(key);
        if exhausted {
            self.remove_heartbeat();
        }
        exhausted
    }

    /// Sends the ACTIVE_TEST once more, if it still waits for a response and the connection is
    /// open: what is to be written.
    pub fn retry_heartbeat(&mut self, key: HeartbeatAttemptKey) -> (outbound: Option<Outbound>)
        requires
            old(self).wf(),
            key.attempt < old(self)@.limits.retry_count,
        ensures
            final(self).wf(),
            leads(
                old(self)@,
                if outbound is Some {
                    SessionStep::ResendHeartbeat { key }
                } else {
                    SessionStep::Nothing
                },
                final(self)@,
            ),
            if old(self)@.phase == ConnectionPhase::Open && old(self)@.awaits_heartbeat(key) {
                let next = HeartbeatAttemptKey { attempt: (key.attempt + 1) as u32, ..key };
                &&& outbound matches Some(o) && o@ == (OutboundView {
                    open_only: true,
                    heartbeat_attempt: Some(next),
                    ..OutboundView::bare(PduView::ActiveTest.frame(key.sequence_id))
                })
                &&& final(self)@ == old(self)@.with_heartbeat_state(
                    HeartbeatAttemptState::Queued { attempt: next.attempt },
                )
            } else {
                outbound is None && final(self)@ == old(self)@
            },
    {
        if self.phase != ConnectionPhase::Open || !self.still_awaits_heartbeat(key) {
            return None;
        }
        let attempt: u32 = key.attempt + 1;
        self.set_heartbeat_state(HeartbeatAttemptState::Queued { attempt });
        Some(heartbeat_outbound(key, attempt))
    }

    // ---- TERMINATE ----

    /// Notes a TERMINATE of the peer: the connection closes, and no more SUBMITs are sent.
    pub fn note_peer_terminate(&mut self)
        requires
            old(self).wf(),
        ensures
            final(self).wf(),
            final(self)@ == peer_terminated(old(self)@),
            leads(old(self)@, SessionStep::PeerTerminate, final(self)@),
    {
        self.peer_terminate_seen = true;
        self.begin_closing(false);
        self.spool.begin_drain();
    }

    /// Whether the peer sent a TERMINATE.
    pub fn is_peer_terminate_seen(&self) -> (seen: bool)
        ensures
            seen == self@.peer_terminate_seen,
    {
        self.peer_terminate_seen
    }

    /// Notes that the TERMINATE of the peer was answered.
    pub fn note_peer_answered(&mut self)
        requires
            old(self).wf(),
        ensures
            final(self).wf(),
            leads(old(self)@, SessionStep::PeerAnswered, final(self)@),
            final(self)@ == (SessionView { peer_terminate_answered: true, ..old(self)@ }),
    {
        self.peer_terminate_response_written = true;
    }

    /// Whether the TERMINATE of the peer was answered.
    pub fn is_peer_answered(&self) -> (answered: bool)
        ensures
            answered == self@.peer_terminate_answered,
    {
        self.peer_terminate_response_written
    }

    /// Sends no more SUBMITs of those that were accepted.
    pub fn stop_draining(&mut self)
        requires
            old(self).wf(),
        ensures
            final(self).wf(),
            leads(old(self)@, SessionStep::StopDraining, final(self)@),
            final(self)@ == (SessionView { drain_submits: false, ..old(self)@ }),
    {
        self.drain_submits_on_close = false;
    }

    /// Whether SUBMITs are sent.
    pub fn can_send_submits(&self) -> (sent: bool)
        ensures
            sent == self@.sends_submits(),
    {
        self.phase == ConnectionPhase::Open || (self.phase == ConnectionPhase::Closing
            && self.drain_submits_on_close)
    }

    /// Whether this side has begun to take leave of the peer.
    pub fn is_terminate_begun(&self) -> (begun: bool)
        ensures
            begun == self@.terminate_begun,
    {
        self.terminate_begun
    }

    /// Begins to take leave of the peer, which is done once: the TERMINATE that is to be written; none if there is no
    /// sequence id left for it.
    pub fn begin_terminate(&mut self) -> (outbound: Option<Outbound>)
        requires
            old(self).wf(),
            !old(self)@.terminate_begun,
        ensures
            final(self).wf(),
            match outbound {
                Some(outbound) => {
                    &&& final(self)@.terminate matches Some(t) && leads(
                        old(self)@,
                        SessionStep::BeginTerminate { lease: t.lease },
                        final(self)@,
                    )
                    &&& final(self)@.terminate matches Some(t) && !t.written && old(
                        self,
                    )@.sequences.reserves_next(final(self)@.sequences, Some(t.lease)) && outbound@
                        == (OutboundView {
                        local_terminate: Some(t.lease.sequence_id),
                        cancel_after_peer_terminate: true,
                        ..OutboundView::bare(PduView::Terminate.frame(t.lease.sequence_id))
                    })
                    &&& final(self)@ == (SessionView {
                        sequences: final(self)@.sequences,
                        terminate: final(self)@.terminate,
                        terminate_begun: true,
                        ..old(self)@
                    })
                },
                None => {
                    &&& leads(
                        old(self)@,
                        SessionStep::ReserveNext { lease: None },
                        final(self)@,
                    )
                    &&& old(self)@.sequences.reserves_next(final(self)@.sequences, None)
                    &&& final(self)@ == (SessionView {
                        sequences: final(self)@.sequences,
                        ..old(self)@
                    })
                },
            },
    {
        let lease: SequenceLease = match self.reserve_next() {
            Some(lease) => lease,
            None => {
                return None;
            },
        };
        let sequence_id: u32 = lease.id();
        self.terminate_begun = true;
        self.pending_terminate = Some(
            PendingTerminate { written: false, sequence_lease: lease },
        );
        Some(Outbound::local_terminate(Pdu::Terminate.encode(sequence_id), sequence_id))
    }

    /// Notes that the TERMINATE of this side was written.
    pub fn note_terminate_written(&mut self, sequence_id: u32)
        requires
            old(self).wf(),
        ensures
            final(self).wf(),
            leads(old(self)@, SessionStep::TerminateWritten { id: sequence_id }, final(self)@),
            final(self)@ == if old(self)@.terminates_with(sequence_id) {
                SessionView {
                    terminate: Some(
                        TerminateEntry { written: true, ..old(self)@.terminate->0 },
                    ),
                    ..old(self)@
                }
            } else {
                old(self)@
            },
    {
        if let Some(entry) = self.pending_terminate.take() {
            let written: bool = entry.written || entry.sequence_lease.id() == sequence_id;
            self.pending_terminate = Some(
                PendingTerminate { written, sequence_lease: entry.sequence_lease },
            );
        }
    }

    /// Whether the TERMINATE of this side was written and waits for a response.
    pub fn is_terminate_written(&self) -> (written: bool)
        ensures
            written == (self@.terminate matches Some(t) && t.written),
    {
        match &self.pending_terminate {
            Some(entry) => entry.written,
            None => false,
        }
    }

    /// Takes in a TERMINATE_RESP, or gives up the TERMINATE that it would be to. Whether that
    /// waited.
    pub fn take_terminate(&mut self, sequence_id: u32) -> (taken: bool)
        requires
            old(self).wf(),
        ensures
            final(self).wf(),
            leads(
                old(self)@,
                if taken {
                    SessionStep::DropTerminate
                } else {
                    SessionStep::Nothing
                },
                final(self)@,
            ),
            taken == old(self)@.terminates_with(sequence_id),
            final(self)@ == if taken {
                old(self)@.without_terminate()
            } else {
                old(self)@
            },
    {
        let taken: bool = match &self.pending_terminate {
            Some(entry) => entry.sequence_lease.id() == sequence_id,
            None => false,
        };
        if taken {
            self.abandon_terminate();
        }
        taken
    }

    /// What is told to who wants to send, when the queue of what is written is gone.
    pub fn queue_gone(&self) -> (error: Error)
        ensures
            error == if self@.phase == ConnectionPhase::Open {
                Error::ChannelClosed
            } else {
                Error::Closed
            },
    {
        if self.phase == ConnectionPhase::Open {
            Error::ChannelClosed
        } else {
            Error::Closed
        }
    }

    /// Why the connection is to be ended when the queue of what is written is gone, if it is: one
    /// that closes ends anyway.
    pub fn queue_loss(&self) -> (reason: Option<Error>)
        ensures
            reason == if self@.phase == ConnectionPhase::Open {
                Some(Error::ChannelClosed)
            } else {
                None
            },
    {
        if self.phase == ConnectionPhase::Open {
            Some(Error::ChannelClosed)
        } else {
            None
        }
    }

    /// Why a connection ends that was asked to close: the peer, or nothing.
    pub fn close_reason(&self) -> (reason: Option<Error>)
        ensures
            reason == if self@.peer_terminate_seen {
                Some(Error::Terminated)
            } else {
                None
            },
    {
        if self.peer_terminate_seen {
            Some(Error::Terminated)
        } else {
            None
        }
    }
}

/// Whether an entry stands before another: it was written before, or at once and has the lower
/// id.
spec fn stands_before(a: (u128, SubmitAttemptKey), b: (u128, SubmitAttemptKey)) -> bool {
    a.0 < b.0 || (a.0 == b.0 && a.1.sequence_id < b.1.sequence_id)
}

/// Whether entries stand in order.
spec fn in_order(found: Seq<(u128, SubmitAttemptKey)>) -> bool {
    forall|i: int, j: int|
        0 <= i < j < found.len() ==> stands_before(#[trigger] found[i], #[trigger] found[j])
}

/// Whether one of some entries has an id.
spec fn has_id(found: Seq<(u128, SubmitAttemptKey)>, id: u32) -> bool {
    exists|i: int| 0 <= i < found.len() && (#[trigger] found[i]).1.sequence_id == id
}

/// Whether an id is among the first entries of a walk.
spec fn seen_id<'a, R>(seen: Seq<(&'a u32, &'a PendingSubmit<R>)>, id: u32) -> bool {
    exists|k: int| 0 <= k < seen.len() && *(#[trigger] seen[k]).0 == id
}

impl<R> SessionView<R> {
    /// Whether an entry is that of a SUBMIT that has waited for too long at `now`.
    spec fn is_overdue_entry(self, entry: (u128, SubmitAttemptKey), now: u128) -> bool {
        &&& self.overdue(entry.1.sequence_id, now)
        &&& entry.1 == self.present_attempt(entry.1.sequence_id)
        &&& entry.0 == self.written_at(entry.1.sequence_id)
    }
}

/// Puts an entry in its place.
fn insert_in_order(found: &mut Vec<(u128, SubmitAttemptKey)>, written_at: u128, key: SubmitAttemptKey)
    requires
        in_order(old(found)@),
        !has_id(old(found)@, key.sequence_id),
    ensures
        in_order(final(found)@),
        forall|id: u32|
            has_id(final(found)@, id) == (has_id(old(found)@, id) || id == key.sequence_id),
        forall|i: int|
            0 <= i < final(found)@.len() ==> (#[trigger] final(found)@[i]) == (written_at, key)
                || old(found)@.contains(final(found)@[i]),
{
    let ghost before = found@;
    let mut at: usize = 0;
    while at < found.len() && (found[at].0 < written_at || (found[at].0 == written_at
        && found[at].1.sequence_id < key.sequence_id))
        invariant
            at <= found@.len(),
            found@ == before,
            forall|i: int|
                0 <= i < at ==> stands_before(#[trigger] before[i], (written_at, key)),
        decreases found@.len() - at,
    {
        at = at + 1;
    }
    proof {
        assert forall|i: int| at <= i < before.len() implies stands_before(
            (written_at, key),
            #[trigger] before[i],
        ) by {
            assert(before[at as int].1.sequence_id != key.sequence_id);
            assert(i > at ==> stands_before(before[at as int], before[i]));
        }
    }
    found.insert(at, (written_at, key));
    proof {
        assert forall|id: u32| has_id(found@, id) == (has_id(before, id) || id
            == key.sequence_id) by {
            if has_id(before, id) {
                let k = choose|k: int|
                    0 <= k < before.len() && (#[trigger] before[k]).1.sequence_id == id;
                assert(found@[if k < at { k } else { k + 1 }] == before[k]);
            }
            if has_id(found@, id) && id != key.sequence_id {
                let k = choose|k: int|
                    0 <= k < found@.len() && (#[trigger] found@[k]).1.sequence_id == id;
                assert(before[if k < at { k } else { k - 1 }] == found@[k]);
            }
            assert(found@[at as int].1.sequence_id == key.sequence_id);
        }
        assert forall|i: int| 0 <= i < found@.len() implies (#[trigger] found@[i]) == (
        written_at, key) || before.contains(found@[i]) by {
            if i < at {
                assert(before[i] == found@[i]);
            } else if i > at {
                assert(before[i - 1] == found@[i]);
            }
        }
        assert forall|i: int, j: int| 0 <= i < j < found@.len() implies stands_before(
            #[trigger] found@[i],
            #[trigger] found@[j],
        ) by {
            let bi = if i < at { i } else { i - 1 };
            let bj = if j < at { j } else { j - 1 };
            assert(i != at ==> found@[i] == before[bi]);
            assert(j != at ==> found@[j] == before[bj]);
        }
    }
}

/// What is reported of a SUBMIT that is given up.
pub fn timeout_report(key: SubmitAttemptKey) -> (event: Event)
    ensures
        event == (Event::SubmitTimeout { sequence_id: key.sequence_id }),
{
    Event::SubmitTimeout { sequence_id: key.sequence_id }
}

/// An attempt to send an ACTIVE_TEST.
fn heartbeat_outbound(key: HeartbeatAttemptKey, attempt: u32) -> (outbound: Outbound)
    ensures
        outbound@ == (OutboundView {
            open_only: true,
            heartbeat_attempt: Some(HeartbeatAttemptKey { attempt, ..key }),
            ..OutboundView::bare(PduView::ActiveTest.frame(key.sequence_id))
        }),
{
    Outbound::heartbeat(
        Pdu::ActiveTest.encode(key.sequence_id),
        HeartbeatAttemptKey {
            sequence_id: key.sequence_id,
            heartbeat_id: key.heartbeat_id,
            attempt,
        },
    )
}

// ---- laws ----

/// What a well-formed session knows is well-formed.
pub proof fn session_wf<R>(session: Session<R>)
    requires
        session.wf(),
    ensures
        session@.wf(),
{
}

/// A connection never goes back: from open over closing to closed.
pub proof fn phases_only_advance<R>(
    state: SessionView<R>,
    drain_submits: bool,
    reason: Option<Error>,
)
    ensures
        state.closing(drain_submits).phase.rank() >= state.phase.rank(),
        state.finished(reason).phase == ConnectionPhase::Closed,
        state.finished(reason).closing(drain_submits) == state.finished(reason),
{
}

/// A connection ends once, and for one reason: what it is told afterwards changes nothing.
pub proof fn ends_once<R>(state: SessionView<R>, reason: Option<Error>, later: Option<Error>)
    ensures
        state.finished(reason).finished(later) == state.finished(reason),
{
}

/// A connection that is cleaned up has nothing left that waits, and its end is reported once.
pub proof fn cleanup_is_final<R>(state: SessionView<R>)
    requires
        state.wf(),
    ensures
        state.cleaned_up().submits == Map::<u32, SubmitEntry<R>>::empty(),
        state.cleaned_up().heartbeat is None,
        state.cleaned_up().terminate is None,
        state.cleaned_up().spool.admission == EventAdmissionState::Terminal,
        state.cleaned_up().cleaned_up() == state.cleaned_up(),
{
    let after = state.cleaned_up();
    assert(after.released_ids() =~= Set::empty());
    assert(after.sequences.reserved.difference(after.released_ids()) =~= after.sequences.reserved);
    assert(after.cleaned_up() =~= after);
}

/// A sequence id under which something waits is handed out to nothing else.
pub proof fn waiting_ids_are_not_free<R>(state: SessionView<R>, id: u32)
    requires
        state.wf(),
        state.submits.contains_key(id) || state.terminates_with(id) || (state.heartbeat matches Some(
            h,
        ) && h.lease.sequence_id == id),
    ensures
        !state.sequences.free(id),
        state.sequences.spent(id),
{
}

/// A SUBMIT that is taken in waits under its own sequence id, which is spent; no other that waits
/// is touched, and the window is kept.
pub proof fn admitting_keeps_the_rest<R>(
    state: SessionView<R>,
    lease: LeaseView,
    submission_id: u64,
    packet: Seq<u8>,
    resources: R,
    other: u32,
)
    requires
        state.wf(),
        state.has_room_for(lease),
        lease.manual ==> state.sequences.can_retire(lease.sequence_id),
        other != lease.sequence_id,
    ensures
        ({
            let after = state.admitted(lease, submission_id, packet, resources);
            &&& after.submits.contains_key(lease.sequence_id)
            &&& after.sequences.spent(lease.sequence_id)
            &&& after.submits.contains_key(other) == state.submits.contains_key(other)
            &&& state.submits.contains_key(other) ==> after.submits[other] == state.submits[other]
            &&& after.submits.len() <= state.limits.window_size
        }),
{
    let after = state.admitted(lease, submission_id, packet, resources);
    assert(after.submits.dom() =~= state.submits.dom().insert(lease.sequence_id));
}

/// The window is kept, and nothing is sent more often than it may be.
pub proof fn limits_are_kept<R>(state: SessionView<R>, id: u32)
    requires
        state.wf(),
        state.limits.retry_count > 0,
    ensures
        state.submits.len() <= state.limits.window_size,
        state.submits.contains_key(id) ==> state.submits[id].state.number()
            <= state.limits.retry_count,
        state.heartbeat matches Some(h) ==> h.state.number() <= state.limits.retry_count,
{
}

/// A connection that is not closed yet, whose peer sent no TERMINATE and whose queue of reports
/// did not overflow, ends for the reason that it is told to end for. Where the peer sent one, it
/// ends for that; where only the queue overflowed, it ends for that. Ending it changes nothing
/// else but that it sends no more SUBMITs.
pub proof fn end_keeps_its_reason<R>(state: SessionView<R>, reason: Option<Error>)
    requires
        state.phase != ConnectionPhase::Closed,
    ensures
        ({
            let after = state.finished(reason);
            &&& !state.peer_terminate_seen && !state.spool.overflowed ==> after.terminal_reason
                == reason
            &&& state.peer_terminate_seen ==> after.terminal_reason == Some(Error::Terminated)
            &&& !state.peer_terminate_seen && state.spool.overflowed ==> after.terminal_reason
                == Some(Error::ChannelClosed)
            &&& after.phase == ConnectionPhase::Closed
            &&& !after.sends_submits()
            &&& after.submits == state.submits
            &&& after.sequences == state.sequences
            &&& after.heartbeat == state.heartbeat
            &&& after.terminate == state.terminate
            &&& after.spool == state.spool
            &&& after.peer_terminate_seen == state.peer_terminate_seen
            &&& after.peer_terminate_answered == state.peer_terminate_answered
            &&& after.next_submission_id == state.next_submission_id
            &&& after.next_heartbeat_id == state.next_heartbeat_id
            &&& after.close_started == state.close_started
            &&& after.terminate_begun == state.terminate_begun
            &&& after.limits == state.limits
        }),
{
}

/// Two reasons are told apart by the end of a connection: unless the peer or an overload decides,
/// it ends for the same reason only where it was told the same.
pub proof fn reasons_are_told_apart<R>(
    state: SessionView<R>,
    one: Option<Error>,
    other: Option<Error>,
)
    requires
        state.phase != ConnectionPhase::Closed,
        !state.peer_terminate_seen,
        !state.spool.overflowed,
    ensures
        state.finished(one).terminal_reason == state.finished(other).terminal_reason ==> one
            == other,
{
}

/// A connection that breaks down from within ends as timed out where a response could not be
/// written in time, as closed where the peer answers no probe, and as broken otherwise.
pub proof fn breakdowns_have_their_reasons(breakdown: Breakdown)
    ensures
        breakdown is ResponseTooLate <==> breakdown.reason() is Timeout,
        breakdown is HeartbeatLost <==> breakdown.reason() is Closed,
        !(breakdown is ResponseTooLate) && !(breakdown is HeartbeatLost)
            <==> breakdown.reason() is ChannelClosed,
{
}

/// Only an open connection begins to close, and sends the SUBMITs that were accepted if it was
/// asked to. One that closes can be told to send no more of them, and not to send them again. A
/// closed one stays as it is.
pub proof fn closing_begins_once<R>(state: SessionView<R>, drain_submits: bool)
    ensures
        ({
            let after = state.closing(drain_submits);
            &&& state.phase == ConnectionPhase::Open ==> after.phase == ConnectionPhase::Closing
                && after.drain_submits == drain_submits && after.sends_submits() == drain_submits
            &&& state.phase == ConnectionPhase::Closing ==> after.phase == ConnectionPhase::Closing
                && after.drain_submits == (state.drain_submits && drain_submits)
            &&& state.phase == ConnectionPhase::Closed ==> after == state
            &&& after.submits == state.submits
            &&& after.sequences == state.sequences
            &&& after.heartbeat == state.heartbeat
            &&& after.terminate == state.terminate
            &&& after.spool == state.spool
            &&& after.terminal_reason == state.terminal_reason
            &&& after.peer_terminate_seen == state.peer_terminate_seen
        }),
        state.phase == ConnectionPhase::Open ==> state.sends_submits(),
        state.phase == ConnectionPhase::Closed ==> !state.sends_submits(),
{
}

/// The first who asks to close sees to it: with a farewell to the peer where the connection is
/// open, which then closes and still sends the SUBMITs that were accepted, and without one
/// where it is not. Who asks later has nothing to do. As it begins to close, the queue of reports
/// drains, and what is in it stays.
pub proof fn closing_is_seen_to_once<R>(state: SessionView<R>)
    ensures
        state.close_start() is Graceful <==> !state.close_started && state.phase
            == ConnectionPhase::Open,
        state.close_start() is Reap <==> !state.close_started && state.phase
            != ConnectionPhase::Open,
        state.close_start() is Nothing <==> state.close_started,
        state.close_asked().close_started,
        state.close_asked().close_start() is Nothing,
        state.close_asked().close_asked() == state.close_asked(),
        state.close_start() is Graceful ==> state.close_asked().phase == ConnectionPhase::Closing
            && state.close_asked().drain_submits && state.close_asked().sends_submits(),
        state.close_start() is Graceful && state.spool.admission is Open
            ==> state.close_asked().spool.admission is Draining,
        !(state.spool.admission is Open) ==> state.close_asked().spool == state.spool,
        state.close_asked().spool.depth == state.spool.depth,
        state.close_asked().spool.tickets == state.spool.tickets,
        !(state.close_start() is Graceful) ==> state.close_asked().phase == state.phase
            && state.close_asked().spool == state.spool,
        state.close_asked().submits == state.submits,
        state.close_asked().terminal_reason == state.terminal_reason,
{
}

/// A SUBMIT_RESP settles the SUBMIT of its sequence id and touches nothing else: one that is not
/// being written is gone; one that is being written is marked, its attempt kept; and one that was
/// answered before, or does not wait, changes nothing.
pub proof fn response_settles_its_submit<R>(state: SessionView<R>, id: u32, other: u32)
    ensures
        ({
            let after = state.answered(id);
            &&& !state.submits.contains_key(id) ==> after == state
            &&& state.submits.contains_key(id) ==> match state.submits[id].state {
                SubmitAttemptState::Queued { .. } => after.submits == state.submits.remove(id),
                SubmitAttemptState::AwaitingResponse { .. } => after.submits
                    == state.submits.remove(id),
                SubmitAttemptState::Writing { attempt } => {
                    &&& after.submits.contains_key(id)
                    &&& after.submits[id].state == (SubmitAttemptState::RespondedWhileWriting {
                        attempt,
                    })
                    &&& after.submits[id].submission_id == state.submits[id].submission_id
                    &&& after.submits[id].packet == state.submits[id].packet
                    &&& after.submits[id].lease == state.submits[id].lease
                    &&& after.submits[id].resources == state.submits[id].resources
                    &&& after.sequences == state.sequences
                },
                SubmitAttemptState::RespondedWhileWriting { .. } => after == state,
            }
            &&& other != id ==> after.submits.contains_key(other) == state.submits.contains_key(
                other,
            ) && after.submits[other] == state.submits[other]
            &&& after.phase == state.phase
            &&& after.spool == state.spool
            &&& after.heartbeat == state.heartbeat
            &&& after.terminate == state.terminate
            &&& after.terminal_reason == state.terminal_reason
        }),
{
}

/// Once an attempt was written, the SUBMIT waits from that moment on, or is gone where its
/// response has come; a key of another SUBMIT or another attempt changes nothing, and no other
/// SUBMIT is touched.
pub proof fn writing_starts_the_wait<R>(
    state: SessionView<R>,
    key: SubmitAttemptKey,
    written_at: u128,
    other: u32,
)
    ensures
        ({
            let id = key.sequence_id;
            let after = state.submit_written(key, written_at);
            let same = state.submits.contains_key(id) && state.submits[id].submission_id
                == key.submission_id && state.submits[id].state.number() == key.attempt;
            &&& !same ==> after == state
            &&& same && state.submits[id].state is Writing ==> {
                &&& after.submits.contains_key(id)
                &&& after.submits[id].state == (SubmitAttemptState::AwaitingResponse {
                    attempt: key.attempt,
                    written_at,
                })
                &&& after.submits[id].submission_id == state.submits[id].submission_id
                &&& after.submits[id].packet == state.submits[id].packet
                &&& after.submits[id].lease == state.submits[id].lease
                &&& after.submits[id].resources == state.submits[id].resources
                &&& after.sequences == state.sequences
            }
            &&& same && state.submits[id].state is RespondedWhileWriting
                ==> !after.submits.contains_key(id)
            &&& same && (state.submits[id].state is Queued
                || state.submits[id].state is AwaitingResponse) ==> after == state
            &&& other != id ==> after.submits.contains_key(other) == state.submits.contains_key(
                other,
            ) && after.submits[other] == state.submits[other]
            &&& after.phase == state.phase
            &&& after.spool == state.spool
            &&& after.heartbeat == state.heartbeat
        }),
{
}

/// A SUBMIT is taken in with what it was given: its number, its bytes and what it holds, to be
/// written for the first time. It is taken in only while fewer wait than the window lets.
pub proof fn admitted_as_given<R>(
    state: SessionView<R>,
    lease: LeaseView,
    submission_id: u64,
    packet: Seq<u8>,
    resources: R,
)
    ensures
        ({
            let after = state.admitted(lease, submission_id, packet, resources);
            let entry = after.submits[lease.sequence_id];
            &&& after.submits.contains_key(lease.sequence_id)
            &&& entry.submission_id == submission_id
            &&& entry.packet == packet
            &&& entry.resources == resources
            &&& entry.state == (SubmitAttemptState::Queued { attempt: 1 })
            &&& entry.lease.sequence_id == lease.sequence_id
            &&& lease.manual ==> !entry.lease.releases
            &&& !lease.manual ==> entry.lease == lease && after.sequences == state.sequences
            &&& after.phase == state.phase
            &&& after.spool == state.spool
            &&& after.heartbeat == state.heartbeat
            &&& after.terminate == state.terminate
        }),
        state.has_room_for(lease) ==> state.submits.len() < state.limits.window_size
            && !state.submits.contains_key(lease.sequence_id),
        state.sequences.gave(lease) && state.submits.len() < state.limits.window_size
            && !state.submits.contains_key(lease.sequence_id) ==> state.has_room_for(lease),
{
}

/// Giving up a SUBMIT removes it and takes its sequence id out of use, and touches nothing else.
pub proof fn giving_up_touches_one<R>(state: SessionView<R>, id: u32, other: u32)
    ensures
        !state.expired(id).submits.contains_key(id),
        other != id ==> state.expired(id).submits.contains_key(other)
            == state.submits.contains_key(other) && state.expired(id).submits[other]
            == state.submits[other],
        state.wf() && state.submits.contains_key(id) ==> state.expired(id).sequences.spent(id)
            && !state.expired(id).sequences.reserved.contains(id),
        other != id ==> state.expired(id).sequences.reserved.contains(other)
            == state.sequences.reserved.contains(other),
        state.expired(id).phase == state.phase,
        state.expired(id).spool == state.spool,
        state.expired(id).heartbeat == state.heartbeat,
        state.expired(id).terminate == state.terminate,
        state.expired(id).terminal_reason == state.terminal_reason,
{
}

/// An attempt may be written where SUBMITs are sent and its SUBMIT waits to be written for just
/// that time; neither an earlier attempt nor one that was written, or is being written, may.
pub proof fn only_the_queued_attempt_is_written<R>(state: SessionView<R>, key: SubmitAttemptKey)
    ensures
        state.may_claim_submit(key) <==> {
            &&& state.phase == ConnectionPhase::Open || (state.phase == ConnectionPhase::Closing
                && state.drain_submits)
            &&& state.submits.contains_key(key.sequence_id)
            &&& state.submits[key.sequence_id].submission_id == key.submission_id
            &&& state.submits[key.sequence_id].state is Queued
            &&& state.submits[key.sequence_id].state.number() == key.attempt
        },
{
}

/// An ACTIVE_TEST may be written while the connection is open and it waits to be written for
/// just that time. Once it was, it waits from that moment on; a key of another one, or of
/// another attempt, changes nothing.
pub proof fn only_the_queued_probe_is_written<R>(
    state: SessionView<R>,
    key: HeartbeatAttemptKey,
    written_at: u128,
)
    ensures
        ({
            let same = state.heartbeat matches Some(h) && h.lease.sequence_id == key.sequence_id
                && h.heartbeat_id == key.heartbeat_id && h.state.number() == key.attempt;
            let after = state.heartbeat_written(key, written_at);
            &&& state.may_claim_heartbeat(key) <==> state.phase == ConnectionPhase::Open && same
                && state.heartbeat->0.state is Queued
            &&& !same || !(state.heartbeat->0.state is Writing) ==> after == state
            &&& same && state.heartbeat->0.state is Writing ==> {
                &&& after.heartbeat matches Some(h) && h.heartbeat_id
                    == state.heartbeat->0.heartbeat_id && h.lease == state.heartbeat->0.lease
                    && h.state == (HeartbeatAttemptState::AwaitingResponse {
                    attempt: key.attempt,
                    written_at,
                })
                &&& after.submits == state.submits
                &&& after.sequences == state.sequences
                &&& after.phase == state.phase
            }
        }),
{
}

/// Of the SUBMITs that have waited for too long, those that were written first are looked at
/// first, at most as many as are looked at in one go: none is left out for one that was written
/// later, nor looked at before one that was written earlier, and none is left out where there is
/// room for it.
pub proof fn first_written_come_first<R>(
    state: SessionView<R>,
    keys: Seq<SubmitAttemptKey>,
    now: u128,
    a: u32,
    a_written: u128,
    b: int,
    b_written: u128,
)
    requires
        state.are_first_overdue(keys, now),
        state.overdue(a, now),
        state.submits[a].state matches SubmitAttemptState::AwaitingResponse { written_at, .. }
            && written_at == a_written,
        0 <= b < keys.len(),
        state.submits[keys[b].sequence_id].state matches SubmitAttemptState::AwaitingResponse {
            written_at,
            ..
        } && written_at == b_written,
    ensures
        keys.len() <= state.limits.submit_retry_batch_size,
        a_written < b_written ==> exists|i: int|
            0 <= i < b && (#[trigger] keys[i]).sequence_id == a,
        a_written == b_written && a < keys[b].sequence_id ==> exists|i: int|
            0 <= i < b && (#[trigger] keys[i]).sequence_id == a,
        keys.len() < state.limits.submit_retry_batch_size ==> exists|i: int|
            0 <= i < keys.len() && (#[trigger] keys[i]).sequence_id == a,
{
    let first = a_written < b_written || (a_written == b_written && a < keys[b].sequence_id);
    if first && exists|i: int| 0 <= i < keys.len() && (#[trigger] keys[i]).sequence_id == a {
        let i = choose|i: int| 0 <= i < keys.len() && (#[trigger] keys[i]).sequence_id == a;
        if b < i {
            assert(state.written_before(keys[b].sequence_id, keys[i].sequence_id));
        }
        assert(i < b);
    }
}

/// The number behind a number is one more, and 0 behind the last.
pub proof fn numbers_count_on(n: u64)
    ensures
        next_number(n) == (n + 1) % 0x1_0000_0000_0000_0000,
{
}

/// Something is sent as often as the limits say, and at least once.
pub proof fn everything_is_sent_once(limits: Limits)
    ensures
        limits.last_attempt() >= 1,
        limits.retry_count >= 1 ==> limits.last_attempt() == limits.retry_count,
        limits.retry_count == 0 ==> limits.last_attempt() == 1,
{
}

/// Cleaning up a connection leaves nothing that waits, lets go of the sequence ids that come
/// back and of no others, and keeps all that stays true of the connection.
pub proof fn cleanup_keeps_the_rest<R>(state: SessionView<R>, id: u32)
    ensures
        ({
            let after = state.cleaned_up();
            &&& after.phase == state.phase
            &&& after.limits == state.limits
            &&& after.spool.depth == state.spool.depth
            &&& after.spool.tickets == state.spool.tickets
            &&& after.spool.overflowed == state.spool.overflowed
            &&& after.peer_terminate_seen == state.peer_terminate_seen
            &&& after.close_started == state.close_started
            &&& after.sequences.start == state.sequences.start
            &&& after.sequences.used_through == state.sequences.used_through
            &&& after.sequences.retired == state.sequences.retired
            &&& state.spool.admission != EventAdmissionState::Terminal ==> after.terminal_reason
                is None
        }),
        state.cleaned_up().sequences.reserved.contains(id) <==> {
            &&& state.sequences.reserved.contains(id)
            &&& !(state.submits.contains_key(id) && state.submits[id].lease.releases)
            &&& !(state.heartbeat matches Some(h) && h.lease.sequence_id == id && h.lease.releases)
            &&& !(state.terminate matches Some(t) && t.lease.sequence_id == id && t.lease.releases)
        },
{
}

/// A key stands for one attempt to send one SUBMIT: it is awaited where that SUBMIT was written
/// for just that time and waits for its response.
pub proof fn keys_stand_for_one_attempt<R>(state: SessionView<R>, key: SubmitAttemptKey)
    ensures
        state.awaits(key) <==> {
            &&& state.submits.contains_key(key.sequence_id)
            &&& state.submits[key.sequence_id].submission_id == key.submission_id
            &&& state.submits[key.sequence_id].state is AwaitingResponse
            &&& state.submits[key.sequence_id].state.number() == key.attempt
        },
        state.awaits(key) ==> state.present_attempt(key.sequence_id) == key,
        state.present_attempt(key.sequence_id).sequence_id == key.sequence_id,
        state.present_attempt(key.sequence_id).submission_id
            == state.submits[key.sequence_id].submission_id,
        state.present_attempt(key.sequence_id).attempt
            == state.submits[key.sequence_id].state.number(),
{
}

/// A key stands for one attempt to send one ACTIVE_TEST.
pub proof fn probe_keys_stand_for_one_attempt<R>(state: SessionView<R>, key: HeartbeatAttemptKey)
    ensures
        state.awaits_heartbeat(key) <==> (state.heartbeat matches Some(h) && h.lease.sequence_id
            == key.sequence_id && h.heartbeat_id == key.heartbeat_id
            && h.state is AwaitingResponse && h.state.number() == key.attempt),
{
}

/// What waits no longer frees its own sequence id, if that is one that comes back, and touches
/// nothing else.
pub proof fn settling_frees_one_id<R>(state: SessionView<R>, id: u32, other: u32)
    requires
        state.wf(),
        state.submits.contains_key(id),
    ensures
        ({
            let after = state.without_submit(id);
            &&& after.submits == state.submits.remove(id)
            &&& state.submits[id].lease.releases ==> !after.sequences.reserved.contains(id)
            &&& other != id || !state.submits[id].lease.releases
                ==> after.sequences.reserved.contains(other) == state.sequences.reserved.contains(
                other,
            )
            &&& after.sequences.spent(other) == state.sequences.spent(other)
            &&& after.heartbeat == state.heartbeat && after.terminate == state.terminate
        }),
        state.heartbeat matches Some(h) ==> {
            let after = state.without_heartbeat();
            &&& after.heartbeat is None
            &&& h.lease.releases ==> !after.sequences.reserved.contains(h.lease.sequence_id)
            &&& other != h.lease.sequence_id ==> after.sequences.reserved.contains(other)
                == state.sequences.reserved.contains(other)
            &&& after.submits == state.submits && after.terminate == state.terminate
        },
        state.terminate matches Some(t) ==> {
            let after = state.without_terminate();
            &&& after.terminate is None
            &&& t.lease.releases ==> !after.sequences.reserved.contains(t.lease.sequence_id)
            &&& other != t.lease.sequence_id ==> after.sequences.reserved.contains(other)
                == state.sequences.reserved.contains(other)
            &&& after.submits == state.submits && after.heartbeat == state.heartbeat
        },
{
}

} // verus!
