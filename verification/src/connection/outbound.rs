//! What waits to be written, and the attempts to send that it belongs to.
use bytes::Bytes;
use vstd::prelude::*;

use crate::buffer::frozen_contents;
use crate::connection::events::Event;

verus! {

/// How far an attempt to send a SUBMIT has come.
#[derive(Debug, Clone, Copy, PartialEq, Eq, Structural)]
pub enum SubmitAttemptState {
    /// It waits to be written.
    Queued {
        /// Which attempt it is, from 1.
        attempt: u32,
    },
    /// It is being written.
    Writing {
        /// Which attempt it is, from 1.
        attempt: u32,
    },
    /// It was written and waits for a response.
    AwaitingResponse {
        /// Which attempt it is, from 1.
        attempt: u32,
        /// When it was written, in nanoseconds.
        written_at: u128,
    },
    /// The response to an earlier attempt came while it was being written.
    RespondedWhileWriting {
        /// Which attempt it is, from 1.
        attempt: u32,
    },
}

impl SubmitAttemptState {
    /// Which attempt it is, from 1.
    pub open spec fn number(self) -> u32 {
        match self {
            SubmitAttemptState::Queued { attempt } => attempt,
            SubmitAttemptState::Writing { attempt } => attempt,
            SubmitAttemptState::AwaitingResponse { attempt, .. } => attempt,
            SubmitAttemptState::RespondedWhileWriting { attempt } => attempt,
        }
    }
}

/// One attempt to send one SUBMIT.
#[derive(Debug, Clone, Copy, PartialEq, Eq, Structural)]
pub struct SubmitAttemptKey {
    /// The sequence id of the SUBMIT.
    pub sequence_id: u32,
    /// Tells apart SUBMITs that have the same sequence id one after the other.
    pub submission_id: u64,
    /// Which attempt it is, from 1.
    pub attempt: u32,
}

/// How far an attempt to send an ACTIVE_TEST has come.
#[derive(Debug, Clone, Copy, PartialEq, Eq, Structural)]
pub enum HeartbeatAttemptState {
    /// It waits to be written.
    Queued {
        /// Which attempt it is, from 1.
        attempt: u32,
    },
    /// It is being written.
    Writing {
        /// Which attempt it is, from 1.
        attempt: u32,
    },
    /// It was written and waits for a response.
    AwaitingResponse {
        /// Which attempt it is, from 1.
        attempt: u32,
        /// When it was written, in nanoseconds.
        written_at: u128,
    },
}

impl HeartbeatAttemptState {
    /// Which attempt it is, from 1.
    pub open spec fn number(self) -> u32 {
        match self {
            HeartbeatAttemptState::Queued { attempt } => attempt,
            HeartbeatAttemptState::Writing { attempt } => attempt,
            HeartbeatAttemptState::AwaitingResponse { attempt, .. } => attempt,
        }
    }
}

/// One attempt to send one ACTIVE_TEST.
#[derive(Debug, Clone, Copy, PartialEq, Eq, Structural)]
pub struct HeartbeatAttemptKey {
    /// The sequence id of the ACTIVE_TEST.
    pub sequence_id: u32,
    /// Tells apart ACTIVE_TESTs that have the same sequence id one after the other.
    pub heartbeat_id: u64,
    /// Which attempt it is, from 1.
    pub attempt: u32,
}

/// Something that waits to be written.
#[derive(Debug)]
pub struct Outbound {
    /// The bytes to write.
    pub packet: Bytes,
    /// When the time in which it must be written began, in nanoseconds.
    pub response_budget_started_at: Option<u128>,
    /// The sequence id of the TERMINATE of this side, if it is one.
    pub local_terminate: Option<u32>,
    /// Whether it is dropped once the TERMINATE of the peer was answered.
    pub cancel_after_peer_terminate: bool,
    /// Whether it answers the TERMINATE of the peer.
    pub marks_peer_terminate_response: bool,
    /// Whether it is dropped once the connection closes.
    pub open_only: bool,
    /// Whether it only marks the end of the SUBMITs that were accepted.
    pub submit_drain_marker: bool,
    /// The attempt to send a SUBMIT that it is.
    pub submit_attempt: Option<SubmitAttemptKey>,
    /// The attempt to send an ACTIVE_TEST that it is.
    pub heartbeat_attempt: Option<HeartbeatAttemptKey>,
    /// What is reported once it is written.
    pub event_after_write: Option<Event>,
}

/// What an [`Outbound`] says.
#[verifier::ext_equal]
pub struct OutboundView {
    pub packet: Seq<u8>,
    pub response_budget_started_at: Option<u128>,
    pub local_terminate: Option<u32>,
    pub cancel_after_peer_terminate: bool,
    pub marks_peer_terminate_response: bool,
    pub open_only: bool,
    pub submit_drain_marker: bool,
    pub submit_attempt: Option<SubmitAttemptKey>,
    pub heartbeat_attempt: Option<HeartbeatAttemptKey>,
    pub event_after_write: Option<Event>,
}

impl View for Outbound {
    type V = OutboundView;

    open spec fn view(&self) -> OutboundView {
        OutboundView {
            packet: frozen_contents(self.packet),
            response_budget_started_at: self.response_budget_started_at,
            local_terminate: self.local_terminate,
            cancel_after_peer_terminate: self.cancel_after_peer_terminate,
            marks_peer_terminate_response: self.marks_peer_terminate_response,
            open_only: self.open_only,
            submit_drain_marker: self.submit_drain_marker,
            submit_attempt: self.submit_attempt,
            heartbeat_attempt: self.heartbeat_attempt,
            event_after_write: self.event_after_write,
        }
    }
}

impl OutboundView {
    /// Bytes with nothing attached to them.
    pub open spec fn bare(packet: Seq<u8>) -> OutboundView {
        OutboundView {
            packet,
            response_budget_started_at: None,
            local_terminate: None,
            cancel_after_peer_terminate: false,
            marks_peer_terminate_response: false,
            open_only: false,
            submit_drain_marker: false,
            submit_attempt: None,
            heartbeat_attempt: None,
            event_after_write: None,
        }
    }
}

impl Outbound {
    /// Bytes with nothing attached to them.
    pub fn plain(packet: Bytes) -> (outbound: Outbound)
        ensures
            outbound@ == OutboundView::bare(frozen_contents(packet)),
    {
        Outbound {
            packet,
            response_budget_started_at: None,
            local_terminate: None,
            cancel_after_peer_terminate: false,
            marks_peer_terminate_response: false,
            open_only: false,
            submit_drain_marker: false,
            submit_attempt: None,
            heartbeat_attempt: None,
            event_after_write: None,
        }
    }

    /// The TERMINATE of this side.
    pub fn local_terminate(packet: Bytes, sequence_id: u32) -> (outbound: Outbound)
        ensures
            outbound@ == (OutboundView {
                local_terminate: Some(sequence_id),
                cancel_after_peer_terminate: true,
                ..OutboundView::bare(frozen_contents(packet))
            }),
    {
        let mut outbound: Outbound = Outbound::plain(packet);
        outbound.local_terminate = Some(sequence_id);
        outbound.cancel_after_peer_terminate = true;
        outbound
    }

    /// The answer to the TERMINATE of the peer.
    pub fn peer_terminate_response(packet: Bytes) -> (outbound: Outbound)
        ensures
            outbound@ == (OutboundView {
                marks_peer_terminate_response: true,
                ..OutboundView::bare(frozen_contents(packet))
            }),
    {
        let mut outbound: Outbound = Outbound::plain(packet);
        outbound.marks_peer_terminate_response = true;
        outbound
    }

    /// A response, the time from which it may take, and what is reported once it is written.
    pub fn event_after_write(
        packet: Bytes,
        response_budget_started_at: u128,
        event: Event,
    ) -> (outbound: Outbound)
        ensures
            outbound@ == (OutboundView {
                response_budget_started_at: Some(response_budget_started_at),
                event_after_write: Some(event),
                ..OutboundView::bare(frozen_contents(packet))
            }),
    {
        let mut outbound: Outbound = Outbound::plain(packet);
        outbound.response_budget_started_at = Some(response_budget_started_at);
        outbound.event_after_write = Some(event);
        outbound
    }

    /// An attempt to send a SUBMIT.
    pub fn submit(packet: Bytes, key: SubmitAttemptKey) -> (outbound: Outbound)
        ensures
            outbound@ == (OutboundView {
                submit_attempt: Some(key),
                ..OutboundView::bare(frozen_contents(packet))
            }),
    {
        let mut outbound: Outbound = Outbound::plain(packet);
        outbound.submit_attempt = Some(key);
        outbound
    }

    /// Bytes that are dropped once the connection closes.
    pub fn open_only(packet: Bytes) -> (outbound: Outbound)
        ensures
            outbound@ == (OutboundView {
                open_only: true,
                ..OutboundView::bare(frozen_contents(packet))
            }),
    {
        let mut outbound: Outbound = Outbound::plain(packet);
        outbound.open_only = true;
        outbound
    }

    /// An attempt to send an ACTIVE_TEST.
    pub fn heartbeat(packet: Bytes, key: HeartbeatAttemptKey) -> (outbound: Outbound)
        ensures
            outbound@ == (OutboundView {
                open_only: true,
                heartbeat_attempt: Some(key),
                ..OutboundView::bare(frozen_contents(packet))
            }),
    {
        let mut outbound: Outbound = Outbound::open_only(packet);
        outbound.heartbeat_attempt = Some(key);
        outbound
    }

    /// The mark behind the last SUBMIT that was accepted.
    pub fn submit_drain_marker() -> (outbound: Outbound)
        ensures
            outbound@ == (OutboundView {
                submit_drain_marker: true,
                ..OutboundView::bare(Seq::empty())
            }),
    {
        let mut outbound: Outbound = Outbound::plain(Bytes::new());
        outbound.submit_drain_marker = true;
        assert(outbound@.packet =~= Seq::empty());
        outbound
    }
}

/// What is left of a time limit of `limit` that began at `started_at`; none if nothing is.
pub open spec fn time_left(limit: u128, started_at: u128, now: u128) -> Option<u128> {
    let elapsed = if now > started_at {
        now - started_at
    } else {
        0
    };
    if elapsed < limit {
        Some((limit - elapsed) as u128)
    } else {
        None
    }
}

/// What is left of a time limit.
pub fn remaining_time(limit: u128, started_at: u128, now: u128) -> (left: Option<u128>)
    ensures
        left == time_left(limit, started_at, now),
{
    let elapsed: u128 = if now > started_at {
        now - started_at
    } else {
        0
    };
    if elapsed < limit {
        Some(limit - elapsed)
    } else {
        None
    }
}

// ---- laws ----

/// What is left of a time limit and what has passed of it are the limit; once the limit has
/// passed, nothing is left. A clock that stands before the start has not moved.
pub proof fn time_runs_out(limit: u128, started_at: u128, now: u128)
    ensures
        now <= started_at && limit > 0 ==> time_left(limit, started_at, now) == Some(limit),
        started_at <= now && now - started_at < limit ==> (time_left(limit, started_at, now)
            matches Some(left) && left + (now - started_at) == limit),
        started_at <= now && now - started_at >= limit ==> time_left(limit, started_at, now)
            is None,
        limit == 0 ==> time_left(limit, started_at, now) is None,
{
}

/// Bare bytes are written whatever the state of the connection, and nothing follows from it.
pub proof fn bare_bytes_mean_nothing(packet: Seq<u8>)
    ensures
        ({
            let bare = OutboundView::bare(packet);
            &&& bare.packet == packet
            &&& bare.response_budget_started_at is None
            &&& bare.local_terminate is None
            &&& !bare.cancel_after_peer_terminate
            &&& !bare.marks_peer_terminate_response
            &&& !bare.open_only
            &&& !bare.submit_drain_marker
            &&& bare.submit_attempt is None
            &&& bare.heartbeat_attempt is None
            &&& bare.event_after_write is None
        }),
{
}

} // verus!
