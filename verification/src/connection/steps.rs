//! The steps that a connection can take, one by one, and what holds of every run of them.
use vstd::prelude::*;

use crate::connection::events::{Event, SpoolView};
use crate::connection::lifecycle::CloseStart;
use crate::connection::outbound::{
    HeartbeatAttemptKey, HeartbeatAttemptState, OutboundView, SubmitAttemptKey, SubmitAttemptState,
};
use crate::connection::reader::peer_terminated;
use crate::connection::sequence::LeaseView;
use crate::connection::session::{
    next_number, ConnectionPhase, HeartbeatEntry, SessionView, TerminateEntry,
};
use crate::error::Error;

verus! {

/// A step of a connection.
pub enum SessionStep<R> {
    /// Nothing changes.
    Nothing,
    /// Closing begins.
    BeginClosing { drain_submits: bool },
    /// The user asks to close, and is told what to start.
    StartClose { start: CloseStart },
    /// The connection ends.
    Finish { reason: Option<Error> },
    /// Everything that waits is let go.
    Cleanup,
    /// The next sequence id in order is handed out, or there is none.
    ReserveNext { lease: Option<LeaseView> },
    /// Sequence ids that the caller names are handed out, or are not.
    ReserveBatch { base: u32, count: int },
    /// A lease is given up.
    GiveUp { lease: LeaseView },
    /// A SUBMIT is numbered.
    NumberSubmit,
    /// A SUBMIT is taken in.
    Admit { lease: LeaseView, submission_id: u64, packet: Seq<u8>, resources: R },
    /// An attempt to send a SUBMIT is claimed, if it may be.
    ClaimSubmit { key: SubmitAttemptKey },
    /// An attempt to send a SUBMIT was written.
    SubmitWritten { key: SubmitAttemptKey, written_at: u128 },
    /// A SUBMIT_RESP came.
    Answer { id: u32 },
    /// A SUBMIT is sent once more.
    Resend { key: SubmitAttemptKey },
    /// A SUBMIT is given up, and that is reported.
    Expire { key: SubmitAttemptKey },
    /// An ACTIVE_TEST gets a sequence id and a number.
    BeginHeartbeat { lease: LeaseView },
    /// An ACTIVE_TEST is taken in.
    AdmitHeartbeat { lease: LeaseView, heartbeat_id: u64 },
    /// An attempt to send the ACTIVE_TEST is claimed, if it may be.
    ClaimHeartbeat { key: HeartbeatAttemptKey },
    /// An attempt to send the ACTIVE_TEST was written.
    HeartbeatWritten { key: HeartbeatAttemptKey, written_at: u128 },
    /// The ACTIVE_TEST is sent once more.
    ResendHeartbeat { key: HeartbeatAttemptKey },
    /// The ACTIVE_TEST waits no longer.
    DropHeartbeat,
    /// The peer sent a TERMINATE.
    PeerTerminate,
    /// The TERMINATE of the peer was answered.
    PeerAnswered,
    /// No more SUBMITs are sent of those that were accepted.
    StopDraining,
    /// This side begins to take leave.
    BeginTerminate { lease: LeaseView },
    /// The TERMINATE of this side was written.
    TerminateWritten { id: u32 },
    /// The TERMINATE of this side waits no longer.
    DropTerminate,
    /// It is decided what to do with what comes next.
    PrepareWrite { outbound: OutboundView, is_submit: bool },
    /// Something was written.
    CompleteWrite { outbound: OutboundView, is_submit: bool, written_at: u128 },
    /// The queue of reports is counted anew.
    Count { spool: SpoolView },
}

impl<R> SessionStep<R> {
    /// What is reported of a SUBMIT that is given up in this step.
    pub open spec fn timeout_event(self) -> Option<Event> {
        match self {
            SessionStep::Expire { key } => Some(
                Event::SubmitTimeout { sequence_id: key.sequence_id },
            ),
            _ => None,
        }
    }
}

/// Whether a step leads from one state to another.
pub open spec fn leads<R>(
    before: SessionView<R>,
    step: SessionStep<R>,
    after: SessionView<R>,
) -> bool {
    match step {
        SessionStep::Nothing => after == before,
        SessionStep::BeginClosing { drain_submits } => after == before.closing(drain_submits),
        SessionStep::StartClose { start } => {
            &&& start == before.close_start()
            &&& after == before.close_asked()
        },
        SessionStep::Finish { reason } => after == before.finished(reason),
        SessionStep::Cleanup => after == before.cleaned_up(),
        SessionStep::ReserveNext { lease } => {
            &&& before.sequences.reserves_next(after.sequences, lease)
            &&& after == SessionView { sequences: after.sequences, ..before }
        },
        SessionStep::ReserveBatch { base, count } => after == SessionView {
            sequences: before.sequences.with_batch(base, count),
            ..before
        },
        SessionStep::GiveUp { lease } => after == SessionView {
            sequences: before.sequences.without(lease),
            ..before
        },
        SessionStep::NumberSubmit => after == SessionView {
            next_submission_id: next_number(before.next_submission_id),
            ..before
        },
        SessionStep::Admit { lease, submission_id, packet, resources } => {
            &&& before.phase == ConnectionPhase::Open
            &&& before.has_room_for(lease)
            &&& lease.manual ==> before.sequences.can_retire(lease.sequence_id)
            &&& after == before.admitted(lease, submission_id, packet, resources)
        },
        SessionStep::ClaimSubmit { key } => after == if before.may_claim_submit(key) {
            before.with_submit_state(
                key.sequence_id,
                SubmitAttemptState::Writing { attempt: key.attempt },
            )
        } else {
            before
        },
        SessionStep::SubmitWritten { key, written_at } => after == before.submit_written(
            key,
            written_at,
        ),
        SessionStep::Answer { id } => after == before.answered(id),
        SessionStep::Resend { key } => {
            &&& before.phase == ConnectionPhase::Open
            &&& before.awaits(key)
            &&& key.attempt < before.limits.retry_count
            &&& after == before.with_submit_state(
                key.sequence_id,
                SubmitAttemptState::Queued { attempt: (key.attempt + 1) as u32 },
            )
        },
        SessionStep::Expire { key } => {
            &&& before.awaits(key)
            &&& key.attempt >= before.limits.retry_count
            &&& after == before.expired(key.sequence_id)
        },
        SessionStep::BeginHeartbeat { lease } => {
            &&& before.heartbeat is None
            &&& before.sequences.reserves_next(after.sequences, Some(lease))
            &&& after == SessionView {
                sequences: after.sequences,
                next_heartbeat_id: next_number(before.next_heartbeat_id),
                ..before
            }
        },
        SessionStep::AdmitHeartbeat { lease, heartbeat_id } => {
            &&& before.phase == ConnectionPhase::Open
            &&& before.heartbeat is None
            &&& after == SessionView {
                heartbeat: Some(
                    HeartbeatEntry {
                        heartbeat_id,
                        state: HeartbeatAttemptState::Queued { attempt: 1 },
                        lease,
                    },
                ),
                ..before
            }
        },
        SessionStep::ClaimHeartbeat { key } => after == if before.may_claim_heartbeat(key) {
            before.with_heartbeat_state(HeartbeatAttemptState::Writing { attempt: key.attempt })
        } else {
            before
        },
        SessionStep::HeartbeatWritten { key, written_at } => after == before.heartbeat_written(
            key,
            written_at,
        ),
        SessionStep::ResendHeartbeat { key } => {
            &&& before.phase == ConnectionPhase::Open
            &&& before.awaits_heartbeat(key)
            &&& key.attempt < before.limits.retry_count
            &&& after == before.with_heartbeat_state(
                HeartbeatAttemptState::Queued { attempt: (key.attempt + 1) as u32 },
            )
        },
        SessionStep::DropHeartbeat => after == before.without_heartbeat(),
        SessionStep::PeerTerminate => after == peer_terminated(before),
        SessionStep::PeerAnswered => after == SessionView {
            peer_terminate_answered: true,
            ..before
        },
        SessionStep::StopDraining => after == SessionView { drain_submits: false, ..before },
        SessionStep::BeginTerminate { lease } => {
            &&& !before.terminate_begun
            &&& before.sequences.reserves_next(after.sequences, Some(lease))
            &&& after == SessionView {
                sequences: after.sequences,
                terminate: Some(TerminateEntry { written: false, lease }),
                terminate_begun: true,
                ..before
            }
        },
        SessionStep::TerminateWritten { id } => after == if before.terminates_with(id) {
            SessionView {
                terminate: Some(TerminateEntry { written: true, ..before.terminate->0 }),
                ..before
            }
        } else {
            before
        },
        SessionStep::DropTerminate => after == before.without_terminate(),
        SessionStep::PrepareWrite { outbound, is_submit } => after == before.write_prepared(
            outbound,
            is_submit,
        ),
        SessionStep::CompleteWrite { outbound, is_submit, written_at } => after == before.written(
            outbound,
            is_submit,
            written_at,
        ),
        SessionStep::Count { spool } => after == SessionView { spool, ..before },
    }
}

/// Whether steps lead from each of some well-formed states to the next.
pub open spec fn is_run<R>(states: Seq<SessionView<R>>, steps: Seq<SessionStep<R>>) -> bool {
    &&& states.len() == steps.len() + 1
    &&& forall|i: int| 0 <= i < states.len() ==> (#[trigger] states[i]).wf()
    &&& forall|i: int|
        0 <= i < steps.len() ==> leads(states[i], #[trigger] steps[i], states[i + 1])
}

// ---- closing ----

/// No step leads back: not from closing to open, nor from closed to either; who has asked to close
/// has asked, who has begun to take leave has begun, and the limits stay.
pub proof fn no_step_leads_back<R>(
    before: SessionView<R>,
    step: SessionStep<R>,
    after: SessionView<R>,
)
    requires
        leads(before, step, after),
    ensures
        after.phase.rank() >= before.phase.rank(),
        before.close_started ==> after.close_started,
        before.terminate_begun ==> after.terminate_begun,
        after.limits == before.limits,
{
}

/// What holds of one step holds of every run: a connection never comes back to an earlier phase.
pub proof fn no_run_leads_back<R>(
    states: Seq<SessionView<R>>,
    steps: Seq<SessionStep<R>>,
    i: int,
    j: int,
)
    requires
        is_run(states, steps),
        0 <= i <= j < states.len(),
    ensures
        states[j].phase.rank() >= states[i].phase.rank(),
        states[i].close_started ==> states[j].close_started,
        states[i].terminate_begun ==> states[j].terminate_begun,
        states[j].limits == states[i].limits,
    decreases j - i,
{
    if i < j {
        no_run_leads_back(states, steps, i, j - 1);
        no_step_leads_back(states[j - 1], steps[j - 1], states[j]);
    }
}

/// Once the user has asked to close, the connection is open no more, no SUBMIT is taken in, and
/// who asks again has nothing to start.
pub proof fn close_is_for_good<R>(
    states: Seq<SessionView<R>>,
    steps: Seq<SessionStep<R>>,
    i: int,
    j: int,
)
    requires
        is_run(states, steps),
        0 <= i < j < states.len(),
        steps[i] is StartClose,
    ensures
        states[j].phase != ConnectionPhase::Open,
        j < steps.len() ==> !(steps[j] is Admit),
        j < steps.len() ==> (steps[j] matches SessionStep::StartClose { start } ==> start
            == CloseStart::Nothing),
{
    assert(leads(states[i], steps[i], states[i + 1]));
    no_run_leads_back(states, steps, i + 1, j);
    if j < steps.len() {
        assert(leads(states[j], steps[j], states[j + 1]));
    }
}

/// However often closing is asked for, at most one TERMINATE is begun.
pub proof fn leave_is_taken_once<R>(
    states: Seq<SessionView<R>>,
    steps: Seq<SessionStep<R>>,
    i: int,
    j: int,
)
    requires
        is_run(states, steps),
        0 <= i <= j < steps.len(),
        steps[i] is BeginTerminate,
        steps[j] is BeginTerminate,
    ensures
        i == j,
{
    if i < j {
        assert(leads(states[i], steps[i], states[i + 1]));
        no_run_leads_back(states, steps, i + 1, j);
        assert(leads(states[j], steps[j], states[j + 1]));
    }
}

// ---- a SUBMIT that is not answered ----

/// Whether a SUBMIT has gone, and its sequence id never comes back.
pub open spec fn is_gone<R>(state: SessionView<R>, id: u32) -> bool {
    &&& !state.submits.contains_key(id)
    &&& !state.sequences.reserved.contains(id)
    &&& state.sequences.spent(id)
}

/// Whether a step brings an attempt to send a SUBMIT to its end: it is written.
pub open spec fn writes_submit<R>(before: SessionView<R>, after: SessionView<R>, id: u32) -> bool {
    &&& before.submits.contains_key(id) && before.submits[id].state is Writing
    &&& after.submits.contains_key(id) && after.submits[id].state is AwaitingResponse
}

/// How often a SUBMIT was written in the first `n` steps of a run.
pub open spec fn times_written<R>(states: Seq<SessionView<R>>, id: u32, n: int) -> nat
    decreases n,
{
    if n <= 0 {
        0
    } else {
        times_written(states, id, n - 1) + (if writes_submit(states[n - 1], states[n], id) {
            1nat
        } else {
            0
        })
    }
}

/// How often it was reported in the first `n` steps of a run that a SUBMIT was given up.
pub open spec fn times_reported<R>(steps: Seq<SessionStep<R>>, id: u32, n: int) -> nat
    decreases n,
{
    if n <= 0 {
        0
    } else {
        times_reported(steps, id, n - 1) + (if steps[n - 1].timeout_event() == Some(
            Event::SubmitTimeout { sequence_id: id },
        ) {
            1nat
        } else {
            0
        })
    }
}

/// Whether a step can be part of the course of a SUBMIT that is not answered.
pub open spec fn leaves_unanswered<R>(step: SessionStep<R>, id: u32) -> bool {
    &&& !(step is Cleanup)
    &&& step matches SessionStep::Answer { id: other } ==> other != id
}

/// Whether the state of a SUBMIT that waits moved on by one: it is claimed, or it was written, or
/// it is to be sent once more.
pub open spec fn moves_on(before: SubmitAttemptState, after: SubmitAttemptState, last: u32) -> bool {
    ||| after == before
    ||| before matches SubmitAttemptState::Queued { attempt } && after
        == (SubmitAttemptState::Writing { attempt })
    ||| before matches SubmitAttemptState::Writing { attempt } && after
        matches SubmitAttemptState::AwaitingResponse { attempt: same, .. } && same == attempt
    ||| before matches SubmitAttemptState::AwaitingResponse { attempt, .. } && attempt < last
        && after == (SubmitAttemptState::Queued { attempt: (attempt + 1) as u32 })
}

/// What is gone stays gone.
pub proof fn gone_stays_gone<R>(
    before: SessionView<R>,
    step: SessionStep<R>,
    after: SessionView<R>,
    id: u32,
)
    requires
        before.wf(),
        leads(before, step, after),
        is_gone(before, id),
    ensures
        is_gone(after, id),
{
}

proof fn unanswered_moves_on<R>(
    before: SessionView<R>,
    step: SessionStep<R>,
    after: SessionView<R>,
    id: u32,
)
    requires
        before.wf(),
        leads(before, step, after),
        leaves_unanswered(step, id),
        before.submits.contains_key(id),
        !(before.submits[id].state is RespondedWhileWriting),
        !(step matches SessionStep::Expire { key } && key.sequence_id == id),
    ensures
        after.submits.contains_key(id),
        after.submits[id].packet == before.submits[id].packet,
        moves_on(
            before.submits[id].state,
            after.submits[id].state,
            before.limits.retry_count,
        ),
{
}

/// How often a SUBMIT was written, by its state.
pub open spec fn writes_so_far(state: SubmitAttemptState) -> int {
    match state {
        SubmitAttemptState::AwaitingResponse { attempt, .. } => attempt as int,
        SubmitAttemptState::RespondedWhileWriting { attempt } => attempt as int,
        SubmitAttemptState::Queued { attempt } => attempt - 1,
        SubmitAttemptState::Writing { attempt } => attempt - 1,
    }
}

/// A SUBMIT that is taken in and never answered runs its course: as long as it waits, it is written
/// no more than `retry_count` times, always the same bytes, and nothing is reported; when it waits
/// no longer, it was written exactly `retry_count` times, that was reported exactly once, and its
/// sequence id never comes back.
pub proof fn unanswered_submit_runs_its_course<R>(
    states: Seq<SessionView<R>>,
    steps: Seq<SessionStep<R>>,
    id: u32,
    bytes: Seq<u8>,
    n: int,
)
    requires
        is_run(states, steps),
        states[0].limits.retry_count > 0,
        1 <= n <= steps.len(),
        steps[0] matches SessionStep::Admit { lease, packet, .. } && lease.sequence_id == id
            && packet == bytes,
        forall|i: int| 0 <= i < steps.len() ==> leaves_unanswered(#[trigger] steps[i], id),
    ensures
        times_written(states, id, n) <= states[0].limits.retry_count,
        states[n].submits.contains_key(id) ==> {
            &&& states[n].submits[id].packet == bytes
            &&& !(states[n].submits[id].state is RespondedWhileWriting)
            &&& times_written(states, id, n) == writes_so_far(states[n].submits[id].state)
            &&& times_reported(steps, id, n) == 0
        },
        !states[n].submits.contains_key(id) ==> {
            &&& times_written(states, id, n) == states[0].limits.retry_count
            &&& times_reported(steps, id, n) == 1
            &&& is_gone(states[n], id)
        },
    decreases n,
{
    let before = states[n - 1];
    let step = steps[n - 1];
    let after = states[n];
    assert(leads(before, step, after));
    no_run_leads_back(states, steps, 0, n - 1);
    assert(before.wf() && after.wf());
    if n == 1 {
        assert(times_written(states, id, 0) == 0);
        assert(times_reported(steps, id, 0) == 0);
    } else {
        unanswered_submit_runs_its_course(states, steps, id, bytes, n - 1);
        if !before.submits.contains_key(id) {
            gone_stays_gone(before, step, after, id);
        } else if step matches SessionStep::Expire { key } && key.sequence_id == id {
            assert(is_gone(after, id));
        } else {
            unanswered_moves_on(before, step, after, id);
        }
    }
}

// ---- the reason of the end ----

/// Once a connection has ended, no step changes why, until it is cleaned up.
pub proof fn ended_keeps_its_reason<R>(
    before: SessionView<R>,
    step: SessionStep<R>,
    after: SessionView<R>,
)
    requires
        leads(before, step, after),
        before.phase == ConnectionPhase::Closed,
        !(step is Cleanup),
    ensures
        after.phase == ConnectionPhase::Closed,
        after.terminal_reason == before.terminal_reason,
{
}

/// A connection that is told to end for a reason, before anything else ends it, and whose peer
/// sent no TERMINATE and whose queue of reports did not overflow, holds just that reason for
/// whoever cleans it up, however many steps lie between.
pub proof fn reason_reaches_the_cleanup<R>(
    states: Seq<SessionView<R>>,
    steps: Seq<SessionStep<R>>,
    told: Option<Error>,
    i: int,
    j: int,
)
    requires
        is_run(states, steps),
        0 <= i < j < states.len(),
        steps[i] == (SessionStep::<R>::Finish { reason: told }),
        states[i].phase != ConnectionPhase::Closed,
        !states[i].peer_terminate_seen,
        !states[i].spool.overflowed,
        forall|k: int| i < k < j ==> !(#[trigger] steps[k] is Cleanup),
    ensures
        states[j].phase == ConnectionPhase::Closed,
        states[j].terminal_reason == told,
    decreases j,
{
    if j == i + 1 {
        assert(leads(states[i], steps[i], states[i + 1]));
    } else {
        reason_reaches_the_cleanup(states, steps, told, i, j - 1);
        assert(leads(states[j - 1], steps[j - 1], states[j]));
        assert(!(steps[j - 1] is Cleanup));
        ended_keeps_its_reason(states[j - 1], steps[j - 1], states[j]);
    }
}

// ---- sending once more ----

/// A SUBMIT that is sent once more is the same SUBMIT: only the number of its attempt goes up,
/// by one.
pub proof fn resent_submit_is_the_same<R>(
    before: SessionView<R>,
    key: SubmitAttemptKey,
    after: SessionView<R>,
)
    requires
        leads(before, SessionStep::Resend { key }, after),
    ensures
        ({
            let id = key.sequence_id;
            &&& before.submits.contains_key(id) && after.submits.contains_key(id)
            &&& before.submits[id].state is AwaitingResponse
            &&& after.submits[id].state is Queued
            &&& after.submits[id].state.number() == before.submits[id].state.number() + 1
            &&& after.submits[id].state.number() <= before.limits.retry_count
            &&& after.submits[id].submission_id == before.submits[id].submission_id
            &&& after.submits[id].packet == before.submits[id].packet
            &&& after.submits[id].lease == before.submits[id].lease
            &&& after.submits[id].resources == before.submits[id].resources
            &&& after.submits.remove(id) == before.submits.remove(id)
            &&& after.sequences == before.sequences
            &&& after.spool == before.spool
        }),
{
    let id = key.sequence_id;
    assert(after.submits.remove(id) =~= before.submits.remove(id));
}

/// An ACTIVE_TEST is first sent under attempt 1. When it is sent once more, only the number of
/// its attempt goes up, by one.
pub proof fn resent_probe_is_the_same<R>(
    before: SessionView<R>,
    step: SessionStep<R>,
    after: SessionView<R>,
)
    requires
        leads(before, step, after),
    ensures
        step matches SessionStep::AdmitHeartbeat { lease, heartbeat_id } ==> before.heartbeat is None
            && (after.heartbeat matches Some(h) && h.state is Queued && h.state.number() == 1
            && h.lease == lease && h.heartbeat_id == heartbeat_id),
        step is ResendHeartbeat ==> before.heartbeat is Some && after.heartbeat is Some && {
            let old_one = before.heartbeat->0;
            let new_one = after.heartbeat->0;
            &&& old_one.state is AwaitingResponse
            &&& new_one.state is Queued
            &&& new_one.state.number() == old_one.state.number() + 1
            &&& new_one.state.number() <= before.limits.retry_count
            &&& new_one.lease == old_one.lease
            &&& new_one.heartbeat_id == old_one.heartbeat_id
            &&& after.submits == before.submits
            &&& after.sequences == before.sequences
        },
{
}

} // verus!
