//! What a connection reports to its user, and the bounded queue that the reports wait in.
use vstd::prelude::*;

use crate::error::Error;
use crate::pdu::Deliver;
use crate::text::{hex_bytes, hex_string};

verus! {

/// How many reports may wait before the connection is closed for overload.
pub const EVENT_SPOOL_NORMAL_CAPACITY: usize = 256;

/// How many more have room: one report that must not be lost, and the end of the connection.
pub const EVENT_SPOOL_EMERGENCY_CAPACITY: usize = 2;

/// A report of a connection.
#[derive(Debug)]
pub enum Event {
    /// A SUBMIT was answered.
    SubmitResp {
        /// The sequence id of the SUBMIT.
        sequence_id: u32,
        /// The message id that the gateway gave.
        msg_id: [u8; 8],
        /// The result; 0 is success.
        result: u8,
    },
    /// A SUBMIT was not answered, however often it was sent.
    SubmitTimeout {
        /// The sequence id of the SUBMIT.
        sequence_id: u32,
    },
    /// A DELIVER came in: a status report or a message.
    Deliver(Deliver),
    /// The connection is gone, and no report follows.
    Disconnected(Error),
}

impl Event {
    /// A message id in lower-case hexadecimal.
    pub fn msg_id_hex(msg_id: &[u8; 8]) -> (text: String)
        ensures
            text@ == hex_string(msg_id@),
    {
        hex_bytes(msg_id)
    }
}

/// The last report of a connection that ends for `reason`, unless reports are discarded; one that
/// ends for no reason ends in silence.
pub fn terminal_event(reason: Option<Error>, discard_events: bool) -> (event: Option<Event>)
    ensures
        match reason {
            Some(error) if !discard_events => event == Some(Event::Disconnected(error)),
            _ => event is None,
        },
{
    match reason {
        Some(error) => {
            if discard_events {
                None
            } else {
                Some(Event::Disconnected(error))
            }
        },
        None => None,
    }
}

/// Whether reports are let into the queue.
#[derive(Debug, Clone, Copy, PartialEq, Eq, Structural)]
pub enum EventAdmissionState {
    /// They are.
    Open,
    /// They are, while the connection closes.
    Draining,
    /// No more, because there were too many.
    Overflowed,
    /// No more, because the connection is about to end.
    Sealed,
    /// No more, because the end is in the queue.
    Terminal,
}

/// Why a report is not let into the queue.
#[derive(Debug, Clone, Copy, PartialEq, Eq, Structural)]
pub enum EventReservationError {
    /// There were too many.
    Overflowed,
    /// The connection is at its end.
    Closed,
}

/// What to do for a report that asks for a place.
#[derive(Debug, Clone, Copy, PartialEq, Eq, Structural)]
pub enum EventPlan {
    /// Refuse it.
    Refuse {
        /// Why.
        error: EventReservationError,
        /// Whether the connection is to be closed for overload.
        overload: bool,
    },
    /// Put it into the queue.
    Send {
        /// Whether the connection is to be closed for overload, too.
        overload: bool,
    },
}

/// What became of a report that asked for a place.
#[derive(Debug, Clone, Copy, PartialEq, Eq, Structural)]
pub struct EventOutcome {
    /// Why it has none; none if it has.
    pub error: Option<EventReservationError>,
    /// Whether the connection is to be closed for overload.
    pub overload: bool,
}

/// Who keeps count of the queue of reports and decides what is let into it.
#[derive(Debug, Clone, Copy, PartialEq, Eq, Structural)]
pub struct EventSpool {
    admission: EventAdmissionState,
    depth: usize,
    tickets: usize,
    overflowed: bool,
}

/// What a spool knows.
#[verifier::ext_equal]
pub struct SpoolView {
    /// Whether reports are let in.
    pub admission: EventAdmissionState,
    /// How many places are taken.
    pub depth: nat,
    /// How many of them wait for the bytes that they depend on to be written.
    pub tickets: nat,
    /// Whether there ever were too many.
    pub overflowed: bool,
}

impl SpoolView {
    /// No more places are taken than there are, of which the last two are for one report past
    /// the limit and for the end.
    pub open spec fn wf(self) -> bool {
        match self.admission {
            EventAdmissionState::Open | EventAdmissionState::Draining => {
                self.depth <= EVENT_SPOOL_NORMAL_CAPACITY && !self.overflowed
            },
            EventAdmissionState::Overflowed => {
                self.depth <= EVENT_SPOOL_NORMAL_CAPACITY + 1 && self.overflowed
            },
            EventAdmissionState::Sealed => self.depth <= EVENT_SPOOL_NORMAL_CAPACITY + 1,
            EventAdmissionState::Terminal => self.depth <= EVENT_SPOOL_NORMAL_CAPACITY
                + EVENT_SPOOL_EMERGENCY_CAPACITY,
        }
    }

    /// Whether reports are let in.
    pub open spec fn admits(self) -> bool {
        self.admission == EventAdmissionState::Open || self.admission
            == EventAdmissionState::Draining
    }

    /// Whether the connection is at its end.
    pub open spec fn is_shut(self) -> bool {
        self.admission == EventAdmissionState::Sealed || self.admission
            == EventAdmissionState::Terminal
    }

    /// The spool when the connection closes.
    pub open spec fn draining(self) -> SpoolView {
        SpoolView {
            admission: if self.admission == EventAdmissionState::Open {
                EventAdmissionState::Draining
            } else {
                self.admission
            },
            ..self
        }
    }

    /// The spool when nothing more is let in.
    pub open spec fn sealed(self) -> SpoolView {
        SpoolView {
            admission: if self.is_shut() {
                self.admission
            } else {
                EventAdmissionState::Sealed
            },
            ..self
        }
    }

    /// The spool that has seen too many reports.
    pub open spec fn overflow(self) -> SpoolView {
        SpoolView { admission: EventAdmissionState::Overflowed, overflowed: true, ..self }
    }

    /// What to do for a report that asks for a place; one that must not be lost has one past the
    /// limit.
    pub open spec fn plan(self, preserve: bool) -> EventPlan {
        if self.admission == EventAdmissionState::Overflowed {
            EventPlan::Refuse { error: EventReservationError::Overflowed, overload: false }
        } else if !self.admits() {
            EventPlan::Refuse { error: EventReservationError::Closed, overload: false }
        } else if self.depth < EVENT_SPOOL_NORMAL_CAPACITY {
            EventPlan::Send { overload: false }
        } else if preserve {
            EventPlan::Send { overload: true }
        } else {
            EventPlan::Refuse { error: EventReservationError::Overflowed, overload: true }
        }
    }

    /// The spool when a report has asked for a place.
    pub open spec fn asked(self) -> SpoolView {
        if self.admits() && self.depth >= EVENT_SPOOL_NORMAL_CAPACITY {
            self.overflow()
        } else {
            self
        }
    }

    /// The spool when the queue has taken a report, or has not.
    pub open spec fn settled(self, accepted: bool, ticketed: bool) -> SpoolView {
        if accepted {
            SpoolView {
                depth: self.depth + 1,
                tickets: self.tickets + (if ticketed {
                    1nat
                } else {
                    0
                }),
                ..self
            }
        } else {
            self.overflow()
        }
    }
}

/// What became of a report that was put into the queue.
pub open spec fn outcome(overload: bool, accepted: bool) -> EventOutcome {
    EventOutcome {
        error: if accepted {
            None
        } else {
            Some(EventReservationError::Overflowed)
        },
        overload: overload || !accepted,
    }
}

impl View for EventSpool {
    type V = SpoolView;

    closed spec fn view(&self) -> SpoolView {
        SpoolView {
            admission: self.admission,
            depth: self.depth as nat,
            tickets: self.tickets as nat,
            overflowed: self.overflowed,
        }
    }
}

impl EventSpool {
    /// An open spool and an empty queue.
    pub fn new() -> (spool: EventSpool)
        ensures
            spool@.wf(),
            spool@ == (SpoolView {
                admission: EventAdmissionState::Open,
                depth: 0,
                tickets: 0,
                overflowed: false,
            }),
    {
        EventSpool {
            admission: EventAdmissionState::Open,
            depth: 0,
            tickets: 0,
            overflowed: false,
        }
    }

    /// Whether there ever were too many reports.
    pub fn is_overflowed(&self) -> (overflowed: bool)
        ensures
            overflowed == self@.overflowed,
    {
        self.overflowed
    }

    /// How many places are taken.
    pub fn depth(&self) -> (depth: usize)
        ensures
            depth == self@.depth,
    {
        self.depth
    }

    /// How many reports wait for the bytes that they depend on to be written.
    pub fn pending_tickets(&self) -> (tickets: usize)
        ensures
            tickets == self@.tickets,
    {
        self.tickets
    }

    /// Asks for a place for a report. Where the plan is to send it, what came of it is handed to
    /// [`EventSpool::settle_event`] before anything else is asked of the spool.
    pub fn plan_event(&mut self, preserve_on_overflow: bool) -> (plan: EventPlan)
        requires
            old(self)@.wf(),
        ensures
            plan == old(self)@.plan(preserve_on_overflow),
            final(self)@ == old(self)@.asked(),
            final(self)@.wf(),
    {
        match self.admission {
            EventAdmissionState::Terminal | EventAdmissionState::Sealed => {
                EventPlan::Refuse { error: EventReservationError::Closed, overload: false }
            },
            EventAdmissionState::Overflowed => {
                EventPlan::Refuse { error: EventReservationError::Overflowed, overload: false }
            },
            EventAdmissionState::Open | EventAdmissionState::Draining => {
                if self.depth < EVENT_SPOOL_NORMAL_CAPACITY {
                    EventPlan::Send { overload: false }
                } else {
                    self.admission = EventAdmissionState::Overflowed;
                    self.overflowed = true;
                    if preserve_on_overflow {
                        EventPlan::Send { overload: true }
                    } else {
                        EventPlan::Refuse {
                            error: EventReservationError::Overflowed,
                            overload: true,
                        }
                    }
                }
            },
        }
    }

    /// Notes whether the queue took the report of a plan to send it.
    pub fn settle_event(&mut self, overload: bool, accepted: bool, ticketed: bool) -> (settled:
        EventOutcome)
        requires
            old(self)@.wf(),
            old(self)@.depth < EVENT_SPOOL_NORMAL_CAPACITY + (if overload {
                1int
            } else {
                0
            }),
            old(self)@.admission == EventAdmissionState::Overflowed || (old(self)@.admits()
                && !overload),
            ticketed ==> old(self)@.tickets < usize::MAX,
        ensures
            settled == outcome(overload, accepted),
            final(self)@ == old(self)@.settled(accepted, ticketed),
            final(self)@.wf(),
    {
        if accepted {
            self.depth = self.depth + 1;
            if ticketed {
                self.tickets = self.tickets + 1;
            }
            EventOutcome { error: None, overload }
        } else {
            self.admission = EventAdmissionState::Overflowed;
            self.overflowed = true;
            EventOutcome { error: Some(EventReservationError::Overflowed), overload: true }
        }
    }

    /// Notes that a place became free.
    pub fn item_done(&mut self)
        requires
            old(self)@.wf(),
            old(self)@.depth > 0,
        ensures
            final(self)@ == (SpoolView { depth: (old(self)@.depth - 1) as nat, ..old(self)@ }),
            final(self)@.wf(),
    {
        self.depth = self.depth - 1;
    }

    /// Notes that a report waits no longer for its bytes.
    pub fn ticket_done(&mut self)
        requires
            old(self)@.wf(),
            old(self)@.tickets > 0,
        ensures
            final(self)@ == (SpoolView { tickets: (old(self)@.tickets - 1) as nat, ..old(self)@ }),
            final(self)@.wf(),
    {
        self.tickets = self.tickets - 1;
    }

    /// Lets the reports that are under way through, now that the connection closes.
    pub fn begin_drain(&mut self)
        requires
            old(self)@.wf(),
        ensures
            final(self)@ == old(self)@.draining(),
            final(self)@.wf(),
    {
        if self.admission == EventAdmissionState::Open {
            self.admission = EventAdmissionState::Draining;
        }
    }

    /// Seals the spool if no report waits for its bytes. Whether it is sealed then.
    pub fn seal_if_idle(&mut self) -> (is_sealed: bool)
        requires
            old(self)@.wf(),
        ensures
            is_sealed == (old(self)@.is_shut() || old(self)@.tickets == 0),
            final(self)@ == if is_sealed {
                old(self)@.sealed()
            } else {
                old(self)@
            },
            final(self)@.wf(),
    {
        match self.admission {
            EventAdmissionState::Sealed | EventAdmissionState::Terminal => true,
            _ => {
                if self.tickets != 0 {
                    return false;
                }
                self.admission = EventAdmissionState::Sealed;
                true
            },
        }
    }

    /// Seals the spool, whatever waits.
    pub fn seal(&mut self)
        requires
            old(self)@.wf(),
        ensures
            final(self)@ == old(self)@.sealed(),
            final(self)@.wf(),
    {
        if self.admission != EventAdmissionState::Terminal {
            self.admission = EventAdmissionState::Sealed;
        }
    }

    /// Closes the spool for good. Whether the end of the connection is to be put into the queue,
    /// which is so the first time. What came of that is handed to [`EventSpool::settle_end`].
    pub fn close(&mut self) -> (first: bool)
        requires
            old(self)@.wf(),
        ensures
            first == (old(self)@.admission != EventAdmissionState::Terminal),
            final(self)@ == (SpoolView { admission: EventAdmissionState::Terminal, ..old(self)@ }),
            final(self)@.wf(),
            first ==> final(self)@.depth <= EVENT_SPOOL_NORMAL_CAPACITY + 1,
    {
        if self.admission == EventAdmissionState::Terminal {
            return false;
        }
        self.admission = EventAdmissionState::Terminal;
        true
    }

    /// Notes whether the queue took the end of the connection.
    pub fn settle_end(&mut self, accepted: bool)
        requires
            old(self)@.wf(),
            old(self)@.admission == EventAdmissionState::Terminal,
            old(self)@.depth <= EVENT_SPOOL_NORMAL_CAPACITY + 1,
        ensures
            final(self)@ == (SpoolView {
                depth: old(self)@.depth + (if accepted {
                    1nat
                } else {
                    0
                }),
                ..old(self)@
            }),
            final(self)@.wf(),
    {
        if accepted {
            self.depth = self.depth + 1;
        }
    }
}

// ---- laws ----

/// However many reports ask for a place, the queue never holds more than it has room for.
pub proof fn queue_is_bounded(spool: SpoolView)
    requires
        spool.wf(),
    ensures
        spool.depth <= EVENT_SPOOL_NORMAL_CAPACITY + EVENT_SPOOL_EMERGENCY_CAPACITY,
{
}

/// The first report past the limit overflows the spool, and from then on none is let in; a report
/// that must not be lost is the last that is.
pub proof fn overflow_is_final(spool: SpoolView, preserve: bool, accepted: bool, ticketed: bool)
    requires
        spool.wf(),
        spool.admits(),
        spool.depth >= EVENT_SPOOL_NORMAL_CAPACITY,
    ensures
        spool.asked().overflowed,
        spool.asked().plan(preserve) == (EventPlan::Refuse {
            error: EventReservationError::Overflowed,
            overload: false,
        }),
        spool.asked().settled(accepted, ticketed).plan(preserve) == (EventPlan::Refuse {
            error: EventReservationError::Overflowed,
            overload: false,
        }),
{
}

/// A report is let in exactly while the spool is open or drains.
pub proof fn only_an_open_spool_admits(spool: SpoolView, preserve: bool)
    ensures
        spool.plan(preserve) is Send ==> spool.admits(),
        spool.admits() && (preserve || spool.depth < EVENT_SPOOL_NORMAL_CAPACITY) ==> spool.plan(
            preserve,
        ) is Send,
{
}

/// While the spool is open or drains, a report has a place as long as fewer than 256 are taken.
/// The one that finds 256 taken overflows the spool; it has a place only if it must not be lost.
/// A spool that overflowed refuses for that reason, one that is sealed or closed because the
/// connection is at its end.
pub proof fn places_are_counted(spool: SpoolView, preserve: bool)
    ensures
        ({
            let lets_in = spool.admission is Open || spool.admission is Draining;
            &&& lets_in && spool.depth < 256 ==> spool.plan(preserve) == (EventPlan::Send {
                overload: false,
            }) && spool.asked() == spool
            &&& lets_in && spool.depth >= 256 && preserve ==> spool.plan(preserve) == (
            EventPlan::Send { overload: true })
            &&& lets_in && spool.depth >= 256 && !preserve ==> spool.plan(preserve) == (
            EventPlan::Refuse { error: EventReservationError::Overflowed, overload: true })
            &&& lets_in && spool.depth >= 256 ==> spool.asked().overflowed
                && spool.asked().admission is Overflowed && spool.asked().depth == spool.depth
                && spool.asked().tickets == spool.tickets
            &&& spool.admission is Overflowed ==> spool.plan(preserve) == (EventPlan::Refuse {
                error: EventReservationError::Overflowed,
                overload: false,
            }) && spool.asked() == spool
            &&& spool.admission is Sealed || spool.admission is Terminal ==> spool.plan(preserve)
                == (EventPlan::Refuse { error: EventReservationError::Closed, overload: false })
                && spool.asked() == spool
        }),
        spool.wf() ==> spool.depth <= 258,
{
}

/// A report that the queue took has one place, and one ticket where it waits for bytes. One that
/// the queue did not take has neither, and overflows the spool; that is told, and the connection
/// closed.
pub proof fn taken_reports_are_counted(
    spool: SpoolView,
    overload: bool,
    accepted: bool,
    ticketed: bool,
)
    ensures
        ({
            let after = spool.settled(accepted, ticketed);
            let told = outcome(overload, accepted);
            &&& accepted ==> after.depth == spool.depth + 1 && after.admission == spool.admission
                && after.overflowed == spool.overflowed && told.error is None && told.overload
                == overload
            &&& accepted && ticketed ==> after.tickets == spool.tickets + 1
            &&& accepted && !ticketed ==> after.tickets == spool.tickets
            &&& !accepted ==> after.depth == spool.depth && after.tickets == spool.tickets
                && after.overflowed && after.admission is Overflowed && told.error == Some(
                EventReservationError::Overflowed,
            ) && told.overload
        }),
{
}

/// Draining and sealing change nothing but what is let in: an open spool drains and still lets
/// reports in; a sealed one lets none in; a closed one stays closed.
pub proof fn shutting_keeps_the_count(spool: SpoolView)
    ensures
        spool.admission is Open ==> spool.draining().admission is Draining,
        !(spool.admission is Open) ==> spool.draining() == spool,
        spool.draining().admits() == spool.admits(),
        spool.admission is Terminal ==> spool.sealed() == spool,
        !(spool.admission is Terminal) ==> spool.sealed().admission is Sealed,
        !spool.sealed().admits(),
        spool.draining().depth == spool.depth && spool.sealed().depth == spool.depth,
        spool.draining().tickets == spool.tickets && spool.sealed().tickets == spool.tickets,
        spool.draining().overflowed == spool.overflowed && spool.sealed().overflowed
            == spool.overflowed,
{
}

} // verus!
