use cmppprotocol::connection::events::{
    terminal_event, EventSpool, EventPlan, EventReservationError, EVENT_SPOOL_NORMAL_CAPACITY,
};
use cmppprotocol::{Error, Event};

fn fill(spool: &mut EventSpool) {
    for _ in 0..EVENT_SPOOL_NORMAL_CAPACITY {
        assert_eq!(spool.plan_event(true), EventPlan::Send { overload: false });
        assert_eq!(spool.settle_event(false, true, false).error, None);
    }
}

#[test]
fn the_queue_overflows_at_its_limit() {
    let mut spool = EventSpool::new();
    fill(&mut spool);
    assert!(!spool.is_overflowed());
    assert_eq!(
        spool.plan_event(false),
        EventPlan::Refuse {
            error: EventReservationError::Overflowed,
            overload: true,
        }
    );
    assert!(spool.is_overflowed());
    assert_eq!(
        spool.plan_event(true),
        EventPlan::Refuse {
            error: EventReservationError::Overflowed,
            overload: false,
        }
    );
}

#[test]
fn one_report_that_must_not_be_lost_has_room_past_the_limit() {
    let mut spool = EventSpool::new();
    fill(&mut spool);
    assert_eq!(spool.plan_event(true), EventPlan::Send { overload: true });
    let outcome = spool.settle_event(true, true, false);
    assert_eq!(outcome.error, None);
    assert!(outcome.overload);
    assert_eq!(
        spool.plan_event(true),
        EventPlan::Refuse {
            error: EventReservationError::Overflowed,
            overload: false,
        }
    );
}

#[test]
fn a_place_that_became_free_can_be_taken() {
    let mut spool = EventSpool::new();
    fill(&mut spool);
    spool.item_done();
    assert_eq!(spool.plan_event(false), EventPlan::Send { overload: false });
}

#[test]
fn a_queue_that_takes_nothing_overflows_the_spool() {
    let mut spool = EventSpool::new();
    assert_eq!(spool.plan_event(true), EventPlan::Send { overload: false });
    let outcome = spool.settle_event(false, false, true);
    assert_eq!(outcome.error, Some(EventReservationError::Overflowed));
    assert!(outcome.overload);
    assert!(spool.is_overflowed());
    assert_eq!(spool.pending_tickets(), 0);
}

#[test]
fn the_spool_is_sealed_when_nothing_waits() {
    let mut spool = EventSpool::new();
    assert_eq!(spool.plan_event(true), EventPlan::Send { overload: false });
    spool.settle_event(false, true, true);
    spool.begin_drain();
    assert_eq!(spool.pending_tickets(), 1);
    assert!(!spool.seal_if_idle());
    assert_eq!(spool.plan_event(true), EventPlan::Send { overload: false });
    spool.settle_event(false, true, false);
    spool.ticket_done();
    assert!(spool.seal_if_idle());
    assert!(spool.seal_if_idle());
    assert_eq!(
        spool.plan_event(true),
        EventPlan::Refuse {
            error: EventReservationError::Closed,
            overload: false,
        }
    );
}

#[test]
fn the_end_is_reported_once() {
    let mut spool = EventSpool::new();
    spool.seal();
    assert!(spool.close());
    spool.settle_end(true);
    assert!(!spool.close());
    spool.seal();
    assert_eq!(
        spool.plan_event(true),
        EventPlan::Refuse {
            error: EventReservationError::Closed,
            overload: false,
        }
    );
}

#[test]
fn the_last_report_names_the_reason() {
    assert!(matches!(
        terminal_event(Some(Error::Timeout), false),
        Some(Event::Disconnected(Error::Timeout))
    ));
    assert!(terminal_event(Some(Error::Timeout), true).is_none());
    assert!(terminal_event(None, false).is_none());
}
