use cmppprotocol::connection::outbound::Outbound;
use cmppprotocol::connection::reader::ReadStep;
use cmppprotocol::connection::session::{HeartbeatAdmission, HeartbeatStart, Limits, Session};
use cmppprotocol::connection::timeouts::{HeartbeatTimeout, SubmitTimeout};
use cmppprotocol::connection::writer::{write_timeout_reason, WriteStep};
use cmppprotocol::encoding::UdhRefCounter;
use cmppprotocol::{Error, Event, Frame, Pdu, SubmitOptions, SubmitResp};

const TIMEOUT: u128 = 60_000;

fn session(retry_count: u32) -> Session<u8> {
    Session::new(Limits {
        response_timeout: TIMEOUT,
        retry_count,
        window_size: 4,
        submit_retry_batch_size: 1,
    })
}

fn queue_submit(s: &mut Session<u8>) -> Outbound {
    let options = SubmitOptions::new("SVC", "901234", "10690001", "13800138000");
    let submit = options
        .build_submits("hello", &mut UdhRefCounter::new())
        .remove(0);
    let lease = s.reserve_next().unwrap();
    let (lease, key, packet) = s.begin_submit(lease, &submit).unwrap();
    assert!(s.has_room(&lease));
    s.admit_submit(lease, key, packet, 1).unwrap()
}

fn queue_heartbeat(s: &mut Session<u8>) -> Outbound {
    match s.begin_heartbeat() {
        HeartbeatStart::Ready(lease, key) => match s.admit_heartbeat(lease, key) {
            HeartbeatAdmission::Queued(outbound) => outbound,
            _ => panic!("not queued"),
        },
        _ => panic!("not ready"),
    }
}

fn write(s: &mut Session<u8>, outbound: Outbound, is_submit: bool, now: u128) {
    assert!(matches!(
        s.prepare_write(&outbound, is_submit, now),
        WriteStep::Write { .. }
    ));
    s.complete_write(outbound, is_submit, now);
}

#[test]
fn a_submit_is_sent_as_often_as_it_may_be() {
    let mut s = session(3);
    let mut outbound = queue_submit(&mut s);
    let mut sent = 0;
    let mut now = 7;
    loop {
        write(&mut s, outbound, true, now);
        sent += 1;
        assert!(s.check_submits(now + TIMEOUT - 1).is_empty());
        now += TIMEOUT;
        match s.check_submits(now).as_slice() {
            [SubmitTimeout::Resend(key)] => {
                assert_eq!(key.attempt, sent);
                outbound = s.retry_submit(*key).unwrap();
            }
            [SubmitTimeout::GiveUp(key)] => {
                assert_eq!(key.attempt, 3);
                assert!(s.still_awaits(*key));
                let expired = s.expire_submit(*key);
                assert!(expired.retired);
                assert!(expired.end_reason().is_none());
                assert!(matches!(
                    expired.report,
                    Event::SubmitTimeout { sequence_id: 2 }
                ));
                break;
            }
            other => panic!("unexpected {:?}", other),
        }
    }
    assert_eq!(sent, 3);
    assert!(s.check_submits(now).is_empty());
}

#[test]
fn one_attempt_is_all_where_no_more_are_allowed() {
    let mut s = session(1);
    let outbound = queue_submit(&mut s);
    write(&mut s, outbound, true, 0);
    assert!(matches!(
        s.check_submits(TIMEOUT).as_slice(),
        [SubmitTimeout::GiveUp(_)]
    ));
}

#[test]
fn no_more_are_looked_at_than_in_one_go() {
    let mut s = session(3);
    let first = queue_submit(&mut s);
    let second = queue_submit(&mut s);
    write(&mut s, second, true, 1);
    write(&mut s, first, true, 2);
    match s.check_submits(TIMEOUT + 2).as_slice() {
        [SubmitTimeout::Resend(key)] => assert_eq!(key.sequence_id, 3),
        other => panic!("unexpected {:?}", other),
    }
}

#[test]
fn what_waits_in_the_queue_does_not_time_out() {
    let mut s = session(3);
    let outbound = queue_submit(&mut s);
    assert!(s.check_submits(100 * TIMEOUT).is_empty());
    assert!(matches!(
        s.prepare_write(&outbound, true, 0),
        WriteStep::Write { .. }
    ));
    assert!(s.check_submits(100 * TIMEOUT).is_empty());
}

#[test]
fn what_was_answered_does_not_time_out() {
    let mut s = session(3);
    let outbound = queue_submit(&mut s);
    let response = Pdu::SubmitResp(SubmitResp {
        msg_id: [0; 8],
        result: 0,
    });
    assert!(matches!(
        s.prepare_write(&outbound, true, 0),
        WriteStep::Write { .. }
    ));
    assert!(matches!(
        s.read_frame(Frame::new(2, response)),
        ReadStep::Report(Event::SubmitResp { .. }, None)
    ));
    assert!(s.check_submits(100 * TIMEOUT).is_empty());
    s.complete_write(outbound, true, 5);
    assert!(s.check_submits(100 * TIMEOUT).is_empty());
}

#[test]
fn a_heartbeat_ends_the_connection_after_all_its_attempts() {
    let mut s = session(2);
    assert_eq!(s.check_heartbeat(0), HeartbeatTimeout::Nothing);
    let outbound = queue_heartbeat(&mut s);
    write(&mut s, outbound, false, 0);
    assert_eq!(s.check_heartbeat(TIMEOUT - 1), HeartbeatTimeout::Nothing);
    let outbound = match s.check_heartbeat(TIMEOUT) {
        HeartbeatTimeout::Resend(key) => s.retry_heartbeat(key).unwrap(),
        other => panic!("unexpected {:?}", other),
    };
    assert_eq!(s.check_heartbeat(2 * TIMEOUT), HeartbeatTimeout::Nothing);
    write(&mut s, outbound, false, TIMEOUT);
    let step = s.check_heartbeat(2 * TIMEOUT);
    assert_eq!(step, HeartbeatTimeout::Exhausted);
    assert!(matches!(step.end_reason(), Some(Error::Closed)));
    assert!(HeartbeatTimeout::Nothing.end_reason().is_none());
    assert!(matches!(s.begin_heartbeat(), HeartbeatStart::Ready(_, _)));
}

#[test]
fn a_report_comes_out_once_its_response_is_written() {
    let mut s = session(3);
    let outbound = Outbound::event_after_write(
        Pdu::ActiveTestResp.encode(4),
        10,
        Event::SubmitTimeout { sequence_id: 8 },
    );
    assert_eq!(
        s.prepare_write(&outbound, false, 11),
        WriteStep::Write {
            timeout: TIMEOUT - 1
        }
    );
    let written = s.complete_write(outbound, false, 12);
    assert!(written.freed.is_none());
    assert!(matches!(
        written.event,
        Some(Event::SubmitTimeout { sequence_id: 8 })
    ));
    let plain = Outbound::plain(Pdu::ActiveTestResp.encode(4));
    assert!(s.complete_write(plain, false, 13).event.is_none());
}

#[test]
fn a_slow_write_has_its_reason() {
    let slow = std::io::Error::new(std::io::ErrorKind::TimedOut, "slow");
    let plain = Outbound::plain(Pdu::ActiveTestResp.encode(4));
    match write_timeout_reason(&plain, slow) {
        Error::Io(error) => assert_eq!(error.kind(), std::io::ErrorKind::TimedOut),
        other => panic!("unexpected {:?}", other),
    }
    let slow = std::io::Error::new(std::io::ErrorKind::TimedOut, "slow");
    let response = Outbound::event_after_write(
        Pdu::ActiveTestResp.encode(4),
        10,
        Event::SubmitTimeout { sequence_id: 8 },
    );
    assert!(matches!(
        write_timeout_reason(&response, slow),
        Error::Timeout
    ));
}

#[test]
fn a_queue_that_is_gone_is_an_error_of_an_open_connection() {
    let mut s = session(3);
    assert!(matches!(s.queue_gone(), Error::ChannelClosed));
    assert!(!s.is_peer_terminate_seen());
    s.read_frame(Frame::new(9, Pdu::Terminate));
    assert!(s.is_peer_terminate_seen());
    assert!(matches!(s.queue_gone(), Error::Closed));
}
