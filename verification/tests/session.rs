use cmppprotocol::connection::events::EventPlan;
use cmppprotocol::connection::handshake::{check_connect_resp, login, CONNECT_SEQUENCE_ID};
use cmppprotocol::connection::lifecycle::{CloseStart, Lifecycle};
use cmppprotocol::connection::outbound::{
    remaining_time, HeartbeatAttemptKey, Outbound, SubmitAttemptKey,
};
use cmppprotocol::connection::reader::{QueueOutcome, ReadFailure, ReadNext, ReadStep};
use cmppprotocol::connection::session::{
    Breakdown, ConnectionPhase, HeartbeatAdmission, HeartbeatStart, Limits, Session,
};
use cmppprotocol::connection::writer::{burst_after, WriteStep, WriterTurn, CONTROL_BURST_LIMIT};
use cmppprotocol::encoding::UdhRefCounter;
use cmppprotocol::{
    compute_authenticator_ismg, CmppConfig, CmppHeader, CmppProtocolParams, ConnectResp, Deliver,
    Error, Event, Frame, Pdu, Submit, SubmitOptions, SubmitResp, CMPP_CONNECT_RESP,
    CMPP_HEADER_LENGTH, CMPP_VERSION_20,
};

const TIMEOUT: u128 = 1_000;

fn session() -> Session<u32> {
    Session::new(Limits {
        response_timeout: TIMEOUT,
        retry_count: 3,
        window_size: 8,
        submit_retry_batch_size: 2,
    })
}

fn submit() -> Submit {
    let options = SubmitOptions::new("SVC", "901234", "10690001", "13800138000");
    options.build_submits("hi", &mut UdhRefCounter::new()).remove(0)
}

fn take_in(session: &mut Session<u32>, resources: u32) -> Outbound {
    let lease = session.reserve_next().unwrap();
    let (lease, key, packet) = session.begin_submit(lease, &submit()).unwrap();
    assert!(session.has_room(&lease));
    session.admit_submit(lease, key, packet, resources).unwrap()
}

fn write(session: &mut Session<u32>, outbound: Outbound, is_submit: bool, now: u128) -> Option<u32> {
    assert_eq!(
        session.prepare_write(&outbound, is_submit, now),
        WriteStep::Write { timeout: TIMEOUT }
    );
    session.complete_write(outbound, is_submit, now).freed
}

fn response(sequence_id: u32) -> Frame {
    Frame::new(
        sequence_id,
        Pdu::SubmitResp(SubmitResp {
            msg_id: [1; 8],
            result: 0,
        }),
    )
}

fn heartbeat(session: &mut Session<u32>) -> (Outbound, HeartbeatAttemptKey) {
    match session.begin_heartbeat() {
        HeartbeatStart::Ready(lease, key) => {
            assert!(session.owns(&lease));
            match session.admit_heartbeat(lease, key) {
                HeartbeatAdmission::Queued(outbound) => (outbound, key),
                _ => panic!("not queued"),
            }
        }
        _ => panic!("not ready"),
    }
}

#[test]
fn a_submit_is_written_and_answered() {
    let mut s = session();
    let outbound = take_in(&mut s, 11);
    let key = outbound.submit_attempt.unwrap();
    assert_eq!(
        key,
        SubmitAttemptKey {
            sequence_id: 2,
            submission_id: 1,
            attempt: 1,
        }
    );
    assert_eq!(
        outbound.packet,
        Pdu::Submit(Box::new(submit())).encode(2)
    );
    assert_eq!(write(&mut s, outbound, true, 5), None);
    assert!(s.still_awaits(key));
    match s.read_frame(response(2)) {
        ReadStep::Report(
            Event::SubmitResp {
                sequence_id,
                msg_id,
                result,
            },
            Some(11),
        ) => {
            assert_eq!(sequence_id, 2);
            assert_eq!(msg_id, [1; 8]);
            assert_eq!(result, 0);
        }
        _ => panic!("not reported"),
    }
    assert!(matches!(s.read_frame(response(2)), ReadStep::Nothing(None)));
}

#[test]
fn a_response_during_the_write_is_reported_once_and_frees_later() {
    let mut s = session();
    let outbound = take_in(&mut s, 12);
    assert_eq!(
        s.prepare_write(&outbound, true, 0),
        WriteStep::Write { timeout: TIMEOUT }
    );
    assert!(matches!(
        s.read_frame(response(2)),
        ReadStep::Report(_, None)
    ));
    assert!(matches!(s.read_frame(response(2)), ReadStep::Nothing(None)));
    assert_eq!(s.complete_write(outbound, true, 3).freed, Some(12));
}

#[test]
fn a_response_before_the_write_makes_it_stale() {
    let mut s = session();
    let outbound = take_in(&mut s, 13);
    assert!(matches!(
        s.read_frame(response(2)),
        ReadStep::Report(_, Some(13))
    ));
    assert_eq!(s.prepare_write(&outbound, true, 0), WriteStep::Skip);
}

#[test]
fn a_submit_is_retried_until_it_is_given_up() {
    let mut s = session();
    let mut outbound = take_in(&mut s, 14);
    let mut now = 0;
    for attempt in 1..=2 {
        write(&mut s, outbound, true, now);
        assert!(s.expired_submits(now + TIMEOUT - 1).is_empty());
        now += TIMEOUT;
        let keys = s.expired_submits(now);
        assert_eq!(keys.len(), 1);
        assert_eq!(keys[0].attempt, attempt);
        assert!(s.has_attempts_left(keys[0].attempt));
        outbound = s.retry_submit(keys[0]).unwrap();
        assert_eq!(outbound.submit_attempt.unwrap().attempt, attempt + 1);
        assert!(s.retry_submit(keys[0]).is_none());
    }
    write(&mut s, outbound, true, now);
    let keys = s.expired_submits(now + TIMEOUT);
    assert!(!s.has_attempts_left(keys[0].attempt));
    assert!(s.still_awaits(keys[0]));
    let expired = s.expire_submit(keys[0]);
    assert_eq!(expired.resources, 14);
    assert!(expired.retired);
    assert!(matches!(s.read_frame(response(2)), ReadStep::Nothing(None)));
    assert!(!s.still_awaits(keys[0]));
}

#[test]
fn the_oldest_submits_time_out_first() {
    let mut s = session();
    let mut outbounds: Vec<Outbound> = (0..4).map(|i| take_in(&mut s, i)).collect();
    write(&mut s, outbounds.remove(3), true, 1);
    write(&mut s, outbounds.remove(1), true, 2);
    write(&mut s, outbounds.remove(0), true, 2);
    write(&mut s, outbounds.remove(0), true, 900);
    let ids: Vec<u32> = s
        .expired_submits(TIMEOUT + 2)
        .iter()
        .map(|k| k.sequence_id)
        .collect();
    assert_eq!(ids, vec![5, 2]);
}

#[test]
fn nothing_is_taken_in_once_the_connection_closes() {
    let mut s = session();
    let queued = take_in(&mut s, 1);
    let lease = s.reserve_next().unwrap();
    let (lease, key, packet) = s.begin_submit(lease, &submit()).unwrap();
    assert!(s.begin_closing(false));
    assert!(!s.begin_closing(true));
    assert!(s.has_room(&lease));
    assert!(matches!(
        s.admit_submit(lease, key, packet, 2),
        Err(Error::Closed)
    ));
    assert_eq!(s.prepare_write(&queued, true, 0), WriteStep::Skip);
    assert_eq!(s.writer_turn(0), WriterTurn::ControlOnly);
}

#[test]
fn a_submit_that_cannot_be_encoded_gives_its_lease_up() {
    let mut s = session();
    let mut bad = submit();
    bad.msg_content = vec![0; 256];
    let lease = s.reserve_batch(50, 1).unwrap().remove(0);
    assert!(matches!(
        s.begin_submit(lease, &bad),
        Err(Error::Config(_))
    ));
    assert!(s.reserve_batch(50, 1).is_ok());
}

#[test]
fn a_named_id_is_spent_when_it_is_used() {
    let mut s = session();
    let lease = s.reserve_batch(700, 1).unwrap().remove(0);
    let (lease, key, packet) = s.begin_submit(lease, &submit()).unwrap();
    let outbound = s.admit_submit(lease, key, packet, 3).unwrap();
    write(&mut s, outbound, true, 0);
    assert!(matches!(
        s.read_frame(response(700)),
        ReadStep::Report(_, Some(3))
    ));
    match s.reserve_batch(700, 1) {
        Err(Error::Config(text)) => assert_eq!(
            text,
            "base_sequence_id 区间超过 255 段、包含重复值或已被当前 connection 使用"
        ),
        other => panic!("unexpected {:?}", other),
    }
}

#[test]
fn the_window_has_a_limit() {
    let mut s = session();
    for i in 0..8 {
        take_in(&mut s, i);
    }
    let lease = s.reserve_next().unwrap();
    assert!(!s.has_room(&lease));
    s.give_up(lease);
    assert!(matches!(
        s.read_frame(response(2)),
        ReadStep::Report(_, Some(0))
    ));
    let lease = s.reserve_next().unwrap();
    assert_eq!(lease.id(), 11);
    assert!(s.has_room(&lease));
}

#[test]
fn one_heartbeat_at_a_time_is_sent_and_answered() {
    let mut s = session();
    let (outbound, key) = heartbeat(&mut s);
    assert_eq!(outbound.packet, Pdu::ActiveTest.encode(2));
    assert_eq!(key.heartbeat_id, 1);
    assert!(matches!(s.begin_heartbeat(), HeartbeatStart::Busy));
    assert_eq!(write(&mut s, outbound, false, 0), None);
    assert!(matches!(
        s.read_frame(Frame::new(9, Pdu::ActiveTestResp)),
        ReadStep::Nothing(None)
    ));
    assert!(matches!(s.begin_heartbeat(), HeartbeatStart::Busy));
    s.read_frame(Frame::new(2, Pdu::ActiveTestResp));
    assert!(matches!(s.begin_heartbeat(), HeartbeatStart::Ready(_, _)));
}

#[test]
fn a_heartbeat_is_retried_until_it_is_exhausted() {
    let mut s = session();
    let (mut outbound, _) = heartbeat(&mut s);
    let mut now = 0;
    for attempt in 1..=2 {
        write(&mut s, outbound, false, now);
        assert!(s.expired_heartbeat(now + TIMEOUT - 1).is_none());
        now += TIMEOUT;
        let key = s.expired_heartbeat(now).unwrap();
        assert_eq!(key.attempt, attempt);
        outbound = s.retry_heartbeat(key).unwrap();
        assert!(!s.exhaust_heartbeat(key));
    }
    write(&mut s, outbound, false, now);
    let key = s.expired_heartbeat(now + TIMEOUT).unwrap();
    assert!(!s.has_attempts_left(key.attempt));
    assert!(s.exhaust_heartbeat(key));
    assert!(s.expired_heartbeat(now + TIMEOUT).is_none());
}

#[test]
fn a_heartbeat_is_not_sent_on_a_closing_connection() {
    let mut s = session();
    let start = s.begin_heartbeat();
    let (queued, _) = {
        let mut other = session();
        heartbeat(&mut other)
    };
    s.begin_closing(true);
    match start {
        HeartbeatStart::Ready(lease, key) => assert!(matches!(
            s.admit_heartbeat(lease, key),
            HeartbeatAdmission::Closed
        )),
        _ => panic!("not ready"),
    }
    assert_eq!(s.prepare_write(&queued, false, 0), WriteStep::Skip);
}

#[test]
fn control_messages_come_first_but_not_for_ever() {
    let s = session();
    assert_eq!(s.writer_turn(0), WriterTurn::ControlFirst);
    assert_eq!(
        s.writer_turn(CONTROL_BURST_LIMIT - 1),
        WriterTurn::ControlFirst
    );
    assert_eq!(s.writer_turn(CONTROL_BURST_LIMIT), WriterTurn::SubmitsFirst);
    assert_eq!(burst_after(3, false), 4);
    assert_eq!(burst_after(3, true), 0);
    assert_eq!(burst_after(usize::MAX, false), usize::MAX);
}

#[test]
fn a_response_with_a_budget_must_be_written_in_time() {
    let mut s = session();
    let outbound = Outbound::event_after_write(
        Pdu::ActiveTest.encode(1),
        100,
        Event::SubmitTimeout { sequence_id: 9 },
    );
    assert_eq!(
        s.prepare_write(&outbound, false, 400),
        WriteStep::Write { timeout: 700 }
    );
    assert_eq!(
        s.prepare_write(&outbound, false, 100 + TIMEOUT),
        WriteStep::Overdue
    );
    assert_eq!(remaining_time(10, 5, 3), Some(10));
    assert_eq!(remaining_time(10, 5, 14), Some(1));
    assert_eq!(remaining_time(10, 5, 15), None);
}

#[test]
fn a_submit_without_an_attempt_is_broken() {
    let mut s = session();
    let outbound = Outbound::plain(Pdu::ActiveTest.encode(1));
    assert_eq!(s.prepare_write(&outbound, true, 0), WriteStep::Broken);
    assert_eq!(
        s.prepare_write(&outbound, false, 0),
        WriteStep::Write { timeout: TIMEOUT }
    );
    let open_only = Outbound::open_only(Pdu::ActiveTest.encode(1));
    s.begin_closing(true);
    assert_eq!(s.prepare_write(&open_only, false, 0), WriteStep::Skip);
}

#[test]
fn accepted_submits_are_sent_before_a_graceful_end() {
    let mut s = session();
    let queued = take_in(&mut s, 1);
    assert_eq!(s.start_close(), CloseStart::Graceful);
    assert_eq!(s.start_close(), CloseStart::Nothing);
    assert_eq!(s.phase(), ConnectionPhase::Closing);
    assert_eq!(s.writer_turn(0), WriterTurn::ControlFirst);
    assert_eq!(
        s.prepare_write(&queued, true, 0),
        WriteStep::Write { timeout: TIMEOUT }
    );
    let marker = Outbound::submit_drain_marker();
    assert_eq!(s.prepare_write(&marker, true, 0), WriteStep::Acknowledge);
    assert_eq!(s.writer_turn(0), WriterTurn::ControlOnly);

    assert!(!s.is_terminate_begun());
    let outbound = s.begin_terminate().unwrap();
    assert!(s.is_terminate_begun());
    assert_eq!(outbound.packet, Pdu::Terminate.encode(3));
    assert!(!s.is_terminate_written());
    write(&mut s, outbound, false, 0);
    assert!(s.is_terminate_written());
    assert!(matches!(
        s.read_frame(Frame::new(9, Pdu::TerminateResp)),
        ReadStep::Nothing(None)
    ));
    assert!(matches!(
        s.read_frame(Frame::new(3, Pdu::TerminateResp)),
        ReadStep::TerminateAnswered
    ));
    assert!(s.close_reason().is_none());
    assert!(s.finish(None));
    assert_eq!(s.writer_turn(0), WriterTurn::Shutdown);
    assert!(s.is_terminate_begun());
    assert_eq!(s.start_close(), CloseStart::Nothing);
}

#[test]
fn closing_is_for_good() {
    let mut s = session();
    assert_eq!(s.start_close(), CloseStart::Graceful);
    assert!(!s.begin_closing(true));
    s.cleanup();
    assert_eq!(s.start_close(), CloseStart::Nothing);
    assert_eq!(s.phase(), ConnectionPhase::Closing);
    let lease = s.reserve_next().unwrap();
    let (lease, key, packet) = s.begin_submit(lease, &submit()).unwrap();
    assert!(s.has_room(&lease));
    assert!(matches!(
        s.admit_submit(lease, key, packet, 2),
        Err(Error::Closed)
    ));
    assert!(s.finish(None));
    assert_eq!(s.start_close(), CloseStart::Nothing);
    assert!(!s.begin_closing(true));
    assert_eq!(s.phase(), ConnectionPhase::Closed);
}

#[test]
fn a_breakdown_has_its_reason() {
    assert!(matches!(
        Breakdown::NoSequenceId.end_reason(),
        Error::ChannelClosed
    ));
    assert!(matches!(
        Breakdown::NotRetired.end_reason(),
        Error::ChannelClosed
    ));
    assert!(matches!(
        Breakdown::Overload.end_reason(),
        Error::ChannelClosed
    ));
    assert!(matches!(
        Breakdown::NothingToWrite.end_reason(),
        Error::ChannelClosed
    ));
    assert!(matches!(
        Breakdown::HeartbeatLost.end_reason(),
        Error::Closed
    ));
    assert!(matches!(
        WriteStep::Broken.end_reason(),
        Some(Error::ChannelClosed)
    ));
    assert!(matches!(
        WriteStep::Overdue.end_reason(),
        Some(Error::Timeout)
    ));
    assert!(WriteStep::Skip.end_reason().is_none());
    let mut s = session();
    assert!(s.begin_heartbeat().end_reason().is_none());
    assert!(matches!(
        HeartbeatStart::Exhausted.end_reason(),
        Some(Error::ChannelClosed)
    ));
    assert!(matches!(s.queue_loss(), Some(Error::ChannelClosed)));
    assert!(matches!(s.after_reply(true), ReadNext::Continue));
    assert!(matches!(
        s.after_reply(false),
        ReadNext::End(Error::ChannelClosed)
    ));
    s.begin_closing(false);
    assert!(s.queue_loss().is_none());
}

#[test]
fn a_terminate_of_the_peer_is_answered_and_ends_the_connection() {
    let mut s = session();
    let step = s.read_frame(Frame::new(77, Pdu::Terminate));
    let outbound = match step {
        ReadStep::PeerTerminate(outbound) => outbound,
        _ => panic!("not a terminate"),
    };
    assert_eq!(outbound.packet, Pdu::TerminateResp.encode(77));
    assert_eq!(s.phase(), ConnectionPhase::Closing);
    let local = s.begin_terminate().unwrap();
    write(&mut s, outbound, false, 0);
    assert!(s.is_peer_answered());
    assert_eq!(s.prepare_write(&local, false, 0), WriteStep::Skip);
    assert!(matches!(
        s.after_peer_terminate(true),
        ReadNext::End(Error::Terminated)
    ));
    assert!(matches!(s.close_reason(), Some(Error::Terminated)));
    assert!(s.finish(Some(Error::Timeout)));
    assert!(!s.finish(None));
    let ending = s.cleanup();
    assert!(ending.report);
    assert!(matches!(ending.reason, Some(Error::Terminated)));
    s.spool().settle_end(true);
    assert!(!s.cleanup().report);
}

#[test]
fn a_terminate_that_crosses_another_waits_for_its_response() {
    let mut s = session();
    let local = s.begin_terminate().unwrap();
    write(&mut s, local, false, 0);
    s.read_frame(Frame::new(77, Pdu::Terminate));
    assert!(matches!(s.after_peer_terminate(true), ReadNext::Continue));
    assert!(matches!(
        s.after_peer_terminate(false),
        ReadNext::End(Error::Terminated)
    ));
}

#[test]
fn an_overload_is_the_reason_of_the_end() {
    let mut s = session();
    for _ in 0..256 {
        assert_eq!(
            s.spool().plan_event(true),
            EventPlan::Send { overload: false }
        );
        s.spool().settle_event(false, true, false);
    }
    assert_eq!(
        s.spool().plan_event(true),
        EventPlan::Send { overload: true }
    );
    s.spool().settle_event(true, true, false);
    let outbound = take_in(&mut s, 5);
    write(&mut s, outbound, true, 0);
    assert!(matches!(
        s.read_frame(response(2)),
        ReadStep::Nothing(Some(5))
    ));
    s.finish(Some(Error::Closed));
    assert!(matches!(s.cleanup().reason, Some(Error::ChannelClosed)));
}

#[test]
fn cleaning_up_frees_what_waits() {
    let mut s = session();
    take_in(&mut s, 1);
    let lease = s.reserve_batch(900, 1).unwrap().remove(0);
    assert_eq!(lease.id(), 900);
    heartbeat(&mut s);
    s.finish(None);
    let ending = s.cleanup();
    assert!(ending.report && ending.reason.is_none());
    assert!(matches!(s.read_frame(response(2)), ReadStep::Nothing(None)));
    assert!(matches!(s.begin_heartbeat(), HeartbeatStart::Ready(_, _)));
}

#[test]
fn a_deliver_is_acknowledged() {
    let mut s = session();
    let deliver = Deliver {
        msg_id: [4; 8],
        dest_id: "10690001".into(),
        service_id: "SVC".into(),
        tp_pid: 0,
        tp_udhi: 0,
        msg_fmt: 0,
        src_terminal_id: "13800138000".into(),
        registered_delivery: 0,
        msg_content: b"hello".to_vec(),
    };
    match s.read_frame(Frame::new(100, Pdu::Deliver(deliver.clone()))) {
        ReadStep::Deliver(d, packet) => {
            assert_eq!(d, deliver);
            assert_eq!(
                packet.as_ref(),
                &[0, 0, 0, 21, 0x80, 0, 0, 5, 0, 0, 0, 100, 4, 4, 4, 4, 4, 4, 4, 4, 0]
            );
        }
        _ => panic!("not a deliver"),
    }
    assert!(matches!(
        s.after_deliver(QueueOutcome::Queued),
        ReadNext::Continue
    ));
    assert!(matches!(
        s.after_deliver(QueueOutcome::Refused),
        ReadNext::End(Error::ChannelClosed)
    ));
    assert!(matches!(
        s.after_deliver(QueueOutcome::TimedOut),
        ReadNext::End(Error::Timeout)
    ));
    s.finish(None);
    assert!(matches!(
        s.after_deliver(QueueOutcome::Refused),
        ReadNext::Stop
    ));
}

#[test]
fn a_probe_is_answered_and_strange_frames_are_named() {
    let mut s = session();
    match s.read_frame(Frame::new(8, Pdu::ActiveTest)) {
        ReadStep::Reply(packet) => assert_eq!(packet, Pdu::ActiveTestResp.encode(8)),
        _ => panic!("not answered"),
    }
    let strange = Frame::new(
        1,
        Pdu::ConnectResp(ConnectResp {
            status: 0,
            authenticator_ismg: [0; 16],
            version: 0x20,
        }),
    );
    assert!(matches!(
        s.read_frame(strange),
        ReadStep::Unexpected(CMPP_CONNECT_RESP)
    ));
    assert!(matches!(ReadFailure::EndOfStream.reason(), Error::Closed));
    assert!(matches!(ReadFailure::Idle.reason(), Error::Timeout));
    assert!(matches!(
        ReadFailure::Frame(Error::Decode("x".into())).reason(),
        Error::Decode(_)
    ));
}

#[test]
fn handles_and_tasks_are_counted() {
    let mut life = Lifecycle::new();
    life.add_handle();
    assert!(!life.drop_handle());
    assert!(life.drop_handle());
    assert!(!life.worker_done());
    assert!(!life.worker_done());
    assert!(!life.worker_done());
    assert!(life.worker_done());
    assert!(life.start_takeover());
    assert!(!life.start_takeover());
    life.end_takeover();
    assert!(life.start_takeover());
    let mut s = session();
    s.finish(None);
    assert_eq!(s.start_close(), CloseStart::Reap);
}

fn config() -> CmppConfig {
    CmppConfig {
        host: "127.0.0.1".into(),
        port: 7890,
        account: "901234".into(),
        password: "secret".into(),
        version: CMPP_VERSION_20,
        protocol_params: CmppProtocolParams::default(),
    }
}

fn read(bytes: &[u8]) -> Pdu {
    let header = CmppHeader {
        total_length: bytes.len() as u32,
        command_id: u32::from_be_bytes([bytes[4], bytes[5], bytes[6], bytes[7]]),
        sequence_id: u32::from_be_bytes([bytes[8], bytes[9], bytes[10], bytes[11]]),
    };
    Pdu::decode(header, &bytes[CMPP_HEADER_LENGTH..]).unwrap()
}

#[test]
fn a_login_is_accepted_from_who_knows_the_secret() {
    let (connect, packet) = login(&config());
    let seen = match read(&packet) {
        Pdu::Connect(c) => c,
        other => panic!("unexpected {:?}", other),
    };
    assert_eq!(seen, connect);
    assert_eq!(seen.source_addr, "901234");
    let resp = ConnectResp {
        status: 0,
        authenticator_ismg: compute_authenticator_ismg(0, &seen.authenticator_source, "secret"),
        version: 0x20,
    };
    let frame = Frame::new(CONNECT_SEQUENCE_ID, Pdu::ConnectResp(resp.clone()));
    assert_eq!(
        check_connect_resp(frame, &connect.authenticator_source, "secret", true).unwrap(),
        resp
    );
}

#[test]
fn a_login_is_refused_with_the_reason() {
    let (connect, _) = login(&config());
    let answer = |status: u8| {
        Frame::new(
            1,
            Pdu::ConnectResp(ConnectResp {
                status,
                authenticator_ismg: [0xAB; 16],
                version: 0x20,
            }),
        )
    };
    let source = connect.authenticator_source;
    assert!(matches!(
        check_connect_resp(answer(0), &source, "secret", true),
        Err(Error::AuthenticatorMismatch)
    ));
    assert!(check_connect_resp(answer(0), &source, "secret", false).is_ok());
    assert!(matches!(
        check_connect_resp(answer(3), &source, "secret", true),
        Err(Error::Auth(3))
    ));
    match check_connect_resp(Frame::new(1, Pdu::ActiveTest), &source, "secret", true) {
        Err(Error::Connect(text)) => assert_eq!(
            text,
            "期望 CONNECT_RESP，实际收到 command 0x00000008"
        ),
        other => panic!("unexpected {:?}", other),
    }
}

#[test]
fn a_window_of_any_size_can_be_asked_for() {
    let s: Session<u32> = Session::new(Limits {
        response_timeout: TIMEOUT,
        retry_count: 3,
        window_size: usize::MAX,
        submit_retry_batch_size: 1,
    });
    assert_eq!(s.limits().window_size, usize::MAX);
    assert_eq!(s.phase(), ConnectionPhase::Open);
}
