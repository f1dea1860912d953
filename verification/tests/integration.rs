use bytes::BytesMut;
use cmppprotocol::connection::events::EventPlan;
use cmppprotocol::connection::handshake::{check_connect_resp, check_settings, login};
use cmppprotocol::connection::message::prepare_submits;
use cmppprotocol::connection::reader::{deliver_response, ReadStep};
use cmppprotocol::connection::session::Session;
use cmppprotocol::connection::timing::limits_of;
use cmppprotocol::connection::udh::{UdhReferencePool, DEFAULT_UDH_REFERENCE_COOLDOWN};
use cmppprotocol::connection::writer::WriteStep;
use cmppprotocol::encoding::UdhRefCounter;
use cmppprotocol::{
    compute_authenticator_ismg, CmppConfig, CmppFrameCodec, CmppProtocolParams, ConnectResp,
    Deliver, Error, Event, Frame, Pdu, SubmitOptions, SubmitResp, CMPP_VERSION_20,
};

const SECRET: &str = "secret";

/// One direction of the link between client and gateway.
struct Wire {
    codec: CmppFrameCodec,
    bytes: BytesMut,
}

impl Wire {
    fn new() -> Wire {
        Wire {
            codec: CmppFrameCodec::default(),
            bytes: BytesMut::new(),
        }
    }

    fn send(&mut self, packet: &[u8]) {
        self.bytes.extend_from_slice(packet);
    }

    fn receive(&mut self) -> Frame {
        self.codec.decode(&mut self.bytes).unwrap().unwrap()
    }
}

fn config() -> CmppConfig {
    CmppConfig {
        host: "127.0.0.1".into(),
        port: 7890,
        account: "901234".into(),
        password: SECRET.into(),
        version: CMPP_VERSION_20,
        protocol_params: CmppProtocolParams::default(),
    }
}

fn status_report_content(msg_id: [u8; 8]) -> Vec<u8> {
    let mut content = Vec::new();
    content.extend_from_slice(&msg_id);
    content.extend_from_slice(b"DELIVRD");
    content.extend_from_slice(b"2406061200");
    content.extend_from_slice(b"2406061201");
    let mut dest = b"13800138000".to_vec();
    dest.resize(21, 0);
    content.extend_from_slice(&dest);
    content.extend_from_slice(&7u32.to_be_bytes());
    content
}

#[test]
fn connect_submit_and_receive_report() {
    let msg_id = [1u8, 2, 3, 4, 5, 6, 7, 8];
    let mut to_gateway = Wire::new();
    let mut to_client = Wire::new();

    // The login.
    let config = config();
    check_settings(&config, DEFAULT_UDH_REFERENCE_COOLDOWN).unwrap();
    let (connect, packet) = login(&config);
    to_gateway.send(&packet);
    let frame = to_gateway.receive();
    let seen = match frame.pdu {
        Pdu::Connect(c) => c,
        other => panic!("期望 CONNECT，实际收到 {:#010x}", other.command_id()),
    };
    let resp = Pdu::ConnectResp(ConnectResp {
        status: 0,
        authenticator_ismg: compute_authenticator_ismg(0, &seen.authenticator_source, SECRET),
        version: 0x20,
    });
    to_client.send(&resp.encode(frame.sequence_id));
    check_connect_resp(
        to_client.receive(),
        &connect.authenticator_source,
        &config.password,
        config.protocol_params.verify_authenticator,
    )
    .expect("connect 应成功");

    // The message goes out.
    let mut session: Session<()> = Session::new(limits_of(&config.protocol_params));
    let options = SubmitOptions::new("SVC", "901234", "10690001", "13800138000");
    let (submits, reference) = prepare_submits(
        &options,
        "hi",
        &mut UdhRefCounter::new(),
        &mut UdhReferencePool::new(),
        DEFAULT_UDH_REFERENCE_COOLDOWN,
        0,
    )
    .expect("submit 应成功");
    assert!(reference.is_none());
    assert_eq!(submits.len(), 1);
    let lease = session.reserve_next().unwrap();
    let (lease, key, packet) = session.begin_submit(lease, &submits[0]).unwrap();
    assert!(session.has_room(&lease));
    let outbound = session.admit_submit(lease, key, packet, ()).unwrap();
    assert!(matches!(
        session.prepare_write(&outbound, true, 1),
        WriteStep::Write { .. }
    ));
    to_gateway.send(&outbound.packet);
    session.complete_write(outbound, true, 2);

    // The gateway answers and sends a status report.
    let frame = to_gateway.receive();
    let submit = match frame.pdu {
        Pdu::Submit(s) => s,
        other => panic!("期望 SUBMIT，实际收到 {:#010x}", other.command_id()),
    };
    assert_eq!(submit.dest_terminal_ids, vec!["13800138000".to_string()]);
    let sr = Pdu::SubmitResp(SubmitResp { msg_id, result: 0 });
    to_client.send(&sr.encode(frame.sequence_id));
    let deliver = Pdu::Deliver(Deliver {
        msg_id,
        dest_id: "10690001".into(),
        service_id: "SVC".into(),
        tp_pid: 0,
        tp_udhi: 0,
        msg_fmt: 0,
        src_terminal_id: "13800138000".into(),
        registered_delivery: 1,
        msg_content: status_report_content(msg_id),
    });
    to_client.send(&deliver.encode(100));

    // Both are reported.
    match session.read_frame(to_client.receive()) {
        ReadStep::Report(
            Event::SubmitResp {
                sequence_id,
                msg_id: mid,
                result,
            },
            Some(()),
        ) => {
            assert_eq!(sequence_id, key.sequence_id);
            assert_eq!(mid, msg_id);
            assert_eq!(result, 0);
        }
        _ => panic!("应同时收到 SubmitResp 和 Deliver report"),
    }
    let (deliver, response) = match session.read_frame(to_client.receive()) {
        ReadStep::Deliver(deliver, response) => (deliver, response),
        _ => panic!("应同时收到 SubmitResp 和 Deliver report"),
    };
    assert_eq!(
        session.spool().plan_event(true),
        EventPlan::Send { overload: false }
    );
    assert!(session.spool().settle_event(false, true, true).error.is_none());
    let outbound = deliver_response(deliver, response, 3);
    assert_eq!(outbound.response_budget_started_at, Some(3));
    assert!(matches!(
        session.prepare_write(&outbound, false, 4),
        WriteStep::Write { .. }
    ));
    to_gateway.send(&outbound.packet);
    match session.complete_write(outbound, false, 5).event {
        Some(Event::Deliver(deliver)) => {
            let report = deliver.report().expect("应为 status report");
            assert_eq!(report.stat, "DELIVRD");
            assert_eq!(report.msg_id, msg_id);
            assert_eq!(report.dest_terminal_id, "13800138000");
        }
        other => panic!("收到非预期 event: {:?}", other),
    }
    let frame = to_gateway.receive();
    assert_eq!(frame.sequence_id, 100);
    match frame.pdu {
        Pdu::DeliverResp(resp) => {
            assert_eq!(resp.msg_id, msg_id);
            assert_eq!(resp.result, 0);
        }
        other => panic!("unexpected {:?}", other),
    }
}

#[test]
fn rejects_bad_authenticator() {
    let mut to_gateway = Wire::new();
    let mut to_client = Wire::new();
    let config = config();
    let (connect, packet) = login(&config);
    to_gateway.send(&packet);
    let frame = to_gateway.receive();
    let resp = Pdu::ConnectResp(ConnectResp {
        status: 0,
        authenticator_ismg: [0xAB; 16],
        version: 0x20,
    });
    to_client.send(&resp.encode(frame.sequence_id));
    let err = check_connect_resp(
        to_client.receive(),
        &connect.authenticator_source,
        &config.password,
        config.protocol_params.verify_authenticator,
    )
    .err()
    .expect("应拒绝连接");
    assert!(matches!(err, Error::AuthenticatorMismatch));
}
