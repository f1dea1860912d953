use cmppprotocol::pdu::pack_timestamp;
use cmppprotocol::{
    compute_authenticator_ismg, compute_authenticator_source, CmppHeader, Connect, ConnectResp,
    Deliver, DeliverReport, DeliverResp, Error, Event, Frame, Pdu, Submit, SubmitResp,
    CMPP_ACTIVE_TEST, CMPP_ACTIVE_TEST_RESP, CMPP_CONNECT, CMPP_DELIVER, CMPP_HEADER_LENGTH,
    CMPP_SUBMIT, CMPP_TERMINATE,
};

fn round_trip(pdu: Pdu, seq: u32) -> Pdu {
    let bytes = pdu.encode(seq);
    let total = u32::from_be_bytes([bytes[0], bytes[1], bytes[2], bytes[3]]) as usize;
    assert_eq!(total, bytes.len());
    let header = CmppHeader {
        total_length: total as u32,
        command_id: u32::from_be_bytes([bytes[4], bytes[5], bytes[6], bytes[7]]),
        sequence_id: u32::from_be_bytes([bytes[8], bytes[9], bytes[10], bytes[11]]),
    };
    assert_eq!(header.sequence_id, seq);
    Pdu::decode(header, &bytes[CMPP_HEADER_LENGTH..]).unwrap()
}

fn header(command_id: u32, body: &[u8]) -> CmppHeader {
    CmppHeader {
        total_length: (CMPP_HEADER_LENGTH + body.len()) as u32,
        command_id,
        sequence_id: 1,
    }
}

fn decode_error(command_id: u32, body: &[u8]) -> String {
    match Pdu::decode(header(command_id, body), body) {
        Err(Error::Decode(text)) => text,
        other => panic!("expected a decode error, got {:?}", other),
    }
}

fn sample_submit() -> Submit {
    Submit {
        msg_id: [0u8; 8],
        pk_total: 1,
        pk_number: 1,
        registered_delivery: 1,
        msg_level: 0,
        service_id: "SVC".into(),
        fee_user_type: 2,
        fee_terminal_id: String::new(),
        tp_pid: 0,
        tp_udhi: 0,
        msg_fmt: 8,
        msg_src: "901234".into(),
        fee_type: "01".into(),
        fee_code: "000000".into(),
        valid_time: String::new(),
        at_time: String::new(),
        src_id: "10690001".into(),
        dest_terminal_ids: vec!["13800138000".into(), "13800138001".into()],
        msg_content: vec![0x4f, 0x60],
    }
}

fn sample_deliver(content: Vec<u8>) -> Deliver {
    Deliver {
        msg_id: [0u8; 8],
        dest_id: "10690001".into(),
        service_id: "SVC".into(),
        tp_pid: 0,
        tp_udhi: 0,
        msg_fmt: 0,
        src_terminal_id: "13800138000".into(),
        registered_delivery: 1,
        msg_content: content,
    }
}

fn report_content() -> Vec<u8> {
    let mut content = Vec::new();
    content.extend_from_slice(&[1, 2, 3, 4, 5, 6, 7, 8]);
    content.extend_from_slice(b"DELIVRD");
    content.extend_from_slice(b"2406061200");
    content.extend_from_slice(b"2406061201");
    let mut dest = b"13800138000".to_vec();
    dest.resize(21, 0);
    content.extend_from_slice(&dest);
    content.extend_from_slice(&42u32.to_be_bytes());
    content
}

#[test]
fn connect_round_trip() {
    let c = Connect::new("901234", "secret", 0x20);
    let decoded = round_trip(Pdu::Connect(c.clone()), 1);
    assert_eq!(decoded, Pdu::Connect(c));
}

#[test]
fn connect_resp_round_trip() {
    let r = ConnectResp {
        status: 0,
        authenticator_ismg: [7u8; 16],
        version: 0x20,
    };
    assert_eq!(
        round_trip(Pdu::ConnectResp(r.clone()), 2),
        Pdu::ConnectResp(r)
    );
}

#[test]
fn submit_round_trip_multi_dest() {
    let s = sample_submit();
    assert_eq!(
        round_trip(Pdu::Submit(Box::new(s.clone())), 3),
        Pdu::Submit(Box::new(s))
    );
}

#[test]
fn submit_resp_round_trip() {
    let r = SubmitResp {
        msg_id: [1, 2, 3, 4, 5, 6, 7, 8],
        result: 0,
    };
    assert_eq!(
        round_trip(Pdu::SubmitResp(r.clone()), 4),
        Pdu::SubmitResp(r)
    );
}

#[test]
fn deliver_report_parse() {
    let d = sample_deliver(report_content());
    let report = d.report().expect("a report");
    assert_eq!(report.msg_id, [1, 2, 3, 4, 5, 6, 7, 8]);
    assert_eq!(report.stat, "DELIVRD");
    assert_eq!(report.dest_terminal_id, "13800138000");
    assert_eq!(report.smsc_sequence, 42);

    let rt = round_trip(Pdu::Deliver(d.clone()), 5);
    assert_eq!(rt, Pdu::Deliver(d));
}

#[test]
fn empty_body_pdus_round_trip() {
    assert_eq!(round_trip(Pdu::ActiveTest, 6), Pdu::ActiveTest);
    assert_eq!(round_trip(Pdu::ActiveTestResp, 7), Pdu::ActiveTestResp);
    assert_eq!(round_trip(Pdu::Terminate, 8), Pdu::Terminate);
    assert_eq!(round_trip(Pdu::TerminateResp, 9), Pdu::TerminateResp);
}

#[test]
fn authenticator_ismg_matches_known_formula() {
    let src = compute_authenticator_source("901234", "secret", 123456789);
    let ismg = compute_authenticator_ismg(0, &src, "secret");
    let ismg2 = compute_authenticator_ismg(0, &src, "secret");
    assert_eq!(ismg, ismg2);
}

#[test]
fn decode_rejects_short_body() {
    let err = SubmitResp::decode(&[0u8; 3]);
    assert!(err.is_err());
}

#[test]
fn authenticators_are_the_md5_of_their_parts() {
    let src = compute_authenticator_source("901234", "secret", 123456789);
    assert_eq!(
        src,
        [45, 192, 208, 130, 56, 26, 248, 31, 26, 139, 232, 82, 81, 50, 63, 127]
    );
    let ismg = compute_authenticator_ismg(0, &src, "secret");
    let hex: String = ismg.iter().map(|b| format!("{:02x}", b)).collect();
    assert_eq!(hex, "3b9f432815eae5529eee779311441545");
    let refused = compute_authenticator_ismg(3, &src, "secret");
    let hex: String = refused.iter().map(|b| format!("{:02x}", b)).collect();
    assert_eq!(hex, "6b4cf6dbb16596d8793376c515c8127c");
}

#[test]
fn timestamps_are_packed_in_decimal() {
    assert_eq!(pack_timestamp(12, 31, 23, 59, 59), 1_231_235_959);
    assert_eq!(pack_timestamp(1, 2, 3, 4, 5), 102_030_405);
    let c = Connect::with_timestamp("901234", "secret", 0x20, 1_231_235_959);
    let hex: String = c
        .authenticator_source
        .iter()
        .map(|b| format!("{:02x}", b))
        .collect();
    assert_eq!(hex, "be808939a4b5372648e33a88e1d53467");
    let moment = Connect::at_moment("901234", "secret", 0x20, (12, 31, 23, 59, 59));
    assert_eq!(moment, c);
    let moment = Connect::at_moment("901234", "secret", 0x20, (1, 2, 3, 4, 5));
    assert_eq!(moment.timestamp, 102_030_405);
}

#[test]
fn a_new_connect_is_stamped_with_a_time() {
    let c = Connect::new("901234", "secret", 0x20);
    let month = c.timestamp / 100_000_000;
    let day = c.timestamp / 1_000_000 % 100;
    let hour = c.timestamp / 10_000 % 100;
    let minute = c.timestamp / 100 % 100;
    let second = c.timestamp % 100;
    assert!((1..=12).contains(&month));
    assert!((1..=31).contains(&day));
    assert!(hour <= 23 && minute <= 59 && second <= 59);
    assert_eq!(
        c.authenticator_source,
        compute_authenticator_source("901234", "secret", c.timestamp)
    );
}

#[test]
fn a_submit_resp_has_these_bytes() {
    let bytes = Pdu::SubmitResp(SubmitResp {
        msg_id: [1, 2, 3, 4, 5, 6, 7, 8],
        result: 9,
    })
    .encode(0x0a0b0c0d);
    assert_eq!(
        bytes.as_ref(),
        &[
            0, 0, 0, 21, 0x80, 0, 0, 4, 0x0a, 0x0b, 0x0c, 0x0d, 1, 2, 3, 4, 5, 6, 7, 8, 9
        ]
    );
    assert_eq!(
        Pdu::ActiveTestResp.encode(1).as_ref(),
        &[0, 0, 0, 13, 0x80, 0, 0, 8, 0, 0, 0, 1, 0]
    );
    assert_eq!(
        Pdu::Terminate.encode(2).as_ref(),
        &[0, 0, 0, 12, 0, 0, 0, 2, 0, 0, 0, 2]
    );
}

#[test]
fn a_connect_has_these_bytes() {
    let c = Connect {
        source_addr: "9012".into(),
        authenticator_source: [5u8; 16],
        version: 0x20,
        timestamp: 0x0102_0304,
    };
    let bytes = Pdu::Connect(c).encode(1);
    let mut expected = vec![0, 0, 0, 39, 0, 0, 0, 1, 0, 0, 0, 1];
    expected.extend_from_slice(b"9012\0\0");
    expected.extend_from_slice(&[5u8; 16]);
    expected.extend_from_slice(&[0x20, 1, 2, 3, 4]);
    assert_eq!(bytes.as_ref(), expected.as_slice());
}

#[test]
fn long_texts_are_cut_and_short_ones_filled() {
    let mut s = sample_submit();
    s.service_id = "0123456789ABC".into();
    s.src_id = "106  ".into();
    match round_trip(Pdu::Submit(Box::new(s)), 1) {
        Pdu::Submit(back) => {
            assert_eq!(back.service_id, "0123456789");
            assert_eq!(back.src_id, "106");
            assert_eq!(back.fee_type, "01");
        }
        other => panic!("unexpected {:?}", other),
    }
}

#[test]
fn a_text_cut_inside_a_character_is_repaired() {
    let mut s = sample_submit();
    s.msg_src = "a中文".into();
    match round_trip(Pdu::Submit(Box::new(s)), 1) {
        Pdu::Submit(back) => assert_eq!(back.msg_src, "a中\u{fffd}"),
        other => panic!("unexpected {:?}", other),
    }
}

#[test]
fn counts_that_do_not_fit_are_refused() {
    let mut s = sample_submit();
    s.dest_terminal_ids = vec!["1".to_string(); 256];
    match Pdu::Submit(Box::new(s.clone())).try_encode(1) {
        Err(Error::Config(text)) => assert_eq!(text, "SUBMIT destination 数量超过 255"),
        other => panic!("unexpected {:?}", other),
    }
    s.dest_terminal_ids.truncate(255);
    s.msg_content = vec![0; 256];
    match s.try_encode(1) {
        Err(Error::Config(text)) => assert_eq!(text, "SUBMIT Msg_Content 长度超过 255 bytes"),
        other => panic!("unexpected {:?}", other),
    }
    s.msg_content.truncate(255);
    let bytes = s.try_encode(7).unwrap();
    assert_eq!(bytes.len(), 12 + 117 + 21 * 255 + 1 + 255 + 8);
    assert_eq!(bytes, Pdu::Submit(Box::new(s)).encode(7));

    let d = sample_deliver(vec![0; 256]);
    match Frame::new(1, Pdu::Deliver(d)).try_encode() {
        Err(Error::Config(text)) => assert_eq!(text, "DELIVER Msg_Content 长度超过 255 bytes"),
        other => panic!("unexpected {:?}", other),
    }
}

#[test]
fn encoding_into_a_buffer_appends() {
    let mut out = bytes::BytesMut::new();
    out.extend_from_slice(b"xy");
    Frame::new(3, Pdu::ActiveTest)
        .try_encode_into(&mut out)
        .unwrap();
    assert_eq!(&out[..2], b"xy");
    assert_eq!(&out[2..], Pdu::ActiveTest.encode(3).as_ref());

    let refused = Frame::new(3, Pdu::Deliver(sample_deliver(vec![0; 300])));
    assert!(refused.try_encode_into(&mut out).is_err());
    assert_eq!(out.len(), 14);
}

#[test]
fn short_and_long_bodies_are_refused_with_reasons() {
    assert_eq!(
        decode_error(CMPP_CONNECT, &[0u8; 5]),
        "body 意外结束: 需要 6 bytes（offset 0），实际有 5"
    );
    assert_eq!(
        decode_error(CMPP_CONNECT, &[0u8; 25]),
        "body 意外结束: 需要 4 bytes（offset 23），实际有 25"
    );
    assert_eq!(
        decode_error(CMPP_CONNECT, &[0u8; 30]),
        "CMPP_CONNECT body 存在 3 个尾随 bytes"
    );
    assert_eq!(
        decode_error(CMPP_ACTIVE_TEST, &[0u8; 2]),
        "CMPP_ACTIVE_TEST body 长度无效: 期望 0，实际 2"
    );
    assert_eq!(
        decode_error(CMPP_ACTIVE_TEST_RESP, &[]),
        "CMPP_ACTIVE_TEST_RESP body 长度无效: 期望 1，实际 0"
    );
    assert_eq!(
        decode_error(CMPP_TERMINATE, &[1]),
        "CMPP_TERMINATE body 长度无效: 期望 0，实际 1"
    );
    let mut deliver = vec![0u8; 73];
    deliver[64] = 10;
    assert_eq!(
        decode_error(CMPP_DELIVER, &deliver),
        "body 意外结束: 需要 10 bytes（offset 65），实际有 73"
    );
}

#[test]
fn an_unknown_command_is_named() {
    assert_eq!(
        decode_error(0x0000_0007, &[]),
        "未知 command id 0x00000007"
    );
    assert_eq!(
        decode_error(0x8abc_def0, &[1, 2]),
        "未知 command id 0x8abcdef0"
    );
}

#[test]
fn a_submit_with_more_destinations_than_bytes_is_refused() {
    let mut body = vec![0u8; 126];
    body[116] = 2;
    assert_eq!(
        decode_error(CMPP_SUBMIT, &body),
        "CMPP_SUBMIT destination 数量与 body 长度不匹配: count=2"
    );
    body[116] = 0;
    assert!(Pdu::decode(header(CMPP_SUBMIT, &body), &body).is_ok());
    body[117] = 1;
    assert_eq!(
        decode_error(CMPP_SUBMIT, &body),
        "body 意外结束: 需要 8 bytes（offset 119），实际有 126"
    );
}

#[test]
fn only_status_reports_of_full_length_are_reports() {
    let mut d = sample_deliver(report_content());
    d.registered_delivery = 0;
    assert!(d.report().is_none());
    assert!(DeliverReport::parse(&report_content()[..59]).is_none());
    let report = DeliverReport::parse(&report_content()).unwrap();
    assert_eq!(report.submit_time, "2406061200");
    assert_eq!(report.done_time, "2406061201");
    assert_eq!(report.msg_id_hex(), "0102030405060708");
}

#[test]
fn message_ids_are_shown_in_hexadecimal() {
    assert_eq!(
        Event::msg_id_hex(&[0x00, 0x0f, 0xf0, 0xff, 0x12, 0xab, 0xcd, 0x9e]),
        "000ff0ff12abcd9e"
    );
}

#[test]
fn deliver_resp_round_trip() {
    let r = DeliverResp {
        msg_id: [8, 7, 6, 5, 4, 3, 2, 1],
        result: 1,
    };
    assert_eq!(
        round_trip(Pdu::DeliverResp(r.clone()), 10),
        Pdu::DeliverResp(r)
    );
}

#[test]
fn what_was_read_is_written_in_as_many_bytes() {
    let mut body = vec![0xFFu8; 27];
    body[0] = b' ';
    let connect = Pdu::decode(header(0x0000_0001, &body), &body).unwrap();
    assert_eq!(connect.command_id(), 0x0000_0001);
    assert_eq!(connect.encode(1).len(), CMPP_HEADER_LENGTH + body.len());
    let content = Pdu::Deliver(sample_deliver(vec![1, 2, 3])).encode(5);
    let body = &content[CMPP_HEADER_LENGTH..];
    let deliver = Pdu::decode(header(0x0000_0005, body), body).unwrap();
    assert_eq!(deliver.encode(5).len(), content.len());
}
