use bytes::{BufMut, BytesMut};
use cmppprotocol::{CmppFrameCodec, ConnectResp, Error, Frame, Pdu, SubmitResp};

#[test]
fn decodes_full_frame() {
    let mut codec = CmppFrameCodec;
    let pdu = Pdu::SubmitResp(SubmitResp {
        msg_id: [9; 8],
        result: 0,
    });
    let mut buf = BytesMut::new();
    codec.encode(Frame::new(42, pdu.clone()), &mut buf).unwrap();
    let decoded = codec.decode(&mut buf).unwrap().unwrap();
    assert_eq!(decoded, Frame::new(42, pdu));
    assert!(buf.is_empty());
}

#[test]
fn waits_for_partial_frame() {
    let mut codec = CmppFrameCodec;
    let pdu = Pdu::ConnectResp(ConnectResp {
        status: 0,
        authenticator_ismg: [0; 16],
        version: 0x20,
    });
    let mut full = BytesMut::new();
    codec.encode(Frame::new(1, pdu.clone()), &mut full).unwrap();

    let mut partial = full.clone();
    let last = partial.split_off(full.len() - 1);
    assert!(codec.decode(&mut partial).unwrap().is_none());
    partial.unsplit(last);
    assert_eq!(
        codec.decode(&mut partial).unwrap().unwrap(),
        Frame::new(1, pdu)
    );
}

#[test]
fn decodes_two_concatenated_frames() {
    let mut codec = CmppFrameCodec;
    let mut buf = BytesMut::new();
    codec
        .encode(Frame::new(1, Pdu::ActiveTest), &mut buf)
        .unwrap();
    codec
        .encode(Frame::new(2, Pdu::ActiveTestResp), &mut buf)
        .unwrap();
    assert_eq!(
        codec.decode(&mut buf).unwrap().unwrap(),
        Frame::new(1, Pdu::ActiveTest)
    );
    assert_eq!(
        codec.decode(&mut buf).unwrap().unwrap(),
        Frame::new(2, Pdu::ActiveTestResp)
    );
    assert!(codec.decode(&mut buf).unwrap().is_none());
}

#[test]
fn rejects_oversized_length() {
    let mut codec = CmppFrameCodec;
    let mut buf = BytesMut::new();
    buf.put_u32(u32::MAX);
    buf.put_u32(0);
    buf.put_u32(0);
    assert!(codec.decode(&mut buf).is_err());
}

#[test]
fn an_impossible_length_is_named_and_nothing_is_taken() {
    let mut codec = CmppFrameCodec::default();
    let mut buf = BytesMut::new();
    buf.put_u32(11);
    buf.put_u32(8);
    buf.put_u32(1);
    match codec.decode(&mut buf) {
        Err(Error::Decode(text)) => {
            assert_eq!(text, "message length 无效: 11，期望范围 [12, 65536]")
        }
        other => panic!("unexpected {:?}", other),
    }
    assert_eq!(buf.len(), 12);
}

#[test]
fn a_frame_that_cannot_be_read_is_taken_off_the_stream() {
    let mut codec = CmppFrameCodec;
    let mut buf = BytesMut::new();
    buf.put_u32(13);
    buf.put_u32(0x77);
    buf.put_u32(1);
    buf.put_u8(0);
    codec
        .encode(Frame::new(9, Pdu::Terminate), &mut buf)
        .unwrap();
    assert!(codec.decode(&mut buf).is_err());
    assert_eq!(
        codec.decode(&mut buf).unwrap(),
        Some(Frame::new(9, Pdu::Terminate))
    );
}

#[test]
fn every_prefix_of_a_frame_waits() {
    let mut codec = CmppFrameCodec;
    let frame = Frame::new(
        5,
        Pdu::SubmitResp(SubmitResp {
            msg_id: [3; 8],
            result: 2,
        }),
    );
    let bytes = frame.encode();
    for n in 0..bytes.len() {
        let mut buf = BytesMut::from(&bytes[..n]);
        assert!(codec.decode(&mut buf).unwrap().is_none());
        assert_eq!(&buf[..], &bytes[..n]);
    }
}
