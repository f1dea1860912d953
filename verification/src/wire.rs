//! The mathematical model of CMPP 2.0 messages: what each PDU holds and the bytes that spell it.
use vstd::prelude::*;

use crate::octets::{
    be32, be32_is_big_endian, be32_round_trip, be32_value, field_round_trip, field_text, fits_field, overrun_text,
    text_field, trailing_text, wrong_length_text,
};
use crate::text::{decimal, fixed_digits};
use crate::types::{
    CMPP_ACTIVE_TEST, CMPP_ACTIVE_TEST_RESP, CMPP_CONNECT, CMPP_CONNECT_RESP, CMPP_DELIVER,
    CMPP_DELIVER_RESP, CMPP_HEADER_LENGTH, CMPP_SUBMIT, CMPP_SUBMIT_RESP, CMPP_TERMINATE,
    CMPP_TERMINATE_RESP,
};

verus! {

/// What a CONNECT holds.
#[verifier::ext_equal]
pub struct ConnectView {
    pub source_addr: Seq<char>,
    pub authenticator_source: Seq<u8>,
    pub version: u8,
    pub timestamp: u32,
}

/// What a CONNECT_RESP holds.
#[verifier::ext_equal]
pub struct ConnectRespView {
    pub status: u8,
    pub authenticator_ismg: Seq<u8>,
    pub version: u8,
}

/// What a SUBMIT holds.
#[verifier::ext_equal]
pub struct SubmitView {
    pub msg_id: Seq<u8>,
    pub pk_total: u8,
    pub pk_number: u8,
    pub registered_delivery: u8,
    pub msg_level: u8,
    pub service_id: Seq<char>,
    pub fee_user_type: u8,
    pub fee_terminal_id: Seq<char>,
    pub tp_pid: u8,
    pub tp_udhi: u8,
    pub msg_fmt: u8,
    pub msg_src: Seq<char>,
    pub fee_type: Seq<char>,
    pub fee_code: Seq<char>,
    pub valid_time: Seq<char>,
    pub at_time: Seq<char>,
    pub src_id: Seq<char>,
    pub dest_terminal_ids: Seq<Seq<char>>,
    pub msg_content: Seq<u8>,
}

/// What a SUBMIT_RESP or a DELIVER_RESP holds.
#[verifier::ext_equal]
pub struct AckView {
    pub msg_id: Seq<u8>,
    pub result: u8,
}

/// What a DELIVER holds.
#[verifier::ext_equal]
pub struct DeliverView {
    pub msg_id: Seq<u8>,
    pub dest_id: Seq<char>,
    pub service_id: Seq<char>,
    pub tp_pid: u8,
    pub tp_udhi: u8,
    pub msg_fmt: u8,
    pub src_terminal_id: Seq<char>,
    pub registered_delivery: u8,
    pub msg_content: Seq<u8>,
}

/// What a status report holds.
#[verifier::ext_equal]
pub struct ReportView {
    pub msg_id: Seq<u8>,
    pub stat: Seq<char>,
    pub submit_time: Seq<char>,
    pub done_time: Seq<char>,
    pub dest_terminal_id: Seq<char>,
    pub smsc_sequence: u32,
}

/// A protocol data unit.
#[verifier::ext_equal]
pub enum PduView {
    Connect(ConnectView),
    ConnectResp(ConnectRespView),
    Submit(SubmitView),
    SubmitResp(AckView),
    Deliver(DeliverView),
    DeliverResp(AckView),
    ActiveTest,
    ActiveTestResp,
    Terminate,
    TerminateResp,
}

/// A PDU with its sequence id.
#[verifier::ext_equal]
pub struct FrameView {
    pub sequence_id: u32,
    pub pdu: PduView,
}

impl ConnectView {
    /// The digest has the length of an MD5 digest.
    pub open spec fn wf(self) -> bool {
        self.authenticator_source.len() == 16
    }

    /// The body on the wire.
    pub open spec fn body(self) -> Seq<u8> {
        text_field(self.source_addr, 6) + self.authenticator_source + seq![self.version] + be32(
            self.timestamp,
        )
    }

    /// Every text as the wire gives it back.
    pub open spec fn received(self) -> ConnectView {
        ConnectView { source_addr: field_text(text_field(self.source_addr, 6)), ..self }
    }

    /// No text is harmed on the wire.
    pub open spec fn fits(self) -> bool {
        fits_field(self.source_addr, 6)
    }
}

impl ConnectRespView {
    /// The digest has the length of an MD5 digest.
    pub open spec fn wf(self) -> bool {
        self.authenticator_ismg.len() == 16
    }

    /// The body on the wire.
    pub open spec fn body(self) -> Seq<u8> {
        seq![self.status] + self.authenticator_ismg + seq![self.version]
    }
}

/// The fields of the destination numbers, one behind the other.
pub open spec fn destination_fields(ids: Seq<Seq<char>>) -> Seq<u8> {
    Seq::new(21 * ids.len(), |i: int| text_field(ids[i / 21], 21)[i % 21])
}

/// The eight reserved bytes at the end of SUBMIT and DELIVER.
pub open spec fn reserved() -> Seq<u8> {
    Seq::new(8, |i: int| 0u8)
}

impl SubmitView {
    /// The message id has eight bytes.
    pub open spec fn wf(self) -> bool {
        self.msg_id.len() == 8
    }

    /// The fields up to the destination count.
    pub open spec fn head(self) -> Seq<u8> {
        self.msg_id + seq![self.pk_total] + seq![self.pk_number] + seq![self.registered_delivery]
            + seq![self.msg_level] + text_field(self.service_id, 10) + seq![self.fee_user_type]
            + text_field(self.fee_terminal_id, 21) + seq![self.tp_pid] + seq![self.tp_udhi]
            + seq![self.msg_fmt] + text_field(self.msg_src, 6) + text_field(self.fee_type, 2)
            + text_field(self.fee_code, 6) + text_field(self.valid_time, 17) + text_field(
            self.at_time,
            17,
        ) + text_field(self.src_id, 21)
    }

    /// The body on the wire.
    pub open spec fn body(self) -> Seq<u8> {
        self.head() + seq![self.dest_terminal_ids.len() as u8] + destination_fields(
            self.dest_terminal_ids,
        ) + seq![self.msg_content.len() as u8] + self.msg_content + reserved()
    }

    /// Every text as the wire gives it back.
    pub open spec fn received(self) -> SubmitView {
        SubmitView {
            service_id: field_text(text_field(self.service_id, 10)),
            fee_terminal_id: field_text(text_field(self.fee_terminal_id, 21)),
            msg_src: field_text(text_field(self.msg_src, 6)),
            fee_type: field_text(text_field(self.fee_type, 2)),
            fee_code: field_text(text_field(self.fee_code, 6)),
            valid_time: field_text(text_field(self.valid_time, 17)),
            at_time: field_text(text_field(self.at_time, 17)),
            src_id: field_text(text_field(self.src_id, 21)),
            dest_terminal_ids: Seq::new(
                self.dest_terminal_ids.len(),
                |i: int| field_text(text_field(self.dest_terminal_ids[i], 21)),
            ),
            ..self
        }
    }

    /// No text is harmed on the wire.
    pub open spec fn fits(self) -> bool {
        &&& fits_field(self.service_id, 10)
        &&& fits_field(self.fee_terminal_id, 21)
        &&& fits_field(self.msg_src, 6)
        &&& fits_field(self.fee_type, 2)
        &&& fits_field(self.fee_code, 6)
        &&& fits_field(self.valid_time, 17)
        &&& fits_field(self.at_time, 17)
        &&& fits_field(self.src_id, 21)
        &&& forall|i: int|
            0 <= i < self.dest_terminal_ids.len() ==> fits_field(
                #[trigger] self.dest_terminal_ids[i],
                21,
            )
    }

    /// What keeps the message from being encoded, if anything does.
    pub open spec fn fault(self) -> Option<Seq<char>> {
        if self.dest_terminal_ids.len() > 255 {
            Some("SUBMIT destination 数量超过 255"@)
        } else if self.msg_content.len() > 255 {
            Some("SUBMIT Msg_Content 长度超过 255 bytes"@)
        } else {
            None
        }
    }
}

impl AckView {
    /// The message id has eight bytes.
    pub open spec fn wf(self) -> bool {
        self.msg_id.len() == 8
    }

    /// The body on the wire.
    pub open spec fn body(self) -> Seq<u8> {
        self.msg_id + seq![self.result]
    }
}

impl DeliverView {
    /// The message id has eight bytes.
    pub open spec fn wf(self) -> bool {
        self.msg_id.len() == 8
    }

    /// The body on the wire.
    pub open spec fn body(self) -> Seq<u8> {
        self.msg_id + text_field(self.dest_id, 21) + text_field(self.service_id, 10)
            + seq![self.tp_pid] + seq![self.tp_udhi] + seq![self.msg_fmt] + text_field(
            self.src_terminal_id,
            21,
        ) + seq![self.registered_delivery] + seq![self.msg_content.len() as u8] + self.msg_content
            + reserved()
    }

    /// Every text as the wire gives it back.
    pub open spec fn received(self) -> DeliverView {
        DeliverView {
            dest_id: field_text(text_field(self.dest_id, 21)),
            service_id: field_text(text_field(self.service_id, 10)),
            src_terminal_id: field_text(text_field(self.src_terminal_id, 21)),
            ..self
        }
    }

    /// No text is harmed on the wire.
    pub open spec fn fits(self) -> bool {
        &&& fits_field(self.dest_id, 21)
        &&& fits_field(self.service_id, 10)
        &&& fits_field(self.src_terminal_id, 21)
    }

    /// What keeps the message from being encoded, if anything does.
    pub open spec fn fault(self) -> Option<Seq<char>> {
        if self.msg_content.len() > 255 {
            Some("DELIVER Msg_Content 长度超过 255 bytes"@)
        } else {
            None
        }
    }
}

impl PduView {
    /// The command id on the wire.
    pub open spec fn command_id(self) -> u32 {
        match self {
            PduView::Connect(_) => CMPP_CONNECT,
            PduView::ConnectResp(_) => CMPP_CONNECT_RESP,
            PduView::Submit(_) => CMPP_SUBMIT,
            PduView::SubmitResp(_) => CMPP_SUBMIT_RESP,
            PduView::Deliver(_) => CMPP_DELIVER,
            PduView::DeliverResp(_) => CMPP_DELIVER_RESP,
            PduView::ActiveTest => CMPP_ACTIVE_TEST,
            PduView::ActiveTestResp => CMPP_ACTIVE_TEST_RESP,
            PduView::Terminate => CMPP_TERMINATE,
            PduView::TerminateResp => CMPP_TERMINATE_RESP,
        }
    }

    /// The fixed-length binary fields have their lengths.
    pub open spec fn wf(self) -> bool {
        match self {
            PduView::Connect(p) => p.wf(),
            PduView::ConnectResp(p) => p.wf(),
            PduView::Submit(p) => p.wf(),
            PduView::SubmitResp(p) => p.wf(),
            PduView::Deliver(p) => p.wf(),
            PduView::DeliverResp(p) => p.wf(),
            _ => true,
        }
    }

    /// The body on the wire.
    pub open spec fn body(self) -> Seq<u8> {
        match self {
            PduView::Connect(p) => p.body(),
            PduView::ConnectResp(p) => p.body(),
            PduView::Submit(p) => p.body(),
            PduView::SubmitResp(p) => p.body(),
            PduView::Deliver(p) => p.body(),
            PduView::DeliverResp(p) => p.body(),
            PduView::ActiveTestResp => seq![0u8],
            _ => seq![],
        }
    }

    /// What keeps the PDU from being encoded, if anything does.
    pub open spec fn fault(self) -> Option<Seq<char>> {
        match self {
            PduView::Submit(p) => p.fault(),
            PduView::Deliver(p) => p.fault(),
            _ => None,
        }
    }

    /// The PDU as the wire gives it back: its texts cut, repaired and trimmed as fixed-width
    /// fields cut, repair and trim them.
    pub open spec fn received(self) -> PduView {
        match self {
            PduView::Connect(p) => PduView::Connect(p.received()),
            PduView::Submit(p) => PduView::Submit(p.received()),
            PduView::Deliver(p) => PduView::Deliver(p.received()),
            other => other,
        }
    }

    /// No text is harmed on the wire.
    pub open spec fn fits(self) -> bool {
        match self {
            PduView::Connect(p) => p.fits(),
            PduView::Submit(p) => p.fits(),
            PduView::Deliver(p) => p.fits(),
            _ => true,
        }
    }

    /// Header and body on the wire.
    pub open spec fn frame(self, sequence_id: u32) -> Seq<u8> {
        be32((CMPP_HEADER_LENGTH + self.body().len()) as u32) + be32(self.command_id()) + be32(
            sequence_id,
        ) + self.body()
    }
}

impl FrameView {
    /// Header and body on the wire.
    pub open spec fn bytes(self) -> Seq<u8> {
        self.pdu.frame(self.sequence_id)
    }
}

// ---- reading ----

/// Either what was read or the text of the decode error.
pub type Parsed<T> = core::result::Result<T, Seq<char>>;

/// The width and the offset of the field of CONNECT in which a body of `len` bytes ends.
pub open spec fn connect_field(len: nat) -> (nat, nat) {
    if len < 6 {
        (6, 0)
    } else if len < 22 {
        (16, 6)
    } else if len < 23 {
        (1, 22)
    } else {
        (4, 23)
    }
}

/// Reads a CONNECT body.
pub open spec fn parse_connect(body: Seq<u8>) -> Parsed<ConnectView> {
    if body.len() < 27 {
        let (n, offset) = connect_field(body.len());
        Err(overrun_text(n, offset, body.len()))
    } else if body.len() > 27 {
        Err(trailing_text("CMPP_CONNECT"@, (body.len() - 27) as nat))
    } else {
        Ok(
            ConnectView {
                source_addr: field_text(body.subrange(0, 6)),
                authenticator_source: body.subrange(6, 22),
                version: body[22],
                timestamp: be32_value(body.subrange(23, 27)),
            },
        )
    }
}

/// The width and the offset of the field of CONNECT_RESP in which a body of `len` bytes ends.
pub open spec fn connect_resp_field(len: nat) -> (nat, nat) {
    if len < 1 {
        (1, 0)
    } else if len < 17 {
        (16, 1)
    } else {
        (1, 17)
    }
}

/// Reads a CONNECT_RESP body.
pub open spec fn parse_connect_resp(body: Seq<u8>) -> Parsed<ConnectRespView> {
    if body.len() < 18 {
        let (n, offset) = connect_resp_field(body.len());
        Err(overrun_text(n, offset, body.len()))
    } else if body.len() > 18 {
        Err(trailing_text("CMPP_CONNECT_RESP"@, (body.len() - 18) as nat))
    } else {
        Ok(
            ConnectRespView {
                status: body[0],
                authenticator_ismg: body.subrange(1, 17),
                version: body[17],
            },
        )
    }
}

/// Reads the body of a SUBMIT_RESP or a DELIVER_RESP.
pub open spec fn parse_ack(body: Seq<u8>, pdu: Seq<char>) -> Parsed<AckView> {
    if body.len() < 8 {
        Err(overrun_text(8, 0, body.len()))
    } else if body.len() < 9 {
        Err(overrun_text(1, 8, body.len()))
    } else if body.len() > 9 {
        Err(trailing_text(pdu, (body.len() - 9) as nat))
    } else {
        Ok(AckView { msg_id: body.subrange(0, 8), result: body[8] })
    }
}

/// The width and the offset of the field of SUBMIT, up to the destination count, in which a body
/// of `len` bytes ends.
pub open spec fn submit_field(len: nat) -> (nat, nat) {
    if len < 8 {
        (8, 0)
    } else if len < 12 {
        (1, len)
    } else if len < 22 {
        (10, 12)
    } else if len < 23 {
        (1, 22)
    } else if len < 44 {
        (21, 23)
    } else if len < 47 {
        (1, len)
    } else if len < 53 {
        (6, 47)
    } else if len < 55 {
        (2, 53)
    } else if len < 61 {
        (6, 55)
    } else if len < 78 {
        (17, 61)
    } else if len < 95 {
        (17, 78)
    } else if len < 116 {
        (21, 95)
    } else {
        (1, 116)
    }
}

/// The text of the error for a destination count that the body has no room for.
pub open spec fn destination_text(count: nat) -> Seq<char> {
    "CMPP_SUBMIT destination 数量与 body 长度不匹配: count="@ + decimal(count)
}

/// Reads a SUBMIT body.
pub open spec fn parse_submit(body: Seq<u8>) -> Parsed<SubmitView> {
    if body.len() < 117 {
        let (n, offset) = submit_field(body.len());
        Err(overrun_text(n, offset, body.len()))
    } else {
        let count = body[116] as nat;
        let after: int = 117 + 21 * count as int;
        if body.len() < after + 9 {
            Err(destination_text(count))
        } else {
            let length = body[after] as nat;
            if body.len() < after + 1 + length {
                Err(overrun_text(length, (after + 1) as nat, body.len()))
            } else if body.len() < after + 9 + length {
                Err(overrun_text(8, (after + 1 + length) as nat, body.len()))
            } else if body.len() > after + 9 + length {
                Err(trailing_text("CMPP_SUBMIT"@, (body.len() - (after + 9 + length)) as nat))
            } else {
                Ok(
                    SubmitView {
                        msg_id: body.subrange(0, 8),
                        pk_total: body[8],
                        pk_number: body[9],
                        registered_delivery: body[10],
                        msg_level: body[11],
                        service_id: field_text(body.subrange(12, 22)),
                        fee_user_type: body[22],
                        fee_terminal_id: field_text(body.subrange(23, 44)),
                        tp_pid: body[44],
                        tp_udhi: body[45],
                        msg_fmt: body[46],
                        msg_src: field_text(body.subrange(47, 53)),
                        fee_type: field_text(body.subrange(53, 55)),
                        fee_code: field_text(body.subrange(55, 61)),
                        valid_time: field_text(body.subrange(61, 78)),
                        at_time: field_text(body.subrange(78, 95)),
                        src_id: field_text(body.subrange(95, 116)),
                        dest_terminal_ids: Seq::new(
                            count,
                            |i: int| field_text(body.subrange(117 + 21 * i, 138 + 21 * i)),
                        ),
                        msg_content: body.subrange(after + 1, after + 1 + length),
                    },
                )
            }
        }
    }
}

/// The width and the offset of the field of DELIVER, up to the content length, in which a body
/// of `len` bytes ends.
pub open spec fn deliver_field(len: nat) -> (nat, nat) {
    if len < 8 {
        (8, 0)
    } else if len < 29 {
        (21, 8)
    } else if len < 39 {
        (10, 29)
    } else if len < 42 {
        (1, len)
    } else if len < 63 {
        (21, 42)
    } else {
        (1, len)
    }
}

/// Reads a DELIVER body.
pub open spec fn parse_deliver(body: Seq<u8>) -> Parsed<DeliverView> {
    if body.len() < 65 {
        let (n, offset) = deliver_field(body.len());
        Err(overrun_text(n, offset, body.len()))
    } else {
        let length = body[64] as nat;
        if body.len() < 65 + length {
            Err(overrun_text(length, 65, body.len()))
        } else if body.len() < 73 + length {
            Err(overrun_text(8, 65 + length, body.len()))
        } else if body.len() > 73 + length {
            Err(trailing_text("CMPP_DELIVER"@, (body.len() - (73 + length)) as nat))
        } else {
            Ok(
                DeliverView {
                    msg_id: body.subrange(0, 8),
                    dest_id: field_text(body.subrange(8, 29)),
                    service_id: field_text(body.subrange(29, 39)),
                    tp_pid: body[39],
                    tp_udhi: body[40],
                    msg_fmt: body[41],
                    src_terminal_id: field_text(body.subrange(42, 63)),
                    registered_delivery: body[63],
                    msg_content: body.subrange(65, 65 + length as int),
                },
            )
        }
    }
}

/// Reads a body of fixed length that says nothing.
pub open spec fn parse_plain(body: Seq<u8>, length: nat, name: Seq<char>, pdu: PduView) -> Parsed<
    PduView,
> {
    if body.len() == length {
        Ok(pdu)
    } else {
        Err(wrong_length_text(name, length, body.len()))
    }
}

/// The text of the error for a command id that CMPP 2.0 does not have.
pub open spec fn unknown_command_text(command_id: u32) -> Seq<char> {
    "未知 command id 0x"@ + fixed_digits(command_id as nat, 16, 8)
}

/// Reads the body that belongs to a command id.
pub open spec fn parse_pdu(command_id: u32, body: Seq<u8>) -> Parsed<PduView> {
    if command_id == CMPP_CONNECT {
        match parse_connect(body) {
            Ok(p) => Ok(PduView::Connect(p)),
            Err(text) => Err(text),
        }
    } else if command_id == CMPP_CONNECT_RESP {
        match parse_connect_resp(body) {
            Ok(p) => Ok(PduView::ConnectResp(p)),
            Err(text) => Err(text),
        }
    } else if command_id == CMPP_SUBMIT {
        match parse_submit(body) {
            Ok(p) => Ok(PduView::Submit(p)),
            Err(text) => Err(text),
        }
    } else if command_id == CMPP_SUBMIT_RESP {
        match parse_ack(body, "CMPP_SUBMIT_RESP"@) {
            Ok(p) => Ok(PduView::SubmitResp(p)),
            Err(text) => Err(text),
        }
    } else if command_id == CMPP_DELIVER {
        match parse_deliver(body) {
            Ok(p) => Ok(PduView::Deliver(p)),
            Err(text) => Err(text),
        }
    } else if command_id == CMPP_DELIVER_RESP {
        match parse_ack(body, "CMPP_DELIVER_RESP"@) {
            Ok(p) => Ok(PduView::DeliverResp(p)),
            Err(text) => Err(text),
        }
    } else if command_id == CMPP_ACTIVE_TEST {
        parse_plain(body, 0, "CMPP_ACTIVE_TEST"@, PduView::ActiveTest)
    } else if command_id == CMPP_ACTIVE_TEST_RESP {
        parse_plain(body, 1, "CMPP_ACTIVE_TEST_RESP"@, PduView::ActiveTestResp)
    } else if command_id == CMPP_TERMINATE {
        parse_plain(body, 0, "CMPP_TERMINATE"@, PduView::Terminate)
    } else if command_id == CMPP_TERMINATE_RESP {
        parse_plain(body, 0, "CMPP_TERMINATE_RESP"@, PduView::TerminateResp)
    } else {
        Err(unknown_command_text(command_id))
    }
}

/// Reads the content of a status report; content shorter than 60 bytes is none.
pub open spec fn parse_report(content: Seq<u8>) -> Option<ReportView> {
    if content.len() < 60 {
        None
    } else {
        Some(
            ReportView {
                msg_id: content.subrange(0, 8),
                stat: field_text(content.subrange(8, 15)),
                submit_time: field_text(content.subrange(15, 25)),
                done_time: field_text(content.subrange(25, 35)),
                dest_terminal_id: field_text(content.subrange(35, 56)),
                smsc_sequence: be32_value(content.subrange(56, 60)),
            },
        )
    }
}

// ---- laws ----

proof fn submit_round_trip(p: SubmitView)
    requires
        p.wf(),
        p.fault() is None,
    ensures
        parse_submit(p.body()) == Ok::<SubmitView, Seq<char>>(p.received()),
{
    let body = p.body();
    let count = p.dest_terminal_ids.len() as int;
    let after = 117 + 21 * count;
    let fields = destination_fields(p.dest_terminal_ids);
    assert(p.head().len() == 116);
    assert(fields.len() == 21 * count);
    assert(body.len() == after + 9 + p.msg_content.len());
    assert(body[116] == count);
    assert(body[after] == p.msg_content.len());
    let read = parse_submit(body)->Ok_0;
    assert(body.subrange(0, 8) =~= p.msg_id);
    assert(body.subrange(12, 22) =~= text_field(p.service_id, 10));
    assert(body.subrange(23, 44) =~= text_field(p.fee_terminal_id, 21));
    assert(body.subrange(47, 53) =~= text_field(p.msg_src, 6));
    assert(body.subrange(53, 55) =~= text_field(p.fee_type, 2));
    assert(body.subrange(55, 61) =~= text_field(p.fee_code, 6));
    assert(body.subrange(61, 78) =~= text_field(p.valid_time, 17));
    assert(body.subrange(78, 95) =~= text_field(p.at_time, 17));
    assert(body.subrange(95, 116) =~= text_field(p.src_id, 21));
    assert(body.subrange(after + 1, after + 1 + p.msg_content.len() as int) =~= p.msg_content);
    assert(read.dest_terminal_ids =~= p.received().dest_terminal_ids) by {
        assert forall|i: int| 0 <= i < count implies read.dest_terminal_ids[i]
            == p.received().dest_terminal_ids[i] by {
            let field = body.subrange(117 + 21 * i, 138 + 21 * i);
            assert forall|j: int| 0 <= j < 21 implies field[j] == text_field(
                p.dest_terminal_ids[i],
                21,
            )[j] by {
                assert(field[j] == fields[21 * i + j]);
                assert((21 * i + j) / 21 == i && (21 * i + j) % 21 == j);
            }
            assert(field =~= text_field(p.dest_terminal_ids[i], 21));
        }
    }
    assert(read =~= p.received());
}

proof fn deliver_round_trip(p: DeliverView)
    requires
        p.wf(),
        p.fault() is None,
    ensures
        parse_deliver(p.body()) == Ok::<DeliverView, Seq<char>>(p.received()),
{
    let body = p.body();
    assert(body.len() == 73 + p.msg_content.len());
    assert(body[64] == p.msg_content.len());
    assert(body.subrange(0, 8) =~= p.msg_id);
    assert(body.subrange(8, 29) =~= text_field(p.dest_id, 21));
    assert(body.subrange(29, 39) =~= text_field(p.service_id, 10));
    assert(body.subrange(42, 63) =~= text_field(p.src_terminal_id, 21));
    assert(body.subrange(65, 65 + p.msg_content.len() as int) =~= p.msg_content);
    assert(parse_deliver(body)->Ok_0 =~= p.received());
}

/// Reading gives back what was written: the body of any PDU that can be encoded is read, under
/// its command id, as that PDU, with its texts as fixed-width fields give them back.
pub proof fn pdu_round_trip(p: PduView)
    requires
        p.wf(),
        p.fault() is None,
    ensures
        parse_pdu(p.command_id(), p.body()) == Ok::<PduView, Seq<char>>(p.received()),
{
    match p {
        PduView::Connect(c) => {
            let body = c.body();
            be32_round_trip(c.timestamp);
            assert(body.len() == 27);
            assert(body.subrange(0, 6) =~= text_field(c.source_addr, 6));
            assert(body.subrange(6, 22) =~= c.authenticator_source);
            assert(body.subrange(23, 27) =~= be32(c.timestamp));
            assert(parse_connect(body)->Ok_0 =~= c.received());
        },
        PduView::ConnectResp(c) => {
            assert(c.body().subrange(1, 17) =~= c.authenticator_ismg);
            assert(parse_connect_resp(c.body())->Ok_0 =~= c);
        },
        PduView::Submit(s) => {
            submit_round_trip(s);
        },
        PduView::SubmitResp(a) => {
            assert(a.body().subrange(0, 8) =~= a.msg_id);
            assert(parse_ack(a.body(), "CMPP_SUBMIT_RESP"@)->Ok_0 =~= a);
        },
        PduView::Deliver(d) => {
            deliver_round_trip(d);
        },
        PduView::DeliverResp(a) => {
            assert(a.body().subrange(0, 8) =~= a.msg_id);
            assert(parse_ack(a.body(), "CMPP_DELIVER_RESP"@)->Ok_0 =~= a);
        },
        _ => {},
    }
}

/// A PDU whose texts fit their fields comes back exactly as it was sent.
pub proof fn received_unharmed(p: PduView)
    requires
        p.fits(),
    ensures
        p.received() == p,
{
    match p {
        PduView::Connect(c) => {
            field_round_trip(c.source_addr, 6);
            assert(c.received() =~= c);
        },
        PduView::Submit(s) => {
            field_round_trip(s.service_id, 10);
            field_round_trip(s.fee_terminal_id, 21);
            field_round_trip(s.msg_src, 6);
            field_round_trip(s.fee_type, 2);
            field_round_trip(s.fee_code, 6);
            field_round_trip(s.valid_time, 17);
            field_round_trip(s.at_time, 17);
            field_round_trip(s.src_id, 21);
            assert forall|i: int| 0 <= i < s.dest_terminal_ids.len() implies field_text(
                text_field(s.dest_terminal_ids[i], 21),
            ) == s.dest_terminal_ids[i] by {
                field_round_trip(s.dest_terminal_ids[i], 21);
            }
            assert(s.received().dest_terminal_ids =~= s.dest_terminal_ids);
            assert(s.received() =~= s);
        },
        PduView::Deliver(d) => {
            field_round_trip(d.dest_id, 21);
            field_round_trip(d.service_id, 10);
            field_round_trip(d.src_terminal_id, 21);
            assert(d.received() =~= d);
        },
        _ => {},
    }
}

/// A body that was read under a command id belongs to a PDU of that command id, and that PDU can
/// be written again, in as many bytes.
pub proof fn command_id_kept(command_id: u32, body: Seq<u8>)
    ensures
        parse_pdu(command_id, body) matches Ok(p) ==> p.command_id() == command_id && p.wf()
            && p.fault() is None && p.body().len() == body.len(),
{
}

/// Every PDU travels under the command id that CMPP 2.0 gives it; a response has the id of its
/// request with the highest bit set.
pub proof fn command_ids(p: PduView)
    ensures
        p is Connect ==> p.command_id() == 1,
        p is ConnectResp ==> p.command_id() == 0x8000_0001,
        p is Terminate ==> p.command_id() == 2,
        p is TerminateResp ==> p.command_id() == 0x8000_0002,
        p is Submit ==> p.command_id() == 4,
        p is SubmitResp ==> p.command_id() == 0x8000_0004,
        p is Deliver ==> p.command_id() == 5,
        p is DeliverResp ==> p.command_id() == 0x8000_0005,
        p is ActiveTest ==> p.command_id() == 8,
        p is ActiveTestResp ==> p.command_id() == 0x8000_0008,
{
}

/// A frame starts with a header of 12 bytes: the length of the whole frame, the command id and
/// the sequence id, each in four bytes, the most significant first. The body follows.
pub proof fn frame_layout(p: PduView, sequence_id: u32)
    requires
        p.wf(),
        p.fault() is None,
    ensures
        p.frame(sequence_id).len() == 12 + p.body().len(),
        ({
            let f = p.frame(sequence_id);
            &&& f[0] * 16777216 + f[1] * 65536 + f[2] * 256 + f[3] == f.len()
            &&& f[4] * 16777216 + f[5] * 65536 + f[6] * 256 + f[7] == p.command_id()
            &&& f[8] * 16777216 + f[9] * 65536 + f[10] * 256 + f[11] == sequence_id
            &&& f.subrange(12, f.len() as int) == p.body()
        }),
{
    body_length(p);
    header_layout((12 + p.body().len()) as u32, p.command_id(), sequence_id, p.body());
}

proof fn header_layout(length: u32, command_id: u32, sequence_id: u32, body: Seq<u8>)
    ensures
        ({
            let f = be32(length) + be32(command_id) + be32(sequence_id) + body;
            &&& f.len() == 12 + body.len()
            &&& f[0] * 16777216 + f[1] * 65536 + f[2] * 256 + f[3] == length
            &&& f[4] * 16777216 + f[5] * 65536 + f[6] * 256 + f[7] == command_id
            &&& f[8] * 16777216 + f[9] * 65536 + f[10] * 256 + f[11] == sequence_id
            &&& f.subrange(12, f.len() as int) == body
        }),
{
    let f = be32(length) + be32(command_id) + be32(sequence_id) + body;
    be32_is_big_endian(length, body);
    be32_is_big_endian(command_id, body);
    be32_is_big_endian(sequence_id, body);
    assert(f.subrange(12, f.len() as int) =~= body);
    assert(f[0] == be32(length)[0] && f[1] == be32(length)[1] && f[2] == be32(length)[2] && f[3]
        == be32(length)[3]);
    assert(f[4] == be32(command_id)[0] && f[5] == be32(command_id)[1] && f[6] == be32(
        command_id,
    )[2] && f[7] == be32(command_id)[3]);
    assert(f[8] == be32(sequence_id)[0] && f[9] == be32(sequence_id)[1] && f[10] == be32(
        sequence_id,
    )[2] && f[11] == be32(sequence_id)[3]);
}

/// Bodies have the lengths that CMPP 2.0 gives them. A SUBMIT takes 126 bytes, 21 for each
/// destination and its content; a DELIVER takes 73 bytes and its content.
pub proof fn body_length(p: PduView)
    requires
        p.wf(),
        p.fault() is None,
    ensures
        match p {
            PduView::Connect(_) => p.body().len() == 27,
            PduView::ConnectResp(_) => p.body().len() == 18,
            PduView::Submit(s) => p.body().len() == 126 + 21 * s.dest_terminal_ids.len()
                + s.msg_content.len(),
            PduView::SubmitResp(_) => p.body().len() == 9,
            PduView::Deliver(d) => p.body().len() == 73 + d.msg_content.len(),
            PduView::DeliverResp(_) => p.body().len() == 9,
            PduView::ActiveTest => p.body().len() == 0,
            PduView::ActiveTestResp => p.body() == seq![0u8],
            PduView::Terminate => p.body().len() == 0,
            PduView::TerminateResp => p.body().len() == 0,
        },
        p.body().len() <= 126 + 21 * 255 + 255,
{
    match p {
        PduView::Submit(s) => {
            submit_layout(s);
        },
        PduView::Deliver(d) => {
            deliver_layout(d);
        },
        _ => {},
    }
}

/// A SUBMIT can be encoded when it has at most 255 destinations and at most 255 bytes of
/// content, a DELIVER when it has at most 255 bytes of content, and any other PDU always.
pub proof fn what_can_be_encoded(p: PduView)
    ensures
        p.fault() is None <==> match p {
            PduView::Submit(s) => s.dest_terminal_ids.len() <= 255 && s.msg_content.len() <= 255,
            PduView::Deliver(d) => d.msg_content.len() <= 255,
            _ => true,
        },
{
}

/// Each field of a CONNECT stands at its offset.
pub proof fn connect_layout(c: ConnectView)
    requires
        c.wf(),
    ensures
        c.body().len() == 27,
        c.body().subrange(0, 6) == text_field(c.source_addr, 6),
        c.body().subrange(6, 22) == c.authenticator_source,
        c.body()[22] == c.version,
        c.body()[23] * 16777216 + c.body()[24] * 65536 + c.body()[25] * 256 + c.body()[26]
            == c.timestamp,
{
    assert(c.body().subrange(0, 6) =~= text_field(c.source_addr, 6));
    assert(c.body().subrange(6, 22) =~= c.authenticator_source);
}

/// Each field of a CONNECT_RESP stands at its offset.
pub proof fn connect_resp_layout(c: ConnectRespView)
    requires
        c.wf(),
    ensures
        c.body().len() == 18,
        c.body()[0] == c.status,
        c.body().subrange(1, 17) == c.authenticator_ismg,
        c.body()[17] == c.version,
{
    assert(c.body().subrange(1, 17) =~= c.authenticator_ismg);
}

/// Each field of a SUBMIT_RESP or a DELIVER_RESP stands at its offset.
pub proof fn ack_layout(a: AckView)
    requires
        a.wf(),
    ensures
        a.body().len() == 9,
        a.body().subrange(0, 8) == a.msg_id,
        a.body()[8] == a.result,
{
    assert(a.body().subrange(0, 8) =~= a.msg_id);
}

/// Each field of a SUBMIT stands at its offset: up to the number of destinations the offsets are
/// fixed, each destination takes 21 bytes, and behind them come the length of the content, the
/// content and eight NULs.
pub proof fn submit_layout(s: SubmitView)
    requires
        s.wf(),
        s.fault() is None,
    ensures
        ({
            let body = s.body();
            let after = 117 + 21 * s.dest_terminal_ids.len() as int;
            let end = after + 1 + s.msg_content.len() as int;
            &&& body.len() == end + 8
            &&& body.subrange(0, 8) == s.msg_id
            &&& body[8] == s.pk_total
            &&& body[9] == s.pk_number
            &&& body[10] == s.registered_delivery
            &&& body[11] == s.msg_level
            &&& body.subrange(12, 22) == text_field(s.service_id, 10)
            &&& body[22] == s.fee_user_type
            &&& body.subrange(23, 44) == text_field(s.fee_terminal_id, 21)
            &&& body[44] == s.tp_pid
            &&& body[45] == s.tp_udhi
            &&& body[46] == s.msg_fmt
            &&& body.subrange(47, 53) == text_field(s.msg_src, 6)
            &&& body.subrange(53, 55) == text_field(s.fee_type, 2)
            &&& body.subrange(55, 61) == text_field(s.fee_code, 6)
            &&& body.subrange(61, 78) == text_field(s.valid_time, 17)
            &&& body.subrange(78, 95) == text_field(s.at_time, 17)
            &&& body.subrange(95, 116) == text_field(s.src_id, 21)
            &&& body[116] == s.dest_terminal_ids.len()
            &&& forall|i: int|
                0 <= i < s.dest_terminal_ids.len() ==> #[trigger] body.subrange(
                    117 + 21 * i,
                    138 + 21 * i,
                ) == text_field(s.dest_terminal_ids[i], 21)
            &&& body[after] == s.msg_content.len()
            &&& body.subrange(after + 1, end) == s.msg_content
            &&& forall|i: int| end <= i < end + 8 ==> body[i] == 0
        }),
{
    let body = s.body();
    let count = s.dest_terminal_ids.len() as int;
    let after = 117 + 21 * count;
    let end = after + 1 + s.msg_content.len() as int;
    let fields = destination_fields(s.dest_terminal_ids);
    assert(s.head().len() == 116);
    assert(fields.len() == 21 * count);
    assert(body.len() == end + 8);
    assert(body.subrange(0, 8) =~= s.msg_id);
    assert(body.subrange(12, 22) =~= text_field(s.service_id, 10));
    assert(body.subrange(23, 44) =~= text_field(s.fee_terminal_id, 21));
    assert(body.subrange(47, 53) =~= text_field(s.msg_src, 6));
    assert(body.subrange(53, 55) =~= text_field(s.fee_type, 2));
    assert(body.subrange(55, 61) =~= text_field(s.fee_code, 6));
    assert(body.subrange(61, 78) =~= text_field(s.valid_time, 17));
    assert(body.subrange(78, 95) =~= text_field(s.at_time, 17));
    assert(body.subrange(95, 116) =~= text_field(s.src_id, 21));
    assert(body.subrange(after + 1, end) =~= s.msg_content);
    assert forall|i: int| 0 <= i < count implies #[trigger] body.subrange(
        117 + 21 * i,
        138 + 21 * i,
    ) == text_field(s.dest_terminal_ids[i], 21) by {
        let field = body.subrange(117 + 21 * i, 138 + 21 * i);
        assert forall|j: int| 0 <= j < 21 implies field[j] == text_field(
            s.dest_terminal_ids[i],
            21,
        )[j] by {
            assert(field[j] == fields[21 * i + j]);
            assert((21 * i + j) / 21 == i && (21 * i + j) % 21 == j);
        }
        assert(field =~= text_field(s.dest_terminal_ids[i], 21));
    }
}

/// Each field of a DELIVER stands at its offset, with its content and eight NULs at the end.
pub proof fn deliver_layout(d: DeliverView)
    requires
        d.wf(),
        d.fault() is None,
    ensures
        ({
            let body = d.body();
            let end = 65 + d.msg_content.len() as int;
            &&& body.len() == end + 8
            &&& body.subrange(0, 8) == d.msg_id
            &&& body.subrange(8, 29) == text_field(d.dest_id, 21)
            &&& body.subrange(29, 39) == text_field(d.service_id, 10)
            &&& body[39] == d.tp_pid
            &&& body[40] == d.tp_udhi
            &&& body[41] == d.msg_fmt
            &&& body.subrange(42, 63) == text_field(d.src_terminal_id, 21)
            &&& body[63] == d.registered_delivery
            &&& body[64] == d.msg_content.len()
            &&& body.subrange(65, end) == d.msg_content
            &&& forall|i: int| end <= i < end + 8 ==> body[i] == 0
        }),
{
    let body = d.body();
    assert(body.subrange(0, 8) =~= d.msg_id);
    assert(body.subrange(8, 29) =~= text_field(d.dest_id, 21));
    assert(body.subrange(29, 39) =~= text_field(d.service_id, 10));
    assert(body.subrange(42, 63) =~= text_field(d.src_terminal_id, 21));
    assert(body.subrange(65, 65 + d.msg_content.len() as int) =~= d.msg_content);
}

/// A CONNECT body is read when it has 27 bytes, each field from its offset.
pub proof fn connect_is_read_by_offset(body: Seq<u8>)
    ensures
        parse_pdu(1, body) is Ok <==> body.len() == 27,
        body.len() == 27 ==> (parse_pdu(1, body) matches Ok(PduView::Connect(c))
            && c.source_addr == field_text(body.subrange(0, 6))
            && c.authenticator_source == body.subrange(6, 22)
            && c.version == body[22]
            && c.timestamp == body[23] * 16777216 + body[24] * 65536 + body[25] * 256 + body[26]),
{
}

/// A CONNECT_RESP body is read when it has 18 bytes, each field from its offset.
pub proof fn connect_resp_is_read_by_offset(body: Seq<u8>)
    ensures
        parse_pdu(0x8000_0001, body) is Ok <==> body.len() == 18,
        body.len() == 18 ==> (parse_pdu(0x8000_0001, body) matches Ok(PduView::ConnectResp(c))
            && c.status == body[0]
            && c.authenticator_ismg == body.subrange(1, 17)
            && c.version == body[17]),
{
}

/// The body of a SUBMIT_RESP or a DELIVER_RESP is read when it has nine bytes, each field from
/// its offset.
pub proof fn acks_are_read_by_offset(body: Seq<u8>)
    ensures
        parse_pdu(0x8000_0004, body) is Ok <==> body.len() == 9,
        parse_pdu(0x8000_0005, body) is Ok <==> body.len() == 9,
        body.len() == 9 ==> (parse_pdu(0x8000_0004, body) matches Ok(PduView::SubmitResp(a))
            && a.msg_id == body.subrange(0, 8) && a.result == body[8]),
        body.len() == 9 ==> (parse_pdu(0x8000_0005, body) matches Ok(PduView::DeliverResp(a))
            && a.msg_id == body.subrange(0, 8) && a.result == body[8]),
{
}

/// A SUBMIT body is read when the number of destinations in byte 116 and the length of the
/// content in the byte behind the destinations account for all of it; each field is read from
/// its offset.
pub proof fn submit_is_read_by_offset(body: Seq<u8>)
    ensures
        parse_pdu(4, body) is Ok <==> {
            &&& body.len() > 117 + 21 * body[116]
            &&& body.len() == 117 + 21 * body[116] + 1 + body[117 + 21 * body[116]] + 8
        },
        parse_pdu(4, body) is Ok ==> parse_pdu(4, body)->Ok_0 is Submit,
        parse_pdu(4, body) matches Ok(PduView::Submit(s)) ==> {
            let after: int = 117 + 21 * body[116];
            &&& s.msg_id == body.subrange(0, 8)
            &&& s.pk_total == body[8]
            &&& s.pk_number == body[9]
            &&& s.registered_delivery == body[10]
            &&& s.msg_level == body[11]
            &&& s.service_id == field_text(body.subrange(12, 22))
            &&& s.fee_user_type == body[22]
            &&& s.fee_terminal_id == field_text(body.subrange(23, 44))
            &&& s.tp_pid == body[44]
            &&& s.tp_udhi == body[45]
            &&& s.msg_fmt == body[46]
            &&& s.msg_src == field_text(body.subrange(47, 53))
            &&& s.fee_type == field_text(body.subrange(53, 55))
            &&& s.fee_code == field_text(body.subrange(55, 61))
            &&& s.valid_time == field_text(body.subrange(61, 78))
            &&& s.at_time == field_text(body.subrange(78, 95))
            &&& s.src_id == field_text(body.subrange(95, 116))
            &&& s.dest_terminal_ids.len() == body[116]
            &&& forall|i: int|
                0 <= i < body[116] ==> #[trigger] s.dest_terminal_ids[i] == field_text(
                    body.subrange(117 + 21 * i, 138 + 21 * i),
                )
            &&& s.msg_content.len() == body[after]
            &&& s.msg_content == body.subrange(after + 1, after + 1 + body[after])
        },
{
}

/// A DELIVER body is read when the length of the content in byte 64 accounts for all of it; each
/// field is read from its offset.
pub proof fn deliver_is_read_by_offset(body: Seq<u8>)
    ensures
        parse_pdu(5, body) is Ok <==> body.len() > 64 && body.len() == 65 + body[64] + 8,
        parse_pdu(5, body) is Ok ==> parse_pdu(5, body)->Ok_0 is Deliver,
        parse_pdu(5, body) matches Ok(PduView::Deliver(d)) ==> {
            &&& d.msg_id == body.subrange(0, 8)
            &&& d.dest_id == field_text(body.subrange(8, 29))
            &&& d.service_id == field_text(body.subrange(29, 39))
            &&& d.tp_pid == body[39]
            &&& d.tp_udhi == body[40]
            &&& d.msg_fmt == body[41]
            &&& d.src_terminal_id == field_text(body.subrange(42, 63))
            &&& d.registered_delivery == body[63]
            &&& d.msg_content.len() == body[64]
            &&& d.msg_content == body.subrange(65, 65 + body[64])
        },
{
}

/// The body of an ACTIVE_TEST, a TERMINATE or a TERMINATE_RESP is read when it is empty, that of
/// an ACTIVE_TEST_RESP when it has one byte, whatever that byte holds. No command id but the ten
/// of CMPP 2.0 is read at all.
pub proof fn plain_bodies_are_read_by_length(command_id: u32, body: Seq<u8>)
    ensures
        parse_pdu(8, body) is Ok <==> body.len() == 0,
        body.len() == 0 ==> parse_pdu(8, body) == Ok::<PduView, Seq<char>>(PduView::ActiveTest),
        parse_pdu(0x8000_0008, body) is Ok <==> body.len() == 1,
        body.len() == 1 ==> parse_pdu(0x8000_0008, body) == Ok::<PduView, Seq<char>>(
            PduView::ActiveTestResp,
        ),
        parse_pdu(2, body) is Ok <==> body.len() == 0,
        body.len() == 0 ==> parse_pdu(2, body) == Ok::<PduView, Seq<char>>(PduView::Terminate),
        parse_pdu(0x8000_0002, body) is Ok <==> body.len() == 0,
        body.len() == 0 ==> parse_pdu(0x8000_0002, body) == Ok::<PduView, Seq<char>>(
            PduView::TerminateResp,
        ),
        parse_pdu(command_id, body) is Ok ==> {
            ||| command_id == 1 || command_id == 2 || command_id == 4
            ||| command_id == 5 || command_id == 8
            ||| command_id == 0x8000_0001 || command_id == 0x8000_0002
            ||| command_id == 0x8000_0004 || command_id == 0x8000_0005
            ||| command_id == 0x8000_0008
        },
{
}

/// A status report is read from 60 bytes or more, each field from its offset; what stands behind
/// the first 60 bytes does not matter.
pub proof fn report_is_read_by_offset(content: Seq<u8>)
    ensures
        parse_report(content) is Some <==> content.len() >= 60,
        parse_report(content) matches Some(r) ==> {
            &&& r.msg_id == content.subrange(0, 8)
            &&& r.stat == field_text(content.subrange(8, 15))
            &&& r.submit_time == field_text(content.subrange(15, 25))
            &&& r.done_time == field_text(content.subrange(25, 35))
            &&& r.dest_terminal_id == field_text(content.subrange(35, 56))
            &&& r.smsc_sequence == content[56] * 16777216 + content[57] * 65536 + content[58]
                * 256 + content[59]
        },
{
}

/// Too many destinations are named before too much content.
pub proof fn first_encoding_fault_is_named(p: PduView)
    ensures
        p matches PduView::Submit(s) ==> {
            &&& s.dest_terminal_ids.len() > 255 ==> p.fault() == Some(
                "SUBMIT destination 数量超过 255"@,
            )
            &&& s.dest_terminal_ids.len() <= 255 && s.msg_content.len() > 255 ==> p.fault() == Some(
                "SUBMIT Msg_Content 长度超过 255 bytes"@,
            )
        },
        p matches PduView::Deliver(d) ==> (d.msg_content.len() > 255 ==> p.fault() == Some(
            "DELIVER Msg_Content 长度超过 255 bytes"@,
        )),
{
}

/// A body that ends too early is told by the field in which it ends: its offset is within the
/// body, its end is not, and no other field of the message has that offset.
pub proof fn short_bodies_end_inside_a_field(len: nat)
    ensures
        len < 27 ==> {
            let (n, offset) = connect_field(len);
            &&& offset <= len < offset + n
            &&& (n, offset) == (6nat, 0nat) || (n, offset) == (16nat, 6nat) || (n, offset) == (
                1nat,
                22nat,
            ) || (n, offset) == (4nat, 23nat)
        },
        len < 18 ==> {
            let (n, offset) = connect_resp_field(len);
            &&& offset <= len < offset + n
            &&& (n, offset) == (1nat, 0nat) || (n, offset) == (16nat, 1nat) || (n, offset) == (
                1nat,
                17nat,
            )
        },
        len < 117 ==> {
            let (n, offset) = submit_field(len);
            &&& offset <= len < offset + n
            &&& n == 1 || (n, offset) == (8nat, 0nat) || (n, offset) == (10nat, 12nat) || (
            n, offset) == (21nat, 23nat) || (n, offset) == (6nat, 47nat) || (n, offset) == (
                2nat,
                53nat,
            ) || (n, offset) == (6nat, 55nat) || (n, offset) == (17nat, 61nat) || (n, offset) == (
                17nat,
                78nat,
            ) || (n, offset) == (21nat, 95nat)
            &&& n == 1 ==> 8 <= offset < 12 || offset == 22 || 44 <= offset < 47 || offset == 116
        },
        len < 65 ==> {
            let (n, offset) = deliver_field(len);
            &&& offset <= len < offset + n
            &&& n == 1 || (n, offset) == (8nat, 0nat) || (n, offset) == (21nat, 8nat) || (
            n, offset) == (10nat, 29nat) || (n, offset) == (21nat, 42nat)
            &&& n == 1 ==> 39 <= offset < 42 || offset == 63 || offset == 64
        },
{
}

} // verus!
