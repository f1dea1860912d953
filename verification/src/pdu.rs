//! Typed CMPP 2.0 messages with binary encoding and decoding.
use bytes::{Bytes, BytesMut};
use chrono::{Datelike, Timelike, Utc};
use md5::{Digest, Md5};
use vstd::prelude::*;
use vstd::slice::{slice_subrange, slice_to_vec};
use vstd::string::*;
use vstd::utf8::encode_utf8;

use crate::buffer::{
    buffer_contents, buffer_slice_mut, frozen_contents, has_room, put_slice, put_u32, put_u8,
};
use crate::error::{Error, Result};
use crate::octets::{
    array16, array8, be32, field_text, put_octet_str, read_octet_str, read_u32, require_body_len,
    BodyReader,
};
use crate::text::{fixed_digits, hex_bytes, hex_string, push_decimal, push_fixed_digits};
use crate::types::{
    CmppHeader, CMPP_ACTIVE_TEST, CMPP_ACTIVE_TEST_RESP, CMPP_CONNECT, CMPP_CONNECT_RESP,
    CMPP_DELIVER, CMPP_DELIVER_RESP, CMPP_HEADER_LENGTH, CMPP_SUBMIT, CMPP_SUBMIT_RESP,
    CMPP_TERMINATE, CMPP_TERMINATE_RESP,
};
use crate::wire::{
    destination_fields, parse_ack, parse_connect, parse_connect_resp, parse_deliver, parse_pdu,
    parse_report, parse_submit, reserved, AckView, ConnectRespView, ConnectView, DeliverView,
    FrameView, Parsed, PduView, ReportView, SubmitView,
};

verus! {

/// `CMPP_CONNECT` body.
#[derive(Debug, Clone, PartialEq, Eq)]
pub struct Connect {
    /// Source address (the SP id), 6 octets.
    pub source_addr: String,
    /// `MD5(Source_Addr + 9 zero bytes + shared secret + timestamp)`.
    pub authenticator_source: [u8; 16],
    /// Protocol version (0x20 for CMPP 2.0).
    pub version: u8,
    /// Timestamp, read as the decimal number `MMDDHHMMSS`.
    pub timestamp: u32,
}

/// `CMPP_CONNECT_RESP` body.
#[derive(Debug, Clone, PartialEq, Eq)]
pub struct ConnectResp {
    /// Login status (0 = success).
    pub status: u8,
    /// `MD5(Status + AuthenticatorSource + shared secret)`.
    pub authenticator_ismg: [u8; 16],
    /// Protocol version that the ISMG echoes.
    pub version: u8,
}

/// `CMPP_SUBMIT` body: one SMS segment.
#[derive(Debug, Clone, PartialEq, Eq)]
pub struct Submit {
    /// Message id; zero in a request, the ISMG assigns it.
    pub msg_id: [u8; 8],
    /// Number of segments of the message.
    pub pk_total: u8,
    /// Number of this segment, counted from 1.
    pub pk_number: u8,
    /// Whether a status report is wanted (1 = yes).
    pub registered_delivery: u8,
    /// Priority.
    pub msg_level: u8,
    /// Service id, 10 octets.
    pub service_id: String,
    /// Fee user type.
    pub fee_user_type: u8,
    /// Fee terminal id, 21 octets.
    pub fee_terminal_id: String,
    /// GSM TP-PID.
    pub tp_pid: u8,
    /// GSM TP-UDHI: 1 if the content starts with a user data header.
    pub tp_udhi: u8,
    /// Message format (see `encoding::MSG_FMT_*`).
    pub msg_fmt: u8,
    /// Message source (the SP id), 6 octets.
    pub msg_src: String,
    /// Fee type, 2 octets.
    pub fee_type: String,
    /// Fee code, 6 octets.
    pub fee_code: String,
    /// Validity period, 17 octets.
    pub valid_time: String,
    /// Scheduled delivery time, 17 octets.
    pub at_time: String,
    /// Source id (access number and extension), 21 octets.
    pub src_id: String,
    /// Destination numbers, 21 octets each.
    pub dest_terminal_ids: Vec<String>,
    /// Encoded content, with the 6-byte user data header if `tp_udhi` is 1.
    pub msg_content: Vec<u8>,
}

/// `CMPP_SUBMIT_RESP` body.
#[derive(Debug, Clone, PartialEq, Eq)]
pub struct SubmitResp {
    /// Message id that the ISMG assigned.
    pub msg_id: [u8; 8],
    /// Result code (0 = success).
    pub result: u8,
}

/// `CMPP_DELIVER` body: a status report or a mobile-originated message.
#[derive(Debug, Clone, PartialEq, Eq)]
pub struct Deliver {
    /// Message id.
    pub msg_id: [u8; 8],
    /// Destination id (the SP's access number), 21 octets.
    pub dest_id: String,
    /// Service id, 10 octets.
    pub service_id: String,
    /// GSM TP-PID.
    pub tp_pid: u8,
    /// GSM TP-UDHI.
    pub tp_udhi: u8,
    /// Message format.
    pub msg_fmt: u8,
    /// Source terminal id (the mobile number), 21 octets.
    pub src_terminal_id: String,
    /// 1 for a status report, 0 for a mobile-originated message.
    pub registered_delivery: u8,
    /// Raw content.
    pub msg_content: Vec<u8>,
}

/// `CMPP_DELIVER_RESP` body.
#[derive(Debug, Clone, PartialEq, Eq)]
pub struct DeliverResp {
    /// `Msg_Id` of the DELIVER that is answered.
    pub msg_id: [u8; 8],
    /// Result code (0 = success).
    pub result: u8,
}

/// A parsed status report.
#[derive(Debug, Clone, PartialEq, Eq)]
pub struct DeliverReport {
    /// `Msg_Id` of the SUBMIT that the report is about.
    pub msg_id: [u8; 8],
    /// Final state, such as `DELIVRD`, `EXPIRED` or `UNDELIV`.
    pub stat: String,
    /// Submit time, `yyMMddHHmm`.
    pub submit_time: String,
    /// Done time, `yyMMddHHmm`.
    pub done_time: String,
    /// Destination number.
    pub dest_terminal_id: String,
    /// Sequence number of the SMSC.
    pub smsc_sequence: u32,
}

/// A CMPP 2.0 protocol data unit.
#[derive(Debug, Clone, PartialEq, Eq)]
pub enum Pdu {
    /// `CMPP_CONNECT`: login request.
    Connect(Connect),
    /// `CMPP_CONNECT_RESP`: login response.
    ConnectResp(ConnectResp),
    /// `CMPP_SUBMIT`: mobile-terminated message.
    Submit(Box<Submit>),
    /// `CMPP_SUBMIT_RESP`.
    SubmitResp(SubmitResp),
    /// `CMPP_DELIVER`: status report or mobile-originated message.
    Deliver(Deliver),
    /// `CMPP_DELIVER_RESP`.
    DeliverResp(DeliverResp),
    /// `CMPP_ACTIVE_TEST`: link heartbeat.
    ActiveTest,
    /// `CMPP_ACTIVE_TEST_RESP`.
    ActiveTestResp,
    /// `CMPP_TERMINATE`: orderly end of the link.
    Terminate,
    /// `CMPP_TERMINATE_RESP`.
    TerminateResp,
}

/// A PDU with its sequence id: what the codec reads and writes.
#[derive(Debug, Clone, PartialEq, Eq)]
pub struct Frame {
    /// Sequence id that pairs a request with its response.
    pub sequence_id: u32,
    /// The protocol data unit.
    pub pdu: Pdu,
}

/// The characters of each string.
pub open spec fn texts(strings: Seq<String>) -> Seq<Seq<char>> {
    Seq::new(strings.len(), |i: int| strings[i]@)
}

impl View for Connect {
    type V = ConnectView;

    open spec fn view(&self) -> ConnectView {
        ConnectView {
            source_addr: self.source_addr@,
            authenticator_source: self.authenticator_source@,
            version: self.version,
            timestamp: self.timestamp,
        }
    }
}

impl View for ConnectResp {
    type V = ConnectRespView;

    open spec fn view(&self) -> ConnectRespView {
        ConnectRespView {
            status: self.status,
            authenticator_ismg: self.authenticator_ismg@,
            version: self.version,
        }
    }
}

impl View for Submit {
    type V = SubmitView;

    open spec fn view(&self) -> SubmitView {
        SubmitView {
            msg_id: self.msg_id@,
            pk_total: self.pk_total,
            pk_number: self.pk_number,
            registered_delivery: self.registered_delivery,
            msg_level: self.msg_level,
            service_id: self.service_id@,
            fee_user_type: self.fee_user_type,
            fee_terminal_id: self.fee_terminal_id@,
            tp_pid: self.tp_pid,
            tp_udhi: self.tp_udhi,
            msg_fmt: self.msg_fmt,
            msg_src: self.msg_src@,
            fee_type: self.fee_type@,
            fee_code: self.fee_code@,
            valid_time: self.valid_time@,
            at_time: self.at_time@,
            src_id: self.src_id@,
            dest_terminal_ids: texts(self.dest_terminal_ids@),
            msg_content: self.msg_content@,
        }
    }
}

impl View for SubmitResp {
    type V = AckView;

    open spec fn view(&self) -> AckView {
        AckView { msg_id: self.msg_id@, result: self.result }
    }
}

impl View for Deliver {
    type V = DeliverView;

    open spec fn view(&self) -> DeliverView {
        DeliverView {
            msg_id: self.msg_id@,
            dest_id: self.dest_id@,
            service_id: self.service_id@,
            tp_pid: self.tp_pid,
            tp_udhi: self.tp_udhi,
            msg_fmt: self.msg_fmt,
            src_terminal_id: self.src_terminal_id@,
            registered_delivery: self.registered_delivery,
            msg_content: self.msg_content@,
        }
    }
}

impl View for DeliverResp {
    type V = AckView;

    open spec fn view(&self) -> AckView {
        AckView { msg_id: self.msg_id@, result: self.result }
    }
}

impl View for DeliverReport {
    type V = ReportView;

    open spec fn view(&self) -> ReportView {
        ReportView {
            msg_id: self.msg_id@,
            stat: self.stat@,
            submit_time: self.submit_time@,
            done_time: self.done_time@,
            dest_terminal_id: self.dest_terminal_id@,
            smsc_sequence: self.smsc_sequence,
        }
    }
}

impl View for Pdu {
    type V = PduView;

    open spec fn view(&self) -> PduView {
        match *self {
            Pdu::Connect(p) => PduView::Connect(p@),
            Pdu::ConnectResp(p) => PduView::ConnectResp(p@),
            Pdu::Submit(p) => PduView::Submit((*p)@),
            Pdu::SubmitResp(p) => PduView::SubmitResp(p@),
            Pdu::Deliver(p) => PduView::Deliver(p@),
            Pdu::DeliverResp(p) => PduView::DeliverResp(p@),
            Pdu::ActiveTest => PduView::ActiveTest,
            Pdu::ActiveTestResp => PduView::ActiveTestResp,
            Pdu::Terminate => PduView::Terminate,
            Pdu::TerminateResp => PduView::TerminateResp,
        }
    }
}

impl View for Frame {
    type V = FrameView;

    open spec fn view(&self) -> FrameView {
        FrameView { sequence_id: self.sequence_id, pdu: self.pdu@ }
    }
}

/// The outcome of reading: the value, or a decode error with the given text.
pub open spec fn decoded<V, T: View<V = V>>(result: Result<T>, parsed: Parsed<V>) -> bool {
    match parsed {
        Ok(v) => result matches Ok(value) && value@ == v,
        Err(text) => result matches Err(e) && e.is_decode(text),
    }
}

/// The outcome of a check: nothing, or a configuration error with the given text.
pub open spec fn checked(result: Result<()>, fault: Option<Seq<char>>) -> bool {
    match fault {
        None => result is Ok,
        Some(text) => result matches Err(e) && e.is_config(text),
    }
}

impl Submit {
    /// Checks that the counts fit their one-byte fields.
    fn validate_encode(&self) -> (result: Result<()>)
        ensures
            checked(result, self@.fault()),
    {
        if self.dest_terminal_ids.len() > 255 {
            return Err(Error::Config("SUBMIT destination 数量超过 255".to_string()));
        }
        if self.msg_content.len() > 255 {
            return Err(Error::Config("SUBMIT Msg_Content 长度超过 255 bytes".to_string()));
        }
        Ok(())
    }

    /// The length of the body, or the largest number where it is larger still.
    fn body_len_hint(&self) -> (n: usize)
        ensures
            n == if self@.body().len() <= usize::MAX {
                self@.body().len()
            } else {
                usize::MAX as nat
            },
    {
        let ids: usize = match self.dest_terminal_ids.len().checked_mul(21) {
            Some(n) => n,
            None => usize::MAX,
        };
        126usize.saturating_add(ids).saturating_add(self.msg_content.len())
    }

    /// Appends the body.
    fn encode_body(&self, buf: &mut BytesMut)
        requires
            self@.fault() is None,
            has_room(buffer_contents(*old(buf)).len(), self@.body().len()),
        ensures
            buffer_contents(*final(buf)) == buffer_contents(*old(buf)) + self@.body(),
    {
        let ghost start = buffer_contents(*buf);
        self.encode_head(buf);
        put_u8(buf, self.dest_terminal_ids.len() as u8);
        let ghost mid = buffer_contents(*buf);
        let mut i: usize = 0;
        assert(mid =~= mid + destination_fields(self@.dest_terminal_ids.take(0)));
        while i < self.dest_terminal_ids.len()
            invariant
                i <= self.dest_terminal_ids@.len(),
                has_room(mid.len(), 21 * self.dest_terminal_ids@.len()),
                buffer_contents(*buf) == mid + destination_fields(
                    self@.dest_terminal_ids.take(i as int),
                ),
            decreases self.dest_terminal_ids@.len() - i,
        {
            put_octet_str(buf, self.dest_terminal_ids[i].as_str(), 21);
            assert(buffer_contents(*buf) =~= mid + destination_fields(
                self@.dest_terminal_ids.take(i as int + 1),
            ));
            i = i + 1;
        }
        assert(self@.dest_terminal_ids.take(i as int) =~= self@.dest_terminal_ids);
        put_u8(buf, self.msg_content.len() as u8);
        put_slice(buf, self.msg_content.as_slice());
        let zeros: [u8; 8] = [0u8; 8];
        put_slice(buf, &zeros);
        assert(zeros@ =~= reserved());
        assert(buffer_contents(*buf) =~= start + self@.body());
    }

    /// Appends the fields up to the destination count.
    fn encode_head(&self, buf: &mut BytesMut)
        requires
            has_room(buffer_contents(*old(buf)).len(), self@.head().len()),
        ensures
            buffer_contents(*final(buf)) == buffer_contents(*old(buf)) + self@.head(),
    {
        let ghost start = buffer_contents(*buf);
        put_slice(buf, &self.msg_id);
        put_u8(buf, self.pk_total);
        put_u8(buf, self.pk_number);
        put_u8(buf, self.registered_delivery);
        put_u8(buf, self.msg_level);
        put_octet_str(buf, self.service_id.as_str(), 10);
        put_u8(buf, self.fee_user_type);
        put_octet_str(buf, self.fee_terminal_id.as_str(), 21);
        put_u8(buf, self.tp_pid);
        put_u8(buf, self.tp_udhi);
        put_u8(buf, self.msg_fmt);
        put_octet_str(buf, self.msg_src.as_str(), 6);
        put_octet_str(buf, self.fee_type.as_str(), 2);
        put_octet_str(buf, self.fee_code.as_str(), 6);
        put_octet_str(buf, self.valid_time.as_str(), 17);
        put_octet_str(buf, self.at_time.as_str(), 17);
        put_octet_str(buf, self.src_id.as_str(), 21);
        assert(buffer_contents(*buf) =~= start + self@.head());
    }

    /// Reads a body.
    pub fn decode(body: &[u8]) -> (result: Result<Submit>)
        ensures
            decoded(result, parse_submit(body@)),
    {
        let mut r: BodyReader = BodyReader::new(body);
        let msg_id: [u8; 8] = array8(r.take(8)?);
        let pk_total: u8 = r.u8()?;
        let pk_number: u8 = r.u8()?;
        let registered_delivery: u8 = r.u8()?;
        let msg_level: u8 = r.u8()?;
        let service_id: String = read_octet_str(r.take(10)?);
        let fee_user_type: u8 = r.u8()?;
        let fee_terminal_id: String = read_octet_str(r.take(21)?);
        let tp_pid: u8 = r.u8()?;
        let tp_udhi: u8 = r.u8()?;
        let msg_fmt: u8 = r.u8()?;
        let msg_src: String = read_octet_str(r.take(6)?);
        let fee_type: String = read_octet_str(r.take(2)?);
        let fee_code: String = read_octet_str(r.take(6)?);
        let valid_time: String = read_octet_str(r.take(17)?);
        let at_time: String = read_octet_str(r.take(17)?);
        let src_id: String = read_octet_str(r.take(21)?);
        let dest_count: usize = r.u8()? as usize;
        if r.remaining() < dest_count * 21 + 9 {
            let mut text: String =
                "CMPP_SUBMIT destination 数量与 body 长度不匹配: count=".to_string();
            push_decimal(&mut text, dest_count as u64);
            return Err(Error::Decode(text));
        }
        let mut dest_terminal_ids: Vec<String> = Vec::with_capacity(dest_count);
        let mut i: usize = 0;
        while i < dest_count
            invariant
                i <= dest_count <= 255,
                r.wf(),
                r.bytes() == body@,
                r.offset() == 117 + 21 * i,
                body@.len() >= 117 + 21 * dest_count + 9,
                dest_terminal_ids@.len() == i,
                forall|j: int|
                    0 <= j < i ==> (#[trigger] dest_terminal_ids@[j])@ == field_text(
                        body@.subrange(117 + 21 * j, 138 + 21 * j),
                    ),
            decreases dest_count - i,
        {
            dest_terminal_ids.push(read_octet_str(r.take(21)?));
            i = i + 1;
        }
        let msg_length: usize = r.u8()? as usize;
        let msg_content: Vec<u8> = slice_to_vec(r.take(msg_length)?);
        r.take(8)?;
        r.finish("CMPP_SUBMIT")?;
        let submit: Submit = Submit {
            msg_id,
            pk_total,
            pk_number,
            registered_delivery,
            msg_level,
            service_id,
            fee_user_type,
            fee_terminal_id,
            tp_pid,
            tp_udhi,
            msg_fmt,
            msg_src,
            fee_type,
            fee_code,
            valid_time,
            at_time,
            src_id,
            dest_terminal_ids,
            msg_content,
        };
        assert(parse_submit(body@) is Ok);
        assert(submit@ =~= parse_submit(body@)->Ok_0);
        Ok(submit)
    }
}

impl Connect {
    /// A CONNECT for the given credentials, stamped with the present UTC time.
    pub fn new(source_addr: &str, shared_secret: &str, version: u8) -> (connect: Connect)
        ensures
            connect.source_addr@ == source_addr@,
            connect.version == version,
            connect.authenticator_source@ == authenticator_source(
                source_addr@,
                shared_secret@,
                connect.timestamp,
            ),
            is_timestamp(connect.timestamp),
    {
        Connect::at_moment(source_addr, shared_secret, version, utc_now())
    }

    /// A CONNECT for the given credentials, stamped with a moment: its month, day, hour, minute and
    /// second.
    pub fn at_moment(
        source_addr: &str,
        shared_secret: &str,
        version: u8,
        moment: (u32, u32, u32, u32, u32),
    ) -> (connect: Connect)
        requires
            is_moment(moment),
        ensures
            is_timestamp(connect.timestamp),
            connect.timestamp == moment_timestamp(moment),
            connect@ == (ConnectView {
                source_addr: source_addr@,
                authenticator_source: authenticator_source(
                    source_addr@,
                    shared_secret@,
                    connect.timestamp,
                ),
                version,
                timestamp: connect.timestamp,
            }),
    {
        let timestamp: u32 = pack_timestamp(moment.0, moment.1, moment.2, moment.3, moment.4);
        Connect::with_timestamp(source_addr, shared_secret, version, timestamp)
    }

    /// A CONNECT for the given credentials and timestamp.
    pub fn with_timestamp(
        source_addr: &str,
        shared_secret: &str,
        version: u8,
        timestamp: u32,
    ) -> (connect: Connect)
        ensures
            connect@ == (ConnectView {
                source_addr: source_addr@,
                authenticator_source: authenticator_source(
                    source_addr@,
                    shared_secret@,
                    timestamp,
                ),
                version,
                timestamp,
            }),
    {
        let authenticator_source: [u8; 16] = compute_authenticator_source(
            source_addr,
            shared_secret,
            timestamp,
        );
        Connect { source_addr: source_addr.to_string(), authenticator_source, version, timestamp }
    }

    /// Appends the body.
    fn encode_body(&self, buf: &mut BytesMut)
        requires
            has_room(buffer_contents(*old(buf)).len(), self@.body().len()),
        ensures
            buffer_contents(*final(buf)) == buffer_contents(*old(buf)) + self@.body(),
    {
        let ghost start = buffer_contents(*buf);
        put_octet_str(buf, self.source_addr.as_str(), 6);
        put_slice(buf, &self.authenticator_source);
        put_u8(buf, self.version);
        put_u32(buf, self.timestamp);
        assert(buffer_contents(*buf) =~= start + self@.body());
    }

    /// Reads a body.
    pub fn decode(body: &[u8]) -> (result: Result<Connect>)
        ensures
            decoded(result, parse_connect(body@)),
    {
        let mut r: BodyReader = BodyReader::new(body);
        let source_addr: String = read_octet_str(r.take(6)?);
        let authenticator_source: [u8; 16] = array16(r.take(16)?);
        let version: u8 = r.u8()?;
        let timestamp: u32 = r.u32()?;
        r.finish("CMPP_CONNECT")?;
        Ok(Connect { source_addr, authenticator_source, version, timestamp })
    }
}

/// What MD5 makes of `data`.
pub uninterp spec fn md5_of(data: Seq<u8>) -> Seq<u8>;

/// `Md5::digest` of the `md-5` crate: a digest that depends on the data alone.
#[verifier::external_body]
fn md5_digest(data: &[u8]) -> (digest: [u8; 16])
    ensures
        digest@ == md5_of(data@),
{
    Md5::digest(data).into()
}

/// Whether five numbers are a month, a day, an hour, a minute and a second.
pub open spec fn is_moment(moment: (u32, u32, u32, u32, u32)) -> bool {
    &&& 1 <= moment.0 <= 12
    &&& 1 <= moment.1 <= 31
    &&& moment.2 <= 23
    &&& moment.3 <= 59
    &&& moment.4 <= 59
}

/// The `MMDDHHMMSS` of a moment.
pub open spec fn moment_timestamp(moment: (u32, u32, u32, u32, u32)) -> nat {
    packed_timestamp(
        moment.0 as nat,
        moment.1 as nat,
        moment.2 as nat,
        moment.3 as nat,
        moment.4 as nat,
    )
}

/// `Utc::now` of the `chrono` crate, taken apart by its `Datelike` and `Timelike` accessors:
/// month, day, hour, minute and second in their calendar ranges. Which moment it is, nothing
/// says.
#[verifier::external_body]
fn utc_now() -> (now: (u32, u32, u32, u32, u32))
    ensures
        is_moment(now),
{
    let now = Utc::now();
    (now.month(), now.day(), now.hour(), now.minute(), now.second())
}

/// Month, day, hour, minute and second as the decimal number `MMDDHHMMSS`.
pub open spec fn packed_timestamp(month: nat, day: nat, hour: nat, minute: nat, second: nat) -> nat {
    month * 100_000_000 + day * 1_000_000 + hour * 10_000 + minute * 100 + second
}

/// Whether a number is the `MMDDHHMMSS` of some moment.
pub open spec fn is_timestamp(timestamp: u32) -> bool {
    exists|month: nat, day: nat, hour: nat, minute: nat, second: nat|
        1 <= month <= 12 && 1 <= day <= 31 && hour <= 23 && minute <= 59 && second <= 59
            && timestamp == #[trigger] packed_timestamp(month, day, hour, minute, second)
}

/// Packs a moment into the timestamp field.
pub fn pack_timestamp(month: u32, day: u32, hour: u32, minute: u32, second: u32) -> (timestamp: u32)
    requires
        1 <= month <= 12,
        1 <= day <= 31,
        hour <= 23,
        minute <= 59,
        second <= 59,
    ensures
        timestamp == packed_timestamp(
            month as nat,
            day as nat,
            hour as nat,
            minute as nat,
            second as nat,
        ),
{
    month * 100_000_000 + day * 1_000_000 + hour * 10_000 + minute * 100 + second
}

/// The `AuthenticatorSource` of a CONNECT: the MD5 digest of the source address, nine zero
/// bytes, the shared secret and the timestamp in ten decimal digits.
pub open spec fn authenticator_source(
    source_addr: Seq<char>,
    shared_secret: Seq<char>,
    timestamp: u32,
) -> Seq<u8> {
    md5_of(
        encode_utf8(source_addr) + Seq::new(9, |i: int| 0u8) + encode_utf8(shared_secret)
            + encode_utf8(fixed_digits(timestamp as nat, 10, 10)),
    )
}

/// The `AuthenticatorISMG` of a CONNECT_RESP: the MD5 digest of the status, the
/// `AuthenticatorSource` and the shared secret.
pub open spec fn authenticator_ismg(
    status: u8,
    source: Seq<u8>,
    shared_secret: Seq<char>,
) -> Seq<u8> {
    md5_of(seq![status] + source + encode_utf8(shared_secret))
}

/// Computes the `AuthenticatorSource` of a CONNECT.
pub fn compute_authenticator_source(
    source_addr: &str,
    shared_secret: &str,
    timestamp: u32,
) -> (digest: [u8; 16])
    ensures
        digest@ == authenticator_source(source_addr@, shared_secret@, timestamp),
{
    let mut data: Vec<u8> = slice_to_vec(source_addr.as_bytes());
    let zeros: [u8; 9] = [0u8; 9];
    data.extend_from_slice(&zeros);
    data.extend_from_slice(shared_secret.as_bytes());
    let mut stamp: String = String::new();
    push_fixed_digits(&mut stamp, timestamp, 10, 10);
    data.extend_from_slice(stamp.as_str().as_bytes());
    assert(zeros@ =~= Seq::new(9, |i: int| 0u8));
    assert(stamp@ =~= fixed_digits(timestamp as nat, 10, 10));
    assert(data@ =~= encode_utf8(source_addr@) + Seq::new(9, |i: int| 0u8) + encode_utf8(
        shared_secret@,
    ) + encode_utf8(fixed_digits(timestamp as nat, 10, 10)));
    md5_digest(data.as_slice())
}

/// Computes the `AuthenticatorISMG` that a CONNECT_RESP must carry.
pub fn compute_authenticator_ismg(
    status: u8,
    authenticator_source: &[u8; 16],
    shared_secret: &str,
) -> (digest: [u8; 16])
    ensures
        digest@ == authenticator_ismg(status, authenticator_source@, shared_secret@),
{
    let mut data: Vec<u8> = Vec::new();
    data.push(status);
    data.extend_from_slice(authenticator_source);
    data.extend_from_slice(shared_secret.as_bytes());
    assert(data@ =~= seq![status] + authenticator_source@ + encode_utf8(shared_secret@));
    md5_digest(data.as_slice())
}

impl ConnectResp {
    /// Appends the body.
    fn encode_body(&self, buf: &mut BytesMut)
        requires
            has_room(buffer_contents(*old(buf)).len(), self@.body().len()),
        ensures
            buffer_contents(*final(buf)) == buffer_contents(*old(buf)) + self@.body(),
    {
        let ghost start = buffer_contents(*buf);
        put_u8(buf, self.status);
        put_slice(buf, &self.authenticator_ismg);
        put_u8(buf, self.version);
        assert(buffer_contents(*buf) =~= start + self@.body());
    }

    /// Reads a body.
    pub fn decode(body: &[u8]) -> (result: Result<ConnectResp>)
        ensures
            decoded(result, parse_connect_resp(body@)),
    {
        let mut r: BodyReader = BodyReader::new(body);
        let status: u8 = r.u8()?;
        let authenticator_ismg: [u8; 16] = array16(r.take(16)?);
        let version: u8 = r.u8()?;
        r.finish("CMPP_CONNECT_RESP")?;
        Ok(ConnectResp { status, authenticator_ismg, version })
    }
}

impl SubmitResp {
    /// Appends the body.
    fn encode_body(&self, buf: &mut BytesMut)
        requires
            has_room(buffer_contents(*old(buf)).len(), self@.body().len()),
        ensures
            buffer_contents(*final(buf)) == buffer_contents(*old(buf)) + self@.body(),
    {
        let ghost start = buffer_contents(*buf);
        put_slice(buf, &self.msg_id);
        put_u8(buf, self.result);
        assert(buffer_contents(*buf) =~= start + self@.body());
    }

    /// Reads a body.
    pub fn decode(body: &[u8]) -> (result: Result<SubmitResp>)
        ensures
            decoded(result, parse_ack(body@, "CMPP_SUBMIT_RESP"@)),
    {
        let mut r: BodyReader = BodyReader::new(body);
        let msg_id: [u8; 8] = array8(r.take(8)?);
        let result: u8 = r.u8()?;
        r.finish("CMPP_SUBMIT_RESP")?;
        Ok(SubmitResp { msg_id, result })
    }
}

impl Deliver {
    /// The status report that this message carries, if it is one.
    pub fn report(&self) -> (report: Option<DeliverReport>)
        ensures
            if self.registered_delivery == 1 {
                reported(report, parse_report(self.msg_content@))
            } else {
                report is None
            },
    {
        if self.registered_delivery == 1 {
            DeliverReport::parse(self.msg_content.as_slice())
        } else {
            None
        }
    }

    /// The length of the body, or the largest number where it is larger still.
    fn body_len_hint(&self) -> (n: usize)
        ensures
            n == if self@.body().len() <= usize::MAX {
                self@.body().len()
            } else {
                usize::MAX as nat
            },
    {
        73usize.saturating_add(self.msg_content.len())
    }

    /// Checks that the content length fits its one-byte field.
    fn validate_encode(&self) -> (result: Result<()>)
        ensures
            checked(result, self@.fault()),
    {
        if self.msg_content.len() > 255 {
            return Err(Error::Config("DELIVER Msg_Content 长度超过 255 bytes".to_string()));
        }
        Ok(())
    }

    /// Appends the body.
    fn encode_body(&self, buf: &mut BytesMut)
        requires
            self@.fault() is None,
            has_room(buffer_contents(*old(buf)).len(), self@.body().len()),
        ensures
            buffer_contents(*final(buf)) == buffer_contents(*old(buf)) + self@.body(),
    {
        let ghost start = buffer_contents(*buf);
        put_slice(buf, &self.msg_id);
        put_octet_str(buf, self.dest_id.as_str(), 21);
        put_octet_str(buf, self.service_id.as_str(), 10);
        put_u8(buf, self.tp_pid);
        put_u8(buf, self.tp_udhi);
        put_u8(buf, self.msg_fmt);
        put_octet_str(buf, self.src_terminal_id.as_str(), 21);
        put_u8(buf, self.registered_delivery);
        put_u8(buf, self.msg_content.len() as u8);
        put_slice(buf, self.msg_content.as_slice());
        let zeros: [u8; 8] = [0u8; 8];
        put_slice(buf, &zeros);
        assert(zeros@ =~= reserved());
        assert(buffer_contents(*buf) =~= start + self@.body());
    }

    /// Reads a body.
    pub fn decode(body: &[u8]) -> (result: Result<Deliver>)
        ensures
            decoded(result, parse_deliver(body@)),
    {
        let mut r: BodyReader = BodyReader::new(body);
        let msg_id: [u8; 8] = array8(r.take(8)?);
        let dest_id: String = read_octet_str(r.take(21)?);
        let service_id: String = read_octet_str(r.take(10)?);
        let tp_pid: u8 = r.u8()?;
        let tp_udhi: u8 = r.u8()?;
        let msg_fmt: u8 = r.u8()?;
        let src_terminal_id: String = read_octet_str(r.take(21)?);
        let registered_delivery: u8 = r.u8()?;
        let msg_length: usize = r.u8()? as usize;
        let msg_content: Vec<u8> = slice_to_vec(r.take(msg_length)?);
        r.take(8)?;
        r.finish("CMPP_DELIVER")?;
        Ok(
            Deliver {
                msg_id,
                dest_id,
                service_id,
                tp_pid,
                tp_udhi,
                msg_fmt,
                src_terminal_id,
                registered_delivery,
                msg_content,
            },
        )
    }
}

impl DeliverResp {
    /// Appends the body.
    fn encode_body(&self, buf: &mut BytesMut)
        requires
            has_room(buffer_contents(*old(buf)).len(), self@.body().len()),
        ensures
            buffer_contents(*final(buf)) == buffer_contents(*old(buf)) + self@.body(),
    {
        let ghost start = buffer_contents(*buf);
        put_slice(buf, &self.msg_id);
        put_u8(buf, self.result);
        assert(buffer_contents(*buf) =~= start + self@.body());
    }

    /// Reads a body.
    pub fn decode(body: &[u8]) -> (result: Result<DeliverResp>)
        ensures
            decoded(result, parse_ack(body@, "CMPP_DELIVER_RESP"@)),
    {
        let mut r: BodyReader = BodyReader::new(body);
        let msg_id: [u8; 8] = array8(r.take(8)?);
        let result: u8 = r.u8()?;
        r.finish("CMPP_DELIVER_RESP")?;
        Ok(DeliverResp { msg_id, result })
    }
}

/// The outcome of reading a status report.
pub open spec fn reported(report: Option<DeliverReport>, parsed: Option<ReportView>) -> bool {
    match parsed {
        None => report is None,
        Some(v) => report matches Some(r) && r@ == v,
    }
}

impl DeliverReport {
    /// The message id in lower-case hexadecimal.
    pub fn msg_id_hex(&self) -> (text: String)
        ensures
            text@ == hex_string(self.msg_id@),
    {
        hex_bytes(&self.msg_id)
    }

    /// Reads the 60-byte content of a status report; shorter content is none.
    pub fn parse(content: &[u8]) -> (report: Option<DeliverReport>)
        ensures
            reported(report, parse_report(content@)),
    {
        if content.len() < 60 {
            return None;
        }
        let msg_id: [u8; 8] = array8(slice_subrange(content, 0, 8));
        let stat: String = read_octet_str(slice_subrange(content, 8, 15));
        let submit_time: String = read_octet_str(slice_subrange(content, 15, 25));
        let done_time: String = read_octet_str(slice_subrange(content, 25, 35));
        let dest_terminal_id: String = read_octet_str(slice_subrange(content, 35, 56));
        let smsc_sequence: u32 = read_u32(slice_subrange(content, 56, 60));
        Some(
            DeliverReport {
                msg_id,
                stat,
                submit_time,
                done_time,
                dest_terminal_id,
                smsc_sequence,
            },
        )
    }
}

/// Starts a frame at the end of `dst`: room for all of it, then a header whose length is still
/// zero. Returns where the frame starts.
fn begin_frame(dst: &mut BytesMut, command_id: u32, sequence_id: u32, body_len: usize) -> (start:
    usize)
    requires
        has_room(buffer_contents(*old(dst)).len(), (CMPP_HEADER_LENGTH + body_len) as nat),
    ensures
        start == buffer_contents(*old(dst)).len(),
        buffer_contents(*final(dst)) == buffer_contents(*old(dst)) + be32(0) + be32(command_id)
            + be32(sequence_id),
{
    let start: usize = dst.len();
    dst.reserve(CMPP_HEADER_LENGTH + body_len);
    put_u32(dst, 0);
    put_u32(dst, command_id);
    put_u32(dst, sequence_id);
    start
}

/// Writes the length of the frame that starts at `start` into its header.
fn end_frame(dst: &mut BytesMut, start: usize)
    requires
        start + CMPP_HEADER_LENGTH <= buffer_contents(*old(dst)).len() <= start + u32::MAX,
    ensures
        buffer_contents(*final(dst)) == buffer_contents(*old(dst)).take(start as int) + be32(
            (buffer_contents(*old(dst)).len() - start) as u32,
        ) + buffer_contents(*old(dst)).skip(start + 4),
{
    let ghost before = buffer_contents(*dst);
    let total: u32 = (dst.len() - start) as u32;
    let bytes: &mut [u8] = buffer_slice_mut(dst);
    bytes[start] = (total / 0x100_0000) as u8;
    bytes[start + 1] = (total / 0x1_0000 % 0x100) as u8;
    bytes[start + 2] = (total / 0x100 % 0x100) as u8;
    bytes[start + 3] = (total % 0x100) as u8;
    assert(bytes@ =~= before.take(start as int) + be32(total) + before.skip(start + 4));
}

impl Pdu {
    /// The command id of the PDU.
    pub fn command_id(&self) -> (id: u32)
        ensures
            id == self@.command_id(),
    {
        match self {
            Pdu::Connect(_) => CMPP_CONNECT,
            Pdu::ConnectResp(_) => CMPP_CONNECT_RESP,
            Pdu::Submit(_) => CMPP_SUBMIT,
            Pdu::SubmitResp(_) => CMPP_SUBMIT_RESP,
            Pdu::Deliver(_) => CMPP_DELIVER,
            Pdu::DeliverResp(_) => CMPP_DELIVER_RESP,
            Pdu::ActiveTest => CMPP_ACTIVE_TEST,
            Pdu::ActiveTestResp => CMPP_ACTIVE_TEST_RESP,
            Pdu::Terminate => CMPP_TERMINATE,
            Pdu::TerminateResp => CMPP_TERMINATE_RESP,
        }
    }

    /// Header and body with the given sequence id, for a PDU whose counts fit their fields.
    pub fn encode(&self, sequence_id: u32) -> (bytes: Bytes)
        requires
            self@.fault() is None,
        ensures
            frozen_contents(bytes) == self@.frame(sequence_id),
    {
        let mut out: BytesMut = BytesMut::with_capacity(CMPP_HEADER_LENGTH + self.body_len_hint());
        self.encode_into_unchecked(sequence_id, &mut out);
        assert(buffer_contents(out) =~= self@.frame(sequence_id));
        out.freeze()
    }

    /// Header and body with the given sequence id, or the reason why a count does not fit its
    /// field.
    pub fn try_encode(&self, sequence_id: u32) -> (result: Result<Bytes>)
        ensures
            match self@.fault() {
                None => result matches Ok(bytes) && frozen_contents(bytes) == self@.frame(
                    sequence_id,
                ),
                Some(text) => result matches Err(e) && e.is_config(text),
            },
    {
        self.validate_encode()?;
        Ok(self.encode(sequence_id))
    }

    /// Appends header and body, or gives the reason why a count does not fit its field.
    pub fn try_encode_into(&self, sequence_id: u32, dst: &mut BytesMut) -> (result: Result<()>)
        requires
            self@.fault() is None ==> has_room(
                buffer_contents(*old(dst)).len(),
                self@.frame(sequence_id).len(),
            ),
        ensures
            checked(result, self@.fault()),
            buffer_contents(*final(dst)) == if self@.fault() is None {
                buffer_contents(*old(dst)) + self@.frame(sequence_id)
            } else {
                buffer_contents(*old(dst))
            },
    {
        self.validate_encode()?;
        self.encode_into_unchecked(sequence_id, dst);
        Ok(())
    }

    /// Appends header and body.
    fn encode_into_unchecked(&self, sequence_id: u32, dst: &mut BytesMut)
        requires
            self@.fault() is None,
            has_room(buffer_contents(*old(dst)).len(), self@.frame(sequence_id).len()),
        ensures
            buffer_contents(*final(dst)) == buffer_contents(*old(dst)) + self@.frame(sequence_id),
    {
        let ghost before = buffer_contents(*dst);
        let start: usize = begin_frame(dst, self.command_id(), sequence_id, self.body_len_hint());
        let ghost headed = buffer_contents(*dst);
        match self {
            Pdu::Connect(p) => p.encode_body(dst),
            Pdu::ConnectResp(p) => p.encode_body(dst),
            Pdu::Submit(p) => p.encode_body(dst),
            Pdu::SubmitResp(p) => p.encode_body(dst),
            Pdu::Deliver(p) => p.encode_body(dst),
            Pdu::DeliverResp(p) => p.encode_body(dst),
            Pdu::ActiveTest | Pdu::Terminate | Pdu::TerminateResp => {},
            Pdu::ActiveTestResp => put_u8(dst, 0),
        }
        assert(buffer_contents(*dst) =~= headed + self@.body());
        end_frame(dst, start);
        assert(buffer_contents(*dst) =~= before + self@.frame(sequence_id));
    }

    /// Checks that every count fits its one-byte field.
    fn validate_encode(&self) -> (result: Result<()>)
        ensures
            checked(result, self@.fault()),
    {
        match self {
            Pdu::Submit(p) => p.validate_encode(),
            Pdu::Deliver(p) => p.validate_encode(),
            _ => Ok(()),
        }
    }

    /// The length of the body, or the largest number where it is larger still.
    fn body_len_hint(&self) -> (n: usize)
        ensures
            n == if self@.body().len() <= usize::MAX {
                self@.body().len()
            } else {
                usize::MAX as nat
            },
    {
        match self {
            Pdu::Connect(_) => 27,
            Pdu::ConnectResp(_) => 18,
            Pdu::Submit(p) => p.body_len_hint(),
            Pdu::SubmitResp(_) | Pdu::DeliverResp(_) => 9,
            Pdu::Deliver(p) => p.body_len_hint(),
            Pdu::ActiveTest | Pdu::Terminate | Pdu::TerminateResp => 0,
            Pdu::ActiveTestResp => 1,
        }
    }

    /// Reads the body that belongs to a header.
    pub fn decode(header: CmppHeader, body: &[u8]) -> (result: Result<Pdu>)
        ensures
            decoded(result, parse_pdu(header.command_id, body@)),
    {
        if header.command_id == CMPP_CONNECT {
            Ok(Pdu::Connect(Connect::decode(body)?))
        } else if header.command_id == CMPP_CONNECT_RESP {
            Ok(Pdu::ConnectResp(ConnectResp::decode(body)?))
        } else if header.command_id == CMPP_SUBMIT {
            Ok(Pdu::Submit(Box::new(Submit::decode(body)?)))
        } else if header.command_id == CMPP_SUBMIT_RESP {
            Ok(Pdu::SubmitResp(SubmitResp::decode(body)?))
        } else if header.command_id == CMPP_DELIVER {
            Ok(Pdu::Deliver(Deliver::decode(body)?))
        } else if header.command_id == CMPP_DELIVER_RESP {
            Ok(Pdu::DeliverResp(DeliverResp::decode(body)?))
        } else if header.command_id == CMPP_ACTIVE_TEST {
            require_body_len(body, 0, "CMPP_ACTIVE_TEST")?;
            Ok(Pdu::ActiveTest)
        } else if header.command_id == CMPP_ACTIVE_TEST_RESP {
            require_body_len(body, 1, "CMPP_ACTIVE_TEST_RESP")?;
            Ok(Pdu::ActiveTestResp)
        } else if header.command_id == CMPP_TERMINATE {
            require_body_len(body, 0, "CMPP_TERMINATE")?;
            Ok(Pdu::Terminate)
        } else if header.command_id == CMPP_TERMINATE_RESP {
            require_body_len(body, 0, "CMPP_TERMINATE_RESP")?;
            Ok(Pdu::TerminateResp)
        } else {
            let mut text: String = "未知 command id 0x".to_string();
            push_fixed_digits(&mut text, header.command_id, 16, 8);
            Err(Error::Decode(text))
        }
    }
}

impl Submit {
    /// Header and body with the given sequence id, or the reason why a count does not fit its
    /// field.
    pub fn try_encode(&self, sequence_id: u32) -> (result: Result<Bytes>)
        ensures
            match self@.fault() {
                None => result matches Ok(bytes) && frozen_contents(bytes) == PduView::Submit(
                    self@,
                ).frame(sequence_id),
                Some(text) => result matches Err(e) && e.is_config(text),
            },
    {
        self.validate_encode()?;
        let mut out: BytesMut = BytesMut::with_capacity(CMPP_HEADER_LENGTH + self.body_len_hint());
        let start: usize = begin_frame(&mut out, CMPP_SUBMIT, sequence_id, self.body_len_hint());
        self.encode_body(&mut out);
        end_frame(&mut out, start);
        assert(buffer_contents(out) =~= PduView::Submit(self@).frame(sequence_id));
        Ok(out.freeze())
    }
}

impl Frame {
    /// A frame.
    pub fn new(sequence_id: u32, pdu: Pdu) -> (frame: Frame)
        ensures
            frame.sequence_id == sequence_id,
            frame.pdu == pdu,
    {
        Frame { sequence_id, pdu }
    }

    /// The bytes of a frame whose counts fit their fields.
    pub fn encode(&self) -> (bytes: Bytes)
        requires
            self@.pdu.fault() is None,
        ensures
            frozen_contents(bytes) == self@.bytes(),
    {
        self.pdu.encode(self.sequence_id)
    }

    /// The bytes of the frame, or the reason why a count does not fit its field.
    pub fn try_encode(&self) -> (result: Result<Bytes>)
        ensures
            match self@.pdu.fault() {
                None => result matches Ok(bytes) && frozen_contents(bytes) == self@.bytes(),
                Some(text) => result matches Err(e) && e.is_config(text),
            },
    {
        self.pdu.try_encode(self.sequence_id)
    }

    /// Appends the frame, or gives the reason why a count does not fit its field.
    pub fn try_encode_into(&self, dst: &mut BytesMut) -> (result: Result<()>)
        requires
            self@.pdu.fault() is None ==> has_room(
                buffer_contents(*old(dst)).len(),
                self@.bytes().len(),
            ),
        ensures
            checked(result, self@.pdu.fault()),
            buffer_contents(*final(dst)) == if self@.pdu.fault() is None {
                buffer_contents(*old(dst)) + self@.bytes()
            } else {
                buffer_contents(*old(dst))
            },
    {
        self.pdu.try_encode_into(self.sequence_id, dst)
    }
}

/// The digits of a timestamp, two by two from the left, are the month, the day, the hour, the
/// minute and the second.
pub proof fn timestamps_are_read_in_pairs(
    month: nat,
    day: nat,
    hour: nat,
    minute: nat,
    second: nat,
)
    requires
        month <= 99,
        day <= 99,
        hour <= 99,
        minute <= 99,
        second <= 99,
    ensures
        ({
            let t = packed_timestamp(month, day, hour, minute, second);
            &&& t / 100_000_000 == month
            &&& t / 1_000_000 % 100 == day
            &&& t / 10_000 % 100 == hour
            &&& t / 100 % 100 == minute
            &&& t % 100 == second
        }),
{
    let t = packed_timestamp(month, day, hour, minute, second);
    let days = month * 100 + day;
    let hours = days * 100 + hour;
    let minutes = hours * 100 + minute;
    assert(t == minutes * 100 + second);
    assert(t / 100 == minutes && t % 100 == second);
    assert(t == hours * 10_000 + (minute * 100 + second));
    assert(t / 10_000 == hours);
    assert(t == days * 1_000_000 + (hour * 10_000 + minute * 100 + second));
    assert(t / 1_000_000 == days);
    assert(t == month * 100_000_000 + (day * 1_000_000 + hour * 10_000 + minute * 100 + second));
    assert(t / 100_000_000 == month);
    assert(minutes % 100 == minute);
    assert(hours % 100 == hour);
    assert(days % 100 == day);
}

/// A moment is stamped with its own month, day, hour, minute and second, in this order.
pub proof fn moments_are_stamped_in_order(moment: (u32, u32, u32, u32, u32))
    requires
        is_moment(moment),
    ensures
        ({
            let t = moment_timestamp(moment);
            &&& t / 100_000_000 == moment.0
            &&& t / 1_000_000 % 100 == moment.1
            &&& t / 10_000 % 100 == moment.2
            &&& t / 100 % 100 == moment.3
            &&& t % 100 == moment.4
            &&& 101_000_000 <= t <= 1_231_235_959
        }),
{
    timestamps_are_read_in_pairs(
        moment.0 as nat,
        moment.1 as nat,
        moment.2 as nat,
        moment.3 as nat,
        moment.4 as nat,
    );
}

/// The digest of a CONNECT is that of the source address, nine NULs, the shared secret and the
/// ten decimal digits of the timestamp, one behind the other.
pub proof fn source_digest_covers(
    data: Seq<u8>,
    source_addr: Seq<char>,
    shared_secret: Seq<char>,
    timestamp: u32,
)
    requires
        ({
            let a = encode_utf8(source_addr).len() as int;
            let b = a + 9 + encode_utf8(shared_secret).len();
            let stamp = encode_utf8(fixed_digits(timestamp as nat, 10, 10));
            &&& data.len() == b + stamp.len()
            &&& data.subrange(0, a) == encode_utf8(source_addr)
            &&& forall|i: int| a <= i < a + 9 ==> data[i] == 0
            &&& data.subrange(a + 9, b) == encode_utf8(shared_secret)
            &&& data.subrange(b, data.len() as int) == stamp
        }),
    ensures
        authenticator_source(source_addr, shared_secret, timestamp) == md5_of(data),
{
    let a = encode_utf8(source_addr);
    let zeros = Seq::new(9, |i: int| 0u8);
    let secret = encode_utf8(shared_secret);
    let stamp = encode_utf8(fixed_digits(timestamp as nat, 10, 10));
    let b = a.len() as int + 9 + secret.len();
    assert(data.subrange(a.len() as int, a.len() as int + 9) =~= zeros);
    assert(data =~= data.subrange(0, a.len() as int) + data.subrange(
        a.len() as int,
        a.len() as int + 9,
    ) + data.subrange(a.len() as int + 9, b) + data.subrange(b, data.len() as int));
}

/// The digest of a CONNECT_RESP is that of the status, the digest of the CONNECT and the shared
/// secret, one behind the other.
pub proof fn answer_digest_covers(
    data: Seq<u8>,
    status: u8,
    source: Seq<u8>,
    shared_secret: Seq<char>,
)
    requires
        source.len() == 16,
        data.len() == 17 + encode_utf8(shared_secret).len(),
        data[0] == status,
        data.subrange(1, 17) == source,
        data.subrange(17, data.len() as int) == encode_utf8(shared_secret),
    ensures
        authenticator_ismg(status, source, shared_secret) == md5_of(data),
{
    assert(data =~= seq![data[0]] + data.subrange(1, 17) + data.subrange(17, data.len() as int));
}

/// A SUBMIT is modelled field by field: each field by the value of the same name.
pub proof fn submit_is_modelled_by_name(s: Submit)
    ensures
        s@.msg_id == s.msg_id@,
        s@.pk_total == s.pk_total,
        s@.pk_number == s.pk_number,
        s@.registered_delivery == s.registered_delivery,
        s@.msg_level == s.msg_level,
        s@.service_id == s.service_id@,
        s@.fee_user_type == s.fee_user_type,
        s@.fee_terminal_id == s.fee_terminal_id@,
        s@.tp_pid == s.tp_pid,
        s@.tp_udhi == s.tp_udhi,
        s@.msg_fmt == s.msg_fmt,
        s@.msg_src == s.msg_src@,
        s@.fee_type == s.fee_type@,
        s@.fee_code == s.fee_code@,
        s@.valid_time == s.valid_time@,
        s@.at_time == s.at_time@,
        s@.src_id == s.src_id@,
        s@.dest_terminal_ids.len() == s.dest_terminal_ids@.len(),
        forall|i: int|
            0 <= i < s.dest_terminal_ids@.len() ==> #[trigger] s@.dest_terminal_ids[i]
                == s.dest_terminal_ids@[i]@,
        s@.msg_content == s.msg_content@,
        s@.wf(),
{
}

/// A DELIVER is modelled field by field: each field by the value of the same name.
pub proof fn deliver_is_modelled_by_name(d: Deliver)
    ensures
        d@.msg_id == d.msg_id@,
        d@.dest_id == d.dest_id@,
        d@.service_id == d.service_id@,
        d@.tp_pid == d.tp_pid,
        d@.tp_udhi == d.tp_udhi,
        d@.msg_fmt == d.msg_fmt,
        d@.src_terminal_id == d.src_terminal_id@,
        d@.registered_delivery == d.registered_delivery,
        d@.msg_content == d.msg_content@,
        d@.wf(),
{
}

/// The other messages are modelled field by field: each field by the value of the same name.
pub proof fn messages_are_modelled_by_name(
    connect: Connect,
    connect_resp: ConnectResp,
    submit_resp: SubmitResp,
    deliver_resp: DeliverResp,
    report: DeliverReport,
)
    ensures
        connect@.source_addr == connect.source_addr@,
        connect@.authenticator_source == connect.authenticator_source@,
        connect@.version == connect.version,
        connect@.timestamp == connect.timestamp,
        connect_resp@.status == connect_resp.status,
        connect_resp@.authenticator_ismg == connect_resp.authenticator_ismg@,
        connect_resp@.version == connect_resp.version,
        submit_resp@.msg_id == submit_resp.msg_id@,
        submit_resp@.result == submit_resp.result,
        deliver_resp@.msg_id == deliver_resp.msg_id@,
        deliver_resp@.result == deliver_resp.result,
        report@.msg_id == report.msg_id@,
        report@.stat == report.stat@,
        report@.submit_time == report.submit_time@,
        report@.done_time == report.done_time@,
        report@.dest_terminal_id == report.dest_terminal_id@,
        report@.smsc_sequence == report.smsc_sequence,
{
}

/// A frame is modelled by its own sequence id and its own PDU, and a PDU by one of its own kind.
pub proof fn frames_are_modelled_by_name(frame: Frame)
    ensures
        frame@.sequence_id == frame.sequence_id,
        match frame.pdu {
            Pdu::Connect(p) => frame@.pdu == PduView::Connect(p@),
            Pdu::ConnectResp(p) => frame@.pdu == PduView::ConnectResp(p@),
            Pdu::Submit(p) => frame@.pdu == PduView::Submit((*p)@),
            Pdu::SubmitResp(p) => frame@.pdu == PduView::SubmitResp(p@),
            Pdu::Deliver(p) => frame@.pdu == PduView::Deliver(p@),
            Pdu::DeliverResp(p) => frame@.pdu == PduView::DeliverResp(p@),
            Pdu::ActiveTest => frame@.pdu is ActiveTest,
            Pdu::ActiveTestResp => frame@.pdu is ActiveTestResp,
            Pdu::Terminate => frame@.pdu is Terminate,
            Pdu::TerminateResp => frame@.pdu is TerminateResp,
        },
{
}

/// What was read is the value that the bytes spell, and nothing else; what cannot be read is a
/// decode error with the text that says why.
pub proof fn reading_is_exact<T: View>(result: Result<T>, parsed: Parsed<T::V>)
    requires
        decoded(result, parsed),
    ensures
        result is Ok <==> parsed is Ok,
        result matches Ok(value) ==> value@ == parsed->Ok_0,
        result matches Err(e) ==> (e matches Error::Decode(text) && text@ == parsed->Err_0),
{
}

/// A check passes where there is no fault, and else is a configuration error that names it.
pub proof fn checking_is_exact(result: Result<()>, fault: Option<Seq<char>>)
    requires
        checked(result, fault),
    ensures
        result is Ok <==> fault is None,
        result matches Err(e) ==> (e matches Error::Config(text) && text@ == fault->0),
{
}

/// A status report is there where the content holds one, and is that one.
pub proof fn reporting_is_exact(report: Option<DeliverReport>, parsed: Option<ReportView>)
    requires
        reported(report, parsed),
    ensures
        report is Some <==> parsed is Some,
        report matches Some(r) ==> r@ == parsed->0,
{
}

} // verus!
