//! Character sets of short messages, and long messages split into segments.
//!
//! The content of one message has at most 140 bytes. A longer text is split into segments, each
//! of which starts with a user data header of 6 bytes and so carries at most 134 bytes of text.
use encoding_rs::GBK;
use vstd::prelude::*;
use vstd::slice::slice_subrange;
use vstd::string::*;
use vstd::utf8::{encode_utf8, is_ascii_chars};

use crate::error::{Error, Result};
use crate::octets::{lossy_utf8, text_from_utf8_lossy};

verus! {

/// Msg_Fmt of ASCII, one byte for each character.
pub const MSG_FMT_ASCII: u8 = 0;

/// Msg_Fmt of UCS2 (UTF-16BE).
pub const MSG_FMT_UCS2: u8 = 8;

/// Msg_Fmt of GBK / GB2312.
pub const MSG_FMT_GBK: u8 = 15;

/// The most bytes that the content of a single message has.
pub const SINGLE_MAX_BYTES: usize = 140;

/// The most bytes of text that a segment carries behind its header.
pub const MULTIPART_MAX_BYTES: usize = 134;

/// The most segments that a one-byte count can tell.
pub const MAX_SEGMENTS: usize = 255;

/// A character set of short messages.
#[derive(Debug, Clone, Copy, PartialEq, Eq, Structural)]
pub enum SmsEncoding {
    /// ASCII, one byte for each character.
    Ascii,
    /// UCS2 / UTF-16BE.
    Ucs2,
    /// GBK / GB2312. [`choose_encoding`] never picks it.
    Gbk,
}

impl SmsEncoding {
    /// The Msg_Fmt of the character set.
    pub open spec fn format(self) -> u8 {
        match self {
            SmsEncoding::Ascii => MSG_FMT_ASCII,
            SmsEncoding::Ucs2 => MSG_FMT_UCS2,
            SmsEncoding::Gbk => MSG_FMT_GBK,
        }
    }

    /// The Msg_Fmt of the character set.
    pub fn msg_fmt(self) -> (fmt: u8)
        ensures
            fmt == self.format(),
    {
        match self {
            SmsEncoding::Ascii => MSG_FMT_ASCII,
            SmsEncoding::Ucs2 => MSG_FMT_UCS2,
            SmsEncoding::Gbk => MSG_FMT_GBK,
        }
    }
}

/// One segment of a message, ready for a SUBMIT.
#[derive(Debug, Clone)]
pub struct SmsSegment {
    /// The character set of the content.
    pub msg_fmt: u8,
    /// 1 where the content starts with a user data header, else 0.
    pub tp_udhi: u8,
    /// The number of segments.
    pub pk_total: u8,
    /// Which segment this is, from 1.
    pub pk_number: u8,
    /// The content, its header included.
    pub content: Vec<u8>,
}

/// What a segment holds.
#[verifier::ext_equal]
pub struct SegmentView {
    pub msg_fmt: u8,
    pub tp_udhi: u8,
    pub pk_total: u8,
    pub pk_number: u8,
    pub content: Seq<u8>,
}

impl View for SmsSegment {
    type V = SegmentView;

    open spec fn view(&self) -> SegmentView {
        SegmentView {
            msg_fmt: self.msg_fmt,
            tp_udhi: self.tp_udhi,
            pk_total: self.pk_total,
            pk_number: self.pk_number,
            content: self.content@,
        }
    }
}

/// What each of some segments holds.
pub open spec fn segment_views(segments: Seq<SmsSegment>) -> Seq<SegmentView> {
    segments.map_values(|s: SmsSegment| s@)
}

/// The two bytes of a UTF-16 code unit, the most significant first.
pub open spec fn be16(unit: int) -> Seq<u8> {
    seq![(unit / 0x100) as u8, (unit % 0x100) as u8]
}

/// A character in UTF-16BE: one code unit, or a surrogate pair beyond the basic plane.
pub open spec fn ucs2_char(c: char) -> Seq<u8> {
    let n = c as int;
    if n < 0x1_0000 {
        be16(n)
    } else {
        be16(0xd800 + (n - 0x1_0000) / 0x400) + be16(0xdc00 + (n - 0x1_0000) % 0x400)
    }
}

/// What `encoding_rs` makes of one character in GBK.
pub uninterp spec fn gbk_char(c: char) -> Seq<u8>;

/// What `encoding_rs` makes of GBK bytes.
pub uninterp spec fn gbk_text(bytes: Seq<u8>) -> Seq<char>;

/// One character in a character set. ASCII keeps the low eight bits.
pub open spec fn encoded_char(c: char, enc: SmsEncoding) -> Seq<u8> {
    match enc {
        SmsEncoding::Ascii => seq![(c as int % 256) as u8],
        SmsEncoding::Ucs2 => ucs2_char(c),
        SmsEncoding::Gbk => gbk_char(c),
    }
}

/// A text in a character set, character by character.
pub open spec fn encoded(text: Seq<char>, enc: SmsEncoding) -> Seq<u8>
    decreases text.len(),
{
    if text.len() == 0 {
        seq![]
    } else {
        encoded(text.drop_last(), enc) + encoded_char(text.last(), enc)
    }
}

/// The character set that a text is sent in: ASCII if it is nothing else, else UCS2.
pub open spec fn chosen_encoding(text: Seq<char>) -> SmsEncoding {
    if is_ascii_chars(text) {
        SmsEncoding::Ascii
    } else {
        SmsEncoding::Ucs2
    }
}

/// `Encoding::encode` of `encoding_rs`, called on [`GBK`] with the text that is the one
/// character: bytes that depend on the character alone.
#[verifier::external_body]
fn gbk_encode_char(c: char) -> (bytes: Vec<u8>)
    ensures
        bytes@ == gbk_char(c),
{
    let mut tmp = [0u8; 4];
    let (cow, _, _) = GBK.encode(c.encode_utf8(&mut tmp));
    cow.into_owned()
}

/// `Encoding::decode` of `encoding_rs`, called on [`GBK`]: a text that depends on the bytes
/// alone. It panics where the room that it asks for passes the largest allocation: at most four
/// bytes for each that it is given and a few more, as the text is first given the next power of
/// two and that may be doubled once.
#[verifier::external_body]
fn gbk_decode(bytes: &[u8]) -> (text: String)
    requires
        4 * bytes@.len() + 16 <= isize::MAX,
    ensures
        text@ == gbk_text(bytes@),
{
    let (cow, _, _) = GBK.decode(bytes);
    cow.into_owned()
}

/// A code unit of the first half of a surrogate pair.
pub open spec fn is_high_surrogate(unit: u16) -> bool {
    0xd800 <= unit < 0xdc00
}

/// A code unit of the second half of a surrogate pair.
pub open spec fn is_low_surrogate(unit: u16) -> bool {
    0xdc00 <= unit < 0xe000
}

/// The text that UTF-16 code units spell, with U+FFFD for each half of a surrogate pair that
/// stands alone.
pub open spec fn utf16_lossy(units: Seq<u16>) -> Seq<char>
    decreases units.len(),
{
    if units.len() == 0 {
        seq![]
    } else if is_high_surrogate(units[0]) && units.len() > 1 && is_low_surrogate(units[1]) {
        let n = 0x1_0000 + (units[0] - 0xd800) * 0x400 + (units[1] - 0xdc00);
        seq![n as char] + utf16_lossy(units.skip(2))
    } else if is_high_surrogate(units[0]) || is_low_surrogate(units[0]) {
        seq!['\u{fffd}'] + utf16_lossy(units.skip(1))
    } else {
        seq![units[0] as char] + utf16_lossy(units.skip(1))
    }
}

/// `String::from_utf16_lossy`: the text of the code units, each half of a surrogate pair that
/// stands alone replaced by U+FFFD.
#[verifier::external_body]
fn text_from_utf16_lossy(units: &[u16]) -> (text: String)
    ensures
        text@ == utf16_lossy(units@),
{
    String::from_utf16_lossy(units)
}

/// The code units that pairs of bytes spell, the most significant byte first.
pub open spec fn code_units(bytes: Seq<u8>) -> Seq<u16> {
    Seq::new(bytes.len() / 2, |i: int| (bytes[2 * i] * 0x100 + bytes[2 * i + 1]) as u16)
}

/// The content behind the user data header, where there is one.
pub open spec fn payload_of(tp_udhi: u8, content: Seq<u8>) -> Seq<u8> {
    if tp_udhi == 1 && content.len() > 6 {
        content.skip(6)
    } else {
        content
    }
}

/// The text of a message content.
pub open spec fn content_text(msg_fmt: u8, tp_udhi: u8, content: Seq<u8>) -> Seq<char> {
    let payload = payload_of(tp_udhi, content);
    if msg_fmt == MSG_FMT_UCS2 && payload.len() % 2 == 0 {
        utf16_lossy(code_units(payload))
    } else if msg_fmt == MSG_FMT_GBK {
        gbk_text(payload)
    } else {
        lossy_utf8(payload)
    }
}

/// Encodes one character.
fn encode_char(c: char, enc: SmsEncoding) -> (bytes: Vec<u8>)
    ensures
        bytes@ == encoded_char(c, enc),
{
    let n: u32 = c as u32;
    match enc {
        SmsEncoding::Ascii => vec![(n % 256) as u8],
        SmsEncoding::Ucs2 => {
            if n < 0x1_0000 {
                vec![(n / 0x100) as u8, (n % 0x100) as u8]
            } else {
                let high: u32 = 0xd800 + (n - 0x1_0000) / 0x400;
                let low: u32 = 0xdc00 + (n - 0x1_0000) % 0x400;
                let bytes: Vec<u8> = vec![
                    (high / 0x100) as u8,
                    (high % 0x100) as u8,
                    (low / 0x100) as u8,
                    (low % 0x100) as u8,
                ];
                assert(bytes@ =~= ucs2_char(c));
                bytes
            }
        },
        SmsEncoding::Gbk => gbk_encode_char(c),
    }
}

/// Picks the character set of a text: ASCII if it is nothing else, else UCS2.
pub fn choose_encoding(content: &str) -> (enc: SmsEncoding)
    ensures
        enc == chosen_encoding(content@),
{
    if content.is_ascii() {
        SmsEncoding::Ascii
    } else {
        SmsEncoding::Ucs2
    }
}

/// Encodes a text, without splitting it.
pub fn encode_content(content: &str, enc: SmsEncoding) -> (bytes: Vec<u8>)
    ensures
        bytes@ == encoded(content@, enc),
{
    let mut out: Vec<u8> = Vec::new();
    for c in it: content.chars()
        invariant
            it.seq() == content@,
            out@ == encoded(content@.take(it.index() as int), enc),
    {
        let unit: Vec<u8> = encode_char(c, enc);
        let ghost before = out@;
        out.extend_from_slice(unit.as_slice());
        proof {
            let i = it.index() as int;
            assert(out@ =~= before + unit@);
            assert(content@.take(i + 1).drop_last() =~= content@.take(i));
            assert(content@.take(i + 1).last() == c);
        }
    }
    assert(content@.take(content@.len() as int) =~= content@);
    out
}

/// Decodes a message content.
pub fn decode_msg_content(msg_fmt: u8, tp_udhi: u8, content: &[u8]) -> (text: String)
    requires
        msg_fmt == MSG_FMT_GBK ==> 4 * content@.len() + 16 <= isize::MAX,
    ensures
        text@ == content_text(msg_fmt, tp_udhi, content@),
{
    let payload: &[u8] = if tp_udhi == 1 && content.len() > 6 {
        slice_subrange(content, 6, content.len())
    } else {
        content
    };
    assert(payload@ =~= payload_of(tp_udhi, content@));
    if msg_fmt == MSG_FMT_UCS2 {
        let len: usize = payload.len();
        if len % 2 != 0 {
            return text_from_utf8_lossy(payload);
        }
        let mut units: Vec<u16> = Vec::new();
        let count: usize = len / 2;
        let mut i: usize = 0;
        while i < count
            invariant
                i <= count,
                count == len / 2,
                len == payload@.len(),
                units@ == code_units(payload@).take(i as int),
            decreases count - i,
        {
            let unit: u16 = payload[2 * i] as u16 * 0x100 + payload[2 * i + 1] as u16;
            units.push(unit);
            i = i + 1;
            assert(units@ =~= code_units(payload@).take(i as int));
        }
        assert(units@ =~= code_units(payload@));
        text_from_utf16_lossy(units.as_slice())
    } else if msg_fmt == MSG_FMT_GBK {
        gbk_decode(payload)
    } else {
        text_from_utf8_lossy(payload)
    }
}

/// A text cut, between characters, into pieces that a segment can carry: each as long as it can
/// be before the next character would pass [`MULTIPART_MAX_BYTES`].
pub open spec fn pieces(text: Seq<char>, enc: SmsEncoding) -> Seq<Seq<char>>
    decreases text.len(),
{
    if text.len() == 0 {
        seq![]
    } else {
        let cut = pieces(text.drop_last(), enc);
        let c = text.last();
        if cut.len() == 0 || encoded(cut.last().push(c), enc).len() > MULTIPART_MAX_BYTES {
            cut.push(seq![c])
        } else {
            cut.drop_last().push(cut.last().push(c))
        }
    }
}

/// Whether a text needs more than one segment.
pub open spec fn is_multipart(text: Seq<char>) -> bool {
    encoded(text, chosen_encoding(text)).len() > SINGLE_MAX_BYTES
}

/// The user data header of a segment of a concatenated message.
pub open spec fn concat_header(reference: u8, total: u8, number: u8) -> Seq<u8> {
    seq![0x05u8, 0x00u8, 0x03u8, reference, total, number]
}

/// The number of segments as the one-byte count tells it.
pub open spec fn told_total(count: nat) -> u8 {
    if count < MAX_SEGMENTS {
        count as u8
    } else {
        255
    }
}

/// Segment `i` of a message that is cut into `cut`.
pub open spec fn segment(cut: Seq<Seq<char>>, enc: SmsEncoding, reference: u8, i: int) -> SegmentView {
    let total = told_total(cut.len());
    let number = ((i + 1) % 256) as u8;
    SegmentView {
        msg_fmt: enc.format(),
        tp_udhi: 1,
        pk_total: total,
        pk_number: number,
        content: concat_header(reference, total, number) + encoded(cut[i], enc),
    }
}

/// The segments of a text, the reference number of its header given.
pub open spec fn segments(text: Seq<char>, reference: u8) -> Seq<SegmentView> {
    let enc = chosen_encoding(text);
    let cut = pieces(text, enc);
    if is_multipart(text) {
        Seq::new(cut.len(), |i: int| segment(cut, enc, reference, i))
    } else {
        seq![
            SegmentView {
                msg_fmt: enc.format(),
                tp_udhi: 0,
                pk_total: 1,
                pk_number: 1,
                content: encoded(text, enc),
            },
        ]
    }
}

/// The number of segments of a text.
pub open spec fn segment_count(text: Seq<char>) -> nat {
    if is_multipart(text) {
        pieces(text, chosen_encoding(text)).len()
    } else {
        1
    }
}

/// Hands out the reference numbers that tie the segments of a message together.
#[derive(Debug, Clone, Copy, PartialEq, Eq, Structural)]
pub struct UdhRefCounter {
    next: u32,
}

impl UdhRefCounter {
    /// How many references were handed out, modulo 2^32.
    pub closed spec fn drawn(self) -> u32 {
        self.next
    }

    /// The reference that comes next.
    pub open spec fn reference(self) -> u8 {
        (self.drawn() % 256) as u8
    }

    /// Whether `self` is `before` after one more reference.
    pub open spec fn follows(self, before: UdhRefCounter) -> bool {
        self.drawn() == if before.drawn() == u32::MAX {
            0
        } else {
            before.drawn() + 1
        }
    }

    /// A counter that starts at 0.
    pub fn new() -> (counter: UdhRefCounter)
        ensures
            counter.drawn() == 0,
    {
        UdhRefCounter { next: 0 }
    }

    /// The next reference.
    pub fn draw(&mut self) -> (reference: u8)
        ensures
            reference == old(self).reference(),
            final(self).follows(*old(self)),
    {
        let reference: u8 = (self.next % 256) as u8;
        self.next = self.next.wrapping_add(1);
        reference
    }
}

/// Whether `after` is what a counter becomes by the splitting of `text`: a text of one segment
/// draws no reference.
pub open spec fn counted(text: Seq<char>, before: UdhRefCounter, after: UdhRefCounter) -> bool {
    if is_multipart(text) {
        after.follows(before)
    } else {
        after == before
    }
}

/// Each chunk is a piece, encoded.
spec fn chunks_of(chunks: Seq<Vec<u8>>, cut: Seq<Seq<char>>, enc: SmsEncoding) -> bool {
    &&& chunks.len() == cut.len()
    &&& forall|i: int| 0 <= i < chunks.len() ==> (#[trigger] chunks[i])@ == encoded(cut[i], enc)
}

/// The encoding of a text and one more character is that of the text and that of the character.
pub proof fn encoded_push(text: Seq<char>, c: char, enc: SmsEncoding)
    ensures
        encoded(text.push(c), enc) == encoded(text, enc) + encoded_char(c, enc),
{
    assert(text.push(c).drop_last() =~= text);
}

proof fn encoded_one(c: char, enc: SmsEncoding)
    ensures
        encoded(seq![c], enc) == encoded_char(c, enc),
{
    assert(seq![c].drop_last() =~= seq![]);
    assert(encoded(seq![], enc) =~= seq![]);
    assert(encoded(seq![c], enc) =~= encoded_char(c, enc));
}

/// Packs a text, encoded, into chunks that a segment can carry.
fn pack(content: &str, enc: SmsEncoding) -> (chunks: Vec<Vec<u8>>)
    requires
        enc != SmsEncoding::Gbk,
    ensures
        chunks_of(chunks@, pieces(content@, enc), enc),
{
    let mut chunks: Vec<Vec<u8>> = Vec::new();
    let mut current: Vec<u8> = Vec::new();
    for c in it: content.chars()
        invariant
            enc != SmsEncoding::Gbk,
            it.seq() == content@,
            it.index() == 0 ==> chunks@.len() == 0 && current@.len() == 0,
            it.index() > 0 ==> {
                let cut = pieces(content@.take(it.index() as int), enc);
                &&& cut.len() > 0
                &&& chunks_of(chunks@, cut.drop_last(), enc)
                &&& current@ == encoded(cut.last(), enc)
                &&& current@.len() > 0
            },
            current@.len() <= MULTIPART_MAX_BYTES,
    {
        let unit: Vec<u8> = encode_char(c, enc);
        let ghost i = it.index() as int;
        let ghost cut = pieces(content@.take(i), enc);
        let ghost next = pieces(content@.take(i + 1), enc);
        proof {
            assert(content@.take(i + 1).drop_last() =~= content@.take(i));
            assert(content@.take(i + 1).last() == c);
            assert(0 < unit@.len() <= 4);
            if i > 0 {
                encoded_push(cut.last(), c, enc);
            }
            encoded_one(c, enc);
        }
        if current.len() > 0 && current.len() + unit.len() > MULTIPART_MAX_BYTES {
            chunks.push(current);
            current = Vec::new();
            assert(next.drop_last() =~= cut);
            assert(chunks_of(chunks@, cut, enc));
        }
        let ghost before = current@;
        current.extend_from_slice(unit.as_slice());
        assert(current@ =~= before + unit@);
        proof {
            if i == 0 {
                assert(content@.take(0) =~= seq![]);
                assert(next.drop_last() =~= seq![]);
            } else if before.len() > 0 {
                assert(next.drop_last() =~= cut.drop_last());
            }
        }
    }
    assert(content@.take(content@.len() as int) =~= content@);
    if current.len() > 0 {
        chunks.push(current);
    }
    chunks
}

/// Puts the header of a concatenated message before each chunk.
fn number_chunks(chunks: &Vec<Vec<u8>>, enc: SmsEncoding, reference: u8) -> (numbered: Vec<SmsSegment>)
    ensures
        numbered@.len() == chunks@.len(),
        forall|i: int|
            0 <= i < chunks@.len() ==> (#[trigger] numbered@[i])@ == (SegmentView {
                msg_fmt: enc.format(),
                tp_udhi: 1,
                pk_total: told_total(chunks@.len()),
                pk_number: ((i + 1) % 256) as u8,
                content: concat_header(
                    reference,
                    told_total(chunks@.len()),
                    ((i + 1) % 256) as u8,
                ) + chunks@[i]@,
            }),
{
    let count: usize = chunks.len();
    let total: u8 = if count < MAX_SEGMENTS {
        count as u8
    } else {
        255
    };
    let mut numbered: Vec<SmsSegment> = Vec::new();
    let mut i: usize = 0;
    while i < count
        invariant
            i <= count,
            count == chunks@.len(),
            total == told_total(chunks@.len()),
            numbered@.len() == i,
            forall|j: int|
                0 <= j < i ==> (#[trigger] numbered@[j])@ == (SegmentView {
                    msg_fmt: enc.format(),
                    tp_udhi: 1,
                    pk_total: total,
                    pk_number: ((j + 1) % 256) as u8,
                    content: concat_header(reference, total, ((j + 1) % 256) as u8)
                        + chunks@[j]@,
                }),
        decreases count - i,
    {
        let number: u8 = ((i + 1) % 256) as u8;
        let mut body: Vec<u8> = vec![0x05, 0x00, 0x03, reference, total, number];
        let ghost header = body@;
        body.extend_from_slice(chunks[i].as_slice());
        assert(header =~= concat_header(reference, total, number));
        assert(body@ =~= header + chunks@[i as int]@);
        numbered.push(
            SmsSegment {
                msg_fmt: enc.msg_fmt(),
                tp_udhi: 1,
                pk_total: total,
                pk_number: number,
                content: body,
            },
        );
        i = i + 1;
    }
    numbered
}

/// The one segment of a text that needs no more.
fn single_segment(enc: SmsEncoding, body: Vec<u8>) -> (split: Vec<SmsSegment>)
    ensures
        segment_views(split@) == seq![
            SegmentView {
                msg_fmt: enc.format(),
                tp_udhi: 0,
                pk_total: 1,
                pk_number: 1,
                content: body@,
            },
        ],
{
    vec![SmsSegment { msg_fmt: enc.msg_fmt(), tp_udhi: 0, pk_total: 1, pk_number: 1, content: body }]
}

/// Splits a text into one segment or more. The reference of a concatenated message is drawn from
/// `references`.
pub fn split_content(content: &str, references: &mut UdhRefCounter) -> (split: Vec<SmsSegment>)
    ensures
        segment_views(split@) == segments(content@, old(references).reference()),
        counted(content@, *old(references), *final(references)),
{
    let enc: SmsEncoding = choose_encoding(content);
    let body: Vec<u8> = encode_content(content, enc);
    if body.len() <= SINGLE_MAX_BYTES {
        return single_segment(enc, body);
    }
    let chunks: Vec<Vec<u8>> = pack(content, enc);
    let reference: u8 = references.draw();
    let split: Vec<SmsSegment> = number_chunks(&chunks, enc, reference);
    assert(segment_views(split@) =~= segments(content@, reference));
    split
}

/// The text of the error for a message of more segments than a one-byte count can tell.
pub open spec fn too_many_segments_text() -> Seq<char> {
    "长短信 segment 数量超过 255"@
}

/// Splits a text into one segment or more, or refuses one of more than [`MAX_SEGMENTS`]. A text
/// that is refused draws no reference.
pub fn try_split_content(content: &str, references: &mut UdhRefCounter) -> (result: Result<
    Vec<SmsSegment>,
>)
    ensures
        if segment_count(content@) > MAX_SEGMENTS {
            &&& result matches Err(e) && e.is_config(too_many_segments_text())
            &&& *final(references) == *old(references)
        } else {
            &&& result matches Ok(split) && segment_views(split@) == segments(
                content@,
                old(references).reference(),
            )
            &&& counted(content@, *old(references), *final(references))
        },
{
    let enc: SmsEncoding = choose_encoding(content);
    let body: Vec<u8> = encode_content(content, enc);
    if body.len() <= SINGLE_MAX_BYTES {
        return Ok(single_segment(enc, body));
    }
    let chunks: Vec<Vec<u8>> = pack(content, enc);
    if chunks.len() > MAX_SEGMENTS {
        return Err(Error::Config("长短信 segment 数量超过 255".to_string()));
    }
    let reference: u8 = references.draw();
    let split: Vec<SmsSegment> = number_chunks(&chunks, enc, reference);
    assert(segment_views(split@) =~= segments(content@, reference));
    Ok(split)
}

// ---- laws ----

/// Some texts, one behind the other.
pub open spec fn joined(parts: Seq<Seq<char>>) -> Seq<char>
    decreases parts.len(),
{
    if parts.len() == 0 {
        seq![]
    } else {
        joined(parts.drop_last()) + parts.last()
    }
}

proof fn joined_push(parts: Seq<Seq<char>>, part: Seq<char>)
    ensures
        joined(parts.push(part)) == joined(parts) + part,
{
    assert(parts.push(part).drop_last() =~= parts);
}

/// The pieces of a text are the text: one behind the other they give it back. None is empty,
/// each fits into a segment, and none could have taken the first character of the next.
pub proof fn pieces_are_the_text(text: Seq<char>, enc: SmsEncoding)
    requires
        enc != SmsEncoding::Gbk,
    ensures
        joined(pieces(text, enc)) == text,
        forall|i: int|
            0 <= i < pieces(text, enc).len() ==> (#[trigger] pieces(text, enc)[i]).len() > 0
                && encoded(pieces(text, enc)[i], enc).len() <= MULTIPART_MAX_BYTES,
        forall|i: int, j: int|
            0 <= i && j == i + 1 && j < pieces(text, enc).len() ==> encoded(
                (#[trigger] pieces(text, enc)[i]).push((#[trigger] pieces(text, enc)[j])[0]),
                enc,
            ).len() > MULTIPART_MAX_BYTES,
    decreases text.len(),
{
    if text.len() > 0 {
        let before = text.drop_last();
        let c = text.last();
        let cut = pieces(before, enc);
        pieces_are_the_text(before, enc);
        encoded_one(c, enc);
        assert(encoded_char(c, enc).len() <= 4);
        assert(before.push(c) =~= text);
        if cut.len() == 0 || encoded(cut.last().push(c), enc).len() > MULTIPART_MAX_BYTES {
            joined_push(cut, seq![c]);
        } else {
            joined_push(cut.drop_last(), cut.last());
            joined_push(cut.drop_last(), cut.last().push(c));
            assert(cut.drop_last().push(cut.last()) =~= cut);
            assert(joined(pieces(text, enc)) =~= text);
        }
    }
}

/// The encoding of two texts, one behind the other, is that of the first and that of the second.
pub proof fn encoded_concat(a: Seq<char>, b: Seq<char>, enc: SmsEncoding)
    ensures
        encoded(a + b, enc) == encoded(a, enc) + encoded(b, enc),
    decreases b.len(),
{
    if b.len() == 0 {
        assert(a + b =~= a);
        assert(encoded(a + b, enc) =~= encoded(a, enc) + encoded(b, enc));
    } else {
        encoded_concat(a, b.drop_last(), enc);
        assert((a + b).drop_last() =~= a + b.drop_last());
        assert(encoded(a + b, enc) =~= encoded(a, enc) + encoded(b, enc));
    }
}

/// Whether some parts are a text, cut between characters, and a segment can carry each.
pub open spec fn is_cut(parts: Seq<Seq<char>>, text: Seq<char>, enc: SmsEncoding) -> bool {
    &&& joined(parts) == text
    &&& forall|i: int|
        0 <= i < parts.len() ==> encoded(#[trigger] parts[i], enc).len() <= MULTIPART_MAX_BYTES
}

proof fn joined_take(parts: Seq<Seq<char>>, n: int)
    requires
        0 <= n < parts.len(),
    ensures
        joined(parts.take(n + 1)) == joined(parts.take(n)) + parts[n],
{
    joined_push(parts.take(n), parts[n]);
    assert(parts.take(n + 1) =~= parts.take(n).push(parts[n]));
}

proof fn joined_prefix(parts: Seq<Seq<char>>, n: int)
    requires
        0 <= n <= parts.len(),
    ensures
        joined(parts.take(n)).len() <= joined(parts).len(),
        joined(parts.take(n)) == joined(parts).take(joined(parts.take(n)).len() as int),
    decreases parts.len() - n,
{
    if n == parts.len() {
        assert(parts.take(n) =~= parts);
        assert(joined(parts).take(joined(parts).len() as int) =~= joined(parts));
    } else {
        joined_prefix(parts, n + 1);
        joined_take(parts, n);
        let here = joined(parts.take(n));
        let next = joined(parts.take(n + 1));
        assert(here =~= next.take(here.len() as int));
        assert(here =~= joined(parts).take(here.len() as int));
    }
}

proof fn joined_part(parts: Seq<Seq<char>>, n: int)
    requires
        0 <= n < parts.len(),
    ensures
        parts[n] == joined(parts).subrange(
            joined(parts.take(n)).len() as int,
            joined(parts.take(n + 1)).len() as int,
        ),
{
    joined_take(parts, n);
    joined_prefix(parts, n + 1);
    let from = joined(parts.take(n)).len() as int;
    let next = joined(parts.take(n + 1));
    let part = joined(parts).subrange(from, next.len() as int);
    assert forall|i: int| 0 <= i < parts[n].len() implies part[i] == parts[n][i] by {
        assert(next[from + i] == parts[n][i]);
        assert(next[from + i] == joined(parts)[from + i]);
    }
    assert(parts[n] =~= part);
}

proof fn middle_is_no_longer(
    before: Seq<char>,
    middle: Seq<char>,
    behind: Seq<char>,
    enc: SmsEncoding,
)
    ensures
        encoded(middle, enc).len() <= encoded(before + (middle + behind), enc).len(),
{
    encoded_concat(before, middle + behind, enc);
    encoded_concat(middle, behind, enc);
}

/// The first `n` pieces of a text reach at least as far into it as the first `n` parts of any other
/// cut.
#[verifier::spinoff_prover]
#[verifier::rlimit(40)]
proof fn pieces_reach_furthest(
    text: Seq<char>,
    enc: SmsEncoding,
    parts: Seq<Seq<char>>,
    n: int,
)
    requires
        enc != SmsEncoding::Gbk,
        is_cut(parts, text, enc),
        0 <= n <= parts.len(),
        n <= pieces(text, enc).len(),
    ensures
        joined(parts.take(n)).len() <= joined(pieces(text, enc).take(n)).len(),
    decreases n,
{
    let cut = pieces(text, enc);
    if n == 0 {
        assert(parts.take(0) =~= seq![]);
        assert(cut.take(0) =~= seq![]);
    } else {
        let m = n - 1;
        pieces_reach_furthest(text, enc, parts, m);
        pieces_are_the_text(text, enc);
        joined_take(parts, m);
        joined_take(cut, m);
        joined_prefix(parts, n);
        joined_prefix(parts, m);
        joined_prefix(cut, n);
        joined_prefix(cut, m);
        let from = joined(cut.take(m)).len() as int;
        let to = joined(cut.take(n)).len() as int;
        let other_from = joined(parts.take(m)).len() as int;
        let other_to = joined(parts.take(n)).len() as int;
        if other_to > to {
            // There is a next piece, and the part holds the piece and the first character of it.
            if n == cut.len() {
                assert(cut.take(n) =~= cut);
            }
            joined_take(cut, n);
            joined_prefix(cut, n + 1);
            let longer = cut[m].push(cut[n][0]);
            joined_part(cut, m);
            joined_part(parts, m);
            assert(text[to] == cut[n][0]) by {
                assert(joined(cut.take(n + 1))[to] == cut[n][0]);
            }
            assert(longer =~= text.subrange(from, to + 1));
            let before = text.subrange(other_from, from);
            let behind = text.subrange(to + 1, other_to);
            assert(parts[m] =~= before + (longer + behind));
            middle_is_no_longer(before, longer, behind, enc);
            assert(encoded(parts[m], enc).len() <= MULTIPART_MAX_BYTES);
        }
    }
}

/// A text is cut into no more pieces than it has to be: there is no cut into fewer parts that
/// segments can carry.
pub proof fn pieces_are_fewest(text: Seq<char>, enc: SmsEncoding, parts: Seq<Seq<char>>)
    requires
        enc != SmsEncoding::Gbk,
        is_cut(parts, text, enc),
    ensures
        pieces(text, enc).len() <= parts.len(),
{
    let cut = pieces(text, enc);
    if parts.len() < cut.len() {
        let n = parts.len() as int;
        pieces_reach_furthest(text, enc, parts, n);
        pieces_are_the_text(text, enc);
        assert(parts.take(n) =~= parts);
        joined_take(cut, n);
        joined_prefix(cut, n + 1);
    }
}

proof fn encoded_front(text: Seq<char>, enc: SmsEncoding)
    requires
        text.len() > 0,
    ensures
        encoded(text, enc) == encoded_char(text[0], enc) + encoded(text.drop_first(), enc),
    decreases text.len(),
{
    if text.len() == 1 {
        assert(text =~= seq![text[0]]);
        encoded_one(text[0], enc);
        assert(text.drop_first() =~= seq![]);
        assert(encoded(text, enc) =~= encoded_char(text[0], enc) + encoded(text.drop_first(), enc));
    } else {
        encoded_front(text.drop_last(), enc);
        assert(text.drop_last().drop_first() =~= text.drop_first().drop_last());
        assert(encoded(text, enc) =~= encoded_char(text[0], enc) + encoded(text.drop_first(), enc));
    }
}

proof fn ucs2_char_round_trip(c: char, rest: Seq<u16>)
    ensures
        ucs2_char(c).len() == 2 || ucs2_char(c).len() == 4,
        utf16_lossy(code_units(ucs2_char(c)) + rest) == seq![c] + utf16_lossy(rest),
{
    let n = c as u32;
    vstd::utf8::char_is_scalar(c);
    vstd::utf8::char_u32_cast(c, n);
    let bytes = ucs2_char(c);
    let units = code_units(bytes);
    let all = units + rest;
    if n < 0x1_0000 {
        assert(units.len() == 1 && units[0] == n);
        assert(all.skip(1) =~= rest);
    } else {
        let v = n - 0x1_0000;
        assert(units.len() == 2);
        assert(units[0] == 0xd800 + v / 0x400);
        assert(units[1] == 0xdc00 + v % 0x400);
        assert(all.skip(2) =~= rest);
        assert(0x1_0000 + (units[0] - 0xd800) * 0x400 + (units[1] - 0xdc00) == n);
    }
}

/// UCS2 carries every text: what was encoded in it is decoded as it was.
pub proof fn ucs2_round_trip(text: Seq<char>)
    ensures
        encoded(text, SmsEncoding::Ucs2).len() % 2 == 0,
        content_text(MSG_FMT_UCS2, 0, encoded(text, SmsEncoding::Ucs2)) == text,
    decreases text.len(),
{
    let bytes = encoded(text, SmsEncoding::Ucs2);
    if text.len() == 0 {
        assert(code_units(bytes) =~= seq![]);
        assert(text =~= seq![]);
    } else {
        let rest = text.drop_first();
        let tail = encoded(rest, SmsEncoding::Ucs2);
        ucs2_round_trip(rest);
        encoded_front(text, SmsEncoding::Ucs2);
        ucs2_char_round_trip(text[0], code_units(tail));
        assert(code_units(bytes) =~= code_units(ucs2_char(text[0])) + code_units(tail));
        assert(seq![text[0]] + rest =~= text);
    }
}

proof fn ascii_bytes(text: Seq<char>)
    requires
        is_ascii_chars(text),
    ensures
        encoded(text, SmsEncoding::Ascii) == encode_utf8(text),
{
    vstd::utf8::is_ascii_chars_encode_utf8(text);
    ascii_low_bytes(text);
    assert(encoded(text, SmsEncoding::Ascii) =~= encode_utf8(text));
}

proof fn ascii_low_bytes(text: Seq<char>)
    ensures
        encoded(text, SmsEncoding::Ascii) == Seq::new(
            text.len(),
            |i: int| (text[i] as int % 256) as u8,
        ),
    decreases text.len(),
{
    if text.len() > 0 {
        ascii_low_bytes(text.drop_last());
    }
    assert(encoded(text, SmsEncoding::Ascii) =~= Seq::new(
        text.len(),
        |i: int| (text[i] as int % 256) as u8,
    ));
}

/// ASCII carries every text of nothing but ASCII: what was encoded in it is decoded as it was.
pub proof fn ascii_round_trip(text: Seq<char>)
    requires
        is_ascii_chars(text),
    ensures
        content_text(MSG_FMT_ASCII, 0, encoded(text, SmsEncoding::Ascii)) == text,
{
    ascii_bytes(text);
    vstd::utf8::encode_utf8_valid_utf8(text);
    vstd::utf8::encode_utf8_decode_utf8(text);
}

/// The text that each segment carries.
pub open spec fn segment_texts(split: Seq<SegmentView>) -> Seq<Seq<char>> {
    split.map_values(|s: SegmentView| content_text(s.msg_fmt, s.tp_udhi, s.content))
}

proof fn piece_text(piece: Seq<char>, enc: SmsEncoding)
    requires
        enc == SmsEncoding::Ucs2 || (enc == SmsEncoding::Ascii && is_ascii_chars(piece)),
    ensures
        content_text(enc.format(), 0, encoded(piece, enc)) == piece,
{
    if enc == SmsEncoding::Ucs2 {
        ucs2_round_trip(piece);
    } else {
        ascii_round_trip(piece);
    }
}

proof fn pieces_of_ascii(text: Seq<char>, enc: SmsEncoding)
    requires
        is_ascii_chars(text),
    ensures
        forall|i: int|
            0 <= i < pieces(text, enc).len() ==> is_ascii_chars(#[trigger] pieces(text, enc)[i]),
    decreases text.len(),
{
    if text.len() > 0 {
        let before = text.drop_last();
        let cut = pieces(before, enc);
        let c = text.last();
        pieces_of_ascii(before, enc);
        assert(is_ascii_chars(seq![c]));
        if cut.len() > 0 {
            assert(is_ascii_chars(cut[cut.len() - 1]));
            assert(is_ascii_chars(cut.last().push(c)));
        }
    }
}

/// Splitting loses nothing: the texts that the segments carry, one behind the other, are the
/// text that was split. No content is longer than a single message may be.
pub proof fn segments_carry_the_text(text: Seq<char>, reference: u8)
    ensures
        joined(segment_texts(segments(text, reference))) == text,
        forall|i: int|
            0 <= i < segments(text, reference).len() ==> (#[trigger] segments(
                text,
                reference,
            )[i]).content.len() <= SINGLE_MAX_BYTES,
{
    let enc = chosen_encoding(text);
    let split = segments(text, reference);
    let texts = segment_texts(split);
    if is_multipart(text) {
        let cut = pieces(text, enc);
        pieces_are_the_text(text, enc);
        if enc == SmsEncoding::Ascii {
            pieces_of_ascii(text, enc);
        }
        assert forall|i: int| 0 <= i < cut.len() implies texts[i] == cut[i] by {
            let s = split[i];
            piece_text(cut[i], enc);
            encoded_front(cut[i], enc);
            assert(encoded(cut[i], enc).len() > 0);
            assert(payload_of(1, s.content) =~= encoded(cut[i], enc));
        }
        assert(texts =~= cut);
    } else {
        piece_text(text, enc);
        assert(texts =~= seq![text]);
        joined_push(seq![], text);
        assert(seq![].push(text) =~= seq![text]);
        assert(joined(texts) =~= text);
    }
}

/// The segments of a text are numbered from 1 without a gap, and each tells how many there are,
/// as long as one byte can tell it.
pub proof fn segments_are_numbered(text: Seq<char>, reference: u8)
    requires
        segment_count(text) <= MAX_SEGMENTS,
    ensures
        segments(text, reference).len() == segment_count(text),
        segment_count(text) > 0,
        forall|i: int|
            0 <= i < segments(text, reference).len() ==> {
                let s = #[trigger] segments(text, reference)[i];
                s.pk_number == i + 1 && s.pk_total == segment_count(text)
            },
{
    let enc = chosen_encoding(text);
    if is_multipart(text) && pieces(text, enc).len() == 0 {
        pieces_are_the_text(text, enc);
        assert(text =~= seq![]);
    }
}

/// References roll: each is one more than the one before it, and 0 comes behind 255.
pub proof fn references_roll(before: UdhRefCounter, after: UdhRefCounter)
    requires
        after.follows(before),
    ensures
        after.reference() == (before.reference() + 1) % 256,
{
}

/// A concatenated message has at least two segments.
pub proof fn multipart_has_several_segments(text: Seq<char>)
    requires
        is_multipart(text),
    ensures
        segment_count(text) >= 2,
{
    let enc = chosen_encoding(text);
    let cut = pieces(text, enc);
    pieces_are_the_text(text, enc);
    if cut.len() == 1 {
        joined_push(seq![], cut[0]);
        assert(seq![].push(cut[0]) =~= cut);
        assert(joined(seq![]) =~= seq![]);
        assert(text =~= cut[0]);
    }
}

/// A text that takes at most 140 bytes is sent as it is: one segment, numbered 1 of 1, whose
/// content is the encoding of the text, without a header.
pub proof fn short_text_is_one_segment(text: Seq<char>, reference: u8)
    requires
        encoded(text, chosen_encoding(text)).len() <= 140,
    ensures
        segment_count(text) == 1,
        segments(text, reference).len() == 1,
        segments(text, reference)[0].tp_udhi == 0,
        segments(text, reference)[0].pk_total == 1,
        segments(text, reference)[0].pk_number == 1,
        segments(text, reference)[0].content == encoded(text, chosen_encoding(text)),
{
}

/// A text that takes more than 140 bytes is cut into two or more segments. Each starts with the
/// six bytes of a concatenation header, which hold the reference, the number of segments and
/// the number of this one, and carries 1 to 134 bytes of the text behind them: its part of the
/// text, encoded. Where one byte cannot tell the number of segments, it tells 255, and the
/// number of a segment starts again behind 255.
pub proof fn long_text_is_concatenated(text: Seq<char>, reference: u8)
    requires
        encoded(text, chosen_encoding(text)).len() > 140,
    ensures
        segments(text, reference).len() >= 2,
        segments(text, reference).len() == segment_count(text),
        forall|i: int|
            0 <= i < segments(text, reference).len() ==> {
                let s = #[trigger] segments(text, reference)[i];
                &&& s.tp_udhi == 1
                &&& s.content.len() <= 140
                &&& 7 <= s.content.len()
                &&& s.content[0] == 5
                &&& s.content[1] == 0
                &&& s.content[2] == 3
                &&& s.content[3] == reference
                &&& s.content[4] == s.pk_total
                &&& s.content[5] == s.pk_number
                &&& s.content.skip(6) == encoded(
                    content_text(s.msg_fmt, 1, s.content),
                    chosen_encoding(text),
                )
                &&& segment_count(text) <= 255 ==> s.pk_total == segment_count(text)
                    && s.pk_number == i + 1
                &&& segment_count(text) > 255 ==> s.pk_total == 255 && s.pk_number == (i + 1) % 256
            },
{
    let enc = chosen_encoding(text);
    let cut = pieces(text, enc);
    multipart_has_several_segments(text);
    pieces_are_the_text(text, enc);
    if enc == SmsEncoding::Ascii {
        pieces_of_ascii(text, enc);
    }
    assert forall|i: int| 0 <= i < cut.len() implies {
        let s = #[trigger] segments(text, reference)[i];
        &&& s.content.skip(6) == encoded(content_text(s.msg_fmt, 1, s.content), enc)
        &&& 7 <= s.content.len() <= 140
    } by {
        let s = segments(text, reference)[i];
        assert(cut[i].len() > 0);
        encoded_front(cut[i], enc);
        piece_text(cut[i], enc);
        assert(s.content.skip(6) =~= encoded(cut[i], enc));
        assert(payload_of(1, s.content) =~= encoded(cut[i], enc));
        assert(content_text(s.msg_fmt, 1, s.content) == cut[i]);
    }
}

proof fn ascii_by_number(text: Seq<char>)
    requires
        forall|i: int| 0 <= i < text.len() ==> ((#[trigger] text[i]) as int) < 128,
    ensures
        is_ascii_chars(text),
{
    assert forall|i: int| 0 <= i < text.len() implies '\0' <= #[trigger] text[i] <= '\u{7f}' by {
        let n = text[i] as u32;
        vstd::utf8::char_u32_cast(text[i], n);
        assert(n < 128);
    }
}

/// A text of nothing but characters below 128 is sent as ASCII, one byte for each character that
/// holds its number, under Msg_Fmt 0; any other text is sent under Msg_Fmt 8.
pub proof fn ascii_is_sent_as_it_is(text: Seq<char>, reference: u8)
    ensures
        (forall|i: int| 0 <= i < text.len() ==> ((#[trigger] text[i]) as int) < 128) <==> (
        chosen_encoding(text) == SmsEncoding::Ascii),
        chosen_encoding(text) != SmsEncoding::Ascii ==> chosen_encoding(text) == SmsEncoding::Ucs2,
        forall|i: int|
            0 <= i < segments(text, reference).len() ==> (#[trigger] segments(
                text,
                reference,
            )[i]).msg_fmt == if chosen_encoding(text) == SmsEncoding::Ascii {
                0int
            } else {
                8
            },
        chosen_encoding(text) == SmsEncoding::Ascii ==> {
            let bytes = encoded(text, SmsEncoding::Ascii);
            &&& bytes.len() == text.len()
            &&& forall|i: int| 0 <= i < text.len() ==> #[trigger] bytes[i] == text[i] as int
        },
{
    ascii_low_bytes(text);
    if forall|i: int| 0 <= i < text.len() ==> ((#[trigger] text[i]) as int) < 128 {
        ascii_by_number(text);
    }
}

/// In UCS2 a character below 2^16 is its number in two bytes, the most significant first. Any
/// other is two such numbers, one from 0xd800 and one from 0xdc00 on, of ten bits each.
pub proof fn ucs2_bytes(c: char)
    ensures
        ({
            let b = encoded(seq![c], SmsEncoding::Ucs2);
            let first = b[0] * 256 + b[1];
            let second = b[2] * 256 + b[3];
            &&& (c as int) < 65536 ==> b.len() == 2 && first == c as int
            &&& (c as int) >= 65536 ==> {
                &&& b.len() == 4
                &&& 0xd800 <= first < 0xdc00
                &&& 0xdc00 <= second < 0xe000
                &&& c as int == 65536 + (first - 0xd800) * 1024 + (second - 0xdc00)
            }
        }),
{
    let n = c as u32;
    vstd::utf8::char_is_scalar(c);
    vstd::utf8::char_u32_cast(c, n);
    encoded_one(c, SmsEncoding::Ucs2);
}

/// Under Msg_Fmt 8 the content is read as numbers of two bytes, the most significant first.
pub proof fn ucs2_is_read_in_pairs(content: Seq<u8>, units: Seq<u16>)
    requires
        content.len() == 2 * units.len(),
        forall|i: int|
            0 <= i < units.len() ==> #[trigger] units[i] == content[2 * i] * 256 + content[2 * i
                + 1],
    ensures
        content_text(8, 0, content) == utf16_lossy(units),
{
    assert(code_units(content) =~= units);
}

/// Content that is not UCS2 of whole code units is read as GBK under Msg_Fmt 15, and as UTF-8
/// under any other.
pub proof fn content_is_read_by_format(msg_fmt: u8, content: Seq<u8>)
    ensures
        content_text(15, 0, content) == gbk_text(content),
        (msg_fmt != 8 && msg_fmt != 15) || (msg_fmt == 8 && content.len() % 2 == 1)
            ==> content_text(msg_fmt, 0, content) == lossy_utf8(content),
{
}

/// Where TP_UDHI is 1, the six bytes of the header do not belong to the text, whatever they
/// hold; where it is anything else, or nothing stands behind them, all of the content does.
pub proof fn header_is_no_text(msg_fmt: u8, tp_udhi: u8, header: Seq<u8>, content: Seq<u8>)
    requires
        header.len() == 6,
    ensures
        content.len() > 0 ==> content_text(msg_fmt, 1, header + content) == content_text(
            msg_fmt,
            0,
            content,
        ),
        content.len() <= 6 || tp_udhi != 1 ==> content_text(msg_fmt, tp_udhi, content)
            == content_text(msg_fmt, 0, content),
{
    assert((header + content).skip(6) =~= content);
}

/// The pieces of a text whose characters take `size` bytes each are all full but for the last.
proof fn even_pieces(text: Seq<char>, enc: SmsEncoding, size: nat)
    requires
        size == 1 || size == 2,
        forall|i: int| 0 <= i < text.len() ==> encoded_char(#[trigger] text[i], enc).len() == size,
    ensures
        encoded(text, enc).len() == size * text.len(),
        ({
            let full: int = if size == 1 {
                134
            } else {
                67
            };
            let cut = pieces(text, enc);
            &&& text.len() == 0 ==> cut.len() == 0
            &&& text.len() > 0 ==> cut.len() == (text.len() - 1) / full + 1 && cut.last().len()
                == (text.len() - 1) % full + 1 && encoded(cut.last(), enc).len() == size
                * cut.last().len()
        }),
    decreases text.len(),
{
    if text.len() > 0 {
        let before = text.drop_last();
        let c = text.last();
        assert(encoded_char(text[text.len() - 1], enc).len() == size);
        assert forall|i: int| 0 <= i < before.len() implies encoded_char(
            #[trigger] before[i],
            enc,
        ).len() == size by {
            assert(before[i] == text[i]);
        }
        even_pieces(before, enc, size);
        encoded_one(c, enc);
        let cut = pieces(before, enc);
        if cut.len() > 0 {
            encoded_push(cut.last(), c, enc);
        }
    }
}

/// ASCII text of up to 140 characters is one segment; longer text takes one for every 134
/// characters that it begins.
pub proof fn ascii_segment_count(text: Seq<char>)
    requires
        forall|i: int| 0 <= i < text.len() ==> ((#[trigger] text[i]) as int) < 128,
    ensures
        text.len() <= 140 ==> segment_count(text) == 1,
        text.len() > 140 ==> segment_count(text) == (text.len() + 133) / 134,
{
    ascii_by_number(text);
    even_pieces(text, SmsEncoding::Ascii, 1);
}

/// Other text of characters below 2^16 is one segment up to 70 characters; longer text takes one
/// for every 67 characters that it begins.
pub proof fn ucs2_segment_count(text: Seq<char>, k: int)
    requires
        forall|i: int| 0 <= i < text.len() ==> ((#[trigger] text[i]) as int) < 65536,
        0 <= k < text.len(),
        text[k] as int >= 128,
    ensures
        text.len() <= 70 ==> segment_count(text) == 1,
        text.len() > 70 ==> segment_count(text) == (text.len() + 66) / 67,
{
    assert(!is_ascii_chars(text));
    even_pieces(text, SmsEncoding::Ucs2, 2);
}

/// Splitting draws one reference for a text of more than 140 bytes, the next in turn, and none
/// for any other.
pub proof fn references_are_not_wasted(
    text: Seq<char>,
    before: UdhRefCounter,
    after: UdhRefCounter,
)
    requires
        counted(text, before, after),
    ensures
        encoded(text, chosen_encoding(text)).len() <= 140 ==> after == before,
        encoded(text, chosen_encoding(text)).len() > 140 ==> after.drawn() == (before.drawn() + 1)
            % 0x1_0000_0000,
        before.reference() == before.drawn() % 256,
{
}

/// Each character set has its Msg_Fmt, and takes a character by itself: ASCII its lowest eight
/// bits, GBK whatever the converter makes of it.
pub proof fn character_sets(c: char)
    ensures
        SmsEncoding::Ascii.format() == 0,
        SmsEncoding::Ucs2.format() == 8,
        SmsEncoding::Gbk.format() == 15,
        encoded(seq![c], SmsEncoding::Ascii) == seq![(c as int % 256) as u8],
        encoded(seq![c], SmsEncoding::Gbk) == gbk_char(c),
{
    encoded_one(c, SmsEncoding::Ascii);
    encoded_one(c, SmsEncoding::Gbk);
}

} // verus!
