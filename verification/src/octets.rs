//! Wire primitives: big-endian integers, fixed-width octet strings and a bounds-checked reader.
use bytes::BytesMut;
use vstd::prelude::*;
use vstd::slice::slice_subrange;
use vstd::string::*;
use vstd::utf8::{decode_utf8, encode_utf8, valid_utf8};

use crate::buffer::{buffer_contents, has_room, put_slice, put_u8};
use crate::error::{Error, Result};
use crate::text::{decimal, push_decimal};

verus! {

/// The four bytes of `n`, the most significant first.
pub open spec fn be32(n: u32) -> Seq<u8> {
    seq![
        (n / 0x100_0000) as u8,
        (n / 0x1_0000 % 0x100) as u8,
        (n / 0x100 % 0x100) as u8,
        (n % 0x100) as u8,
    ]
}

/// The number that four bytes spell, the most significant first.
pub open spec fn be32_value(b: Seq<u8>) -> u32 {
    (b[0] * 0x100_0000 + b[1] * 0x1_0000 + b[2] * 0x100 + b[3]) as u32
}

/// Reading four bytes gives back the number that was written.
pub proof fn be32_round_trip(n: u32)
    ensures
        be32(n).len() == 4,
        be32_value(be32(n)) == n,
{
}

/// Four bytes stand for a number with the weights 2^24, 2^16, 2^8 and 1, in this order, whether
/// it is written or read.
pub proof fn be32_is_big_endian(n: u32, b: Seq<u8>)
    ensures
        be32(n)[0] * 16777216 + be32(n)[1] * 65536 + be32(n)[2] * 256 + be32(n)[3] == n,
        b.len() == 4 ==> be32_value(b) == b[0] * 16777216 + b[1] * 65536 + b[2] * 256 + b[3],
{
}

/// `bytes` cut to `width`, or filled up to it with zeros.
pub open spec fn fixed_octets(bytes: Seq<u8>, width: nat) -> Seq<u8> {
    Seq::new(
        width,
        |i: int|
            if i < bytes.len() {
                bytes[i]
            } else {
                0
            },
    )
}

/// `bytes` without the NULs and spaces at its end.
pub open spec fn trimmed(bytes: Seq<u8>) -> Seq<u8>
    decreases bytes.len(),
{
    if bytes.len() > 0 && (bytes.last() == 0 || bytes.last() == 32) {
        trimmed(bytes.drop_last())
    } else {
        bytes
    }
}

/// What `String::from_utf8_lossy` makes of bytes that are not UTF-8.
pub uninterp spec fn repaired_utf8(bytes: Seq<u8>) -> Seq<char>;

/// The text of bytes that should be UTF-8.
pub open spec fn lossy_utf8(bytes: Seq<u8>) -> Seq<char> {
    if valid_utf8(bytes) {
        decode_utf8(bytes)
    } else {
        repaired_utf8(bytes)
    }
}

/// The text that a fixed-width field holds.
pub open spec fn field_text(bytes: Seq<u8>) -> Seq<char> {
    lossy_utf8(trimmed(bytes))
}

/// The octets that a text occupies in a field of `width` octets.
pub open spec fn text_field(text: Seq<char>, width: nat) -> Seq<u8> {
    fixed_octets(encode_utf8(text), width)
}

/// Whether a field of `width` octets holds `text` unharmed: it fits, and it ends neither in a
/// NUL nor in a space.
pub open spec fn fits_field(text: Seq<char>, width: nat) -> bool {
    &&& encode_utf8(text).len() <= width
    &&& text.len() > 0 ==> text.last() != '\0' && text.last() != ' '
}

/// `String::from_utf8_lossy`: the text of valid UTF-8; of anything else a text that depends on
/// the bytes alone.
#[verifier::external_body]
pub(crate) fn text_from_utf8_lossy(bytes: &[u8]) -> (text: String)
    ensures
        valid_utf8(bytes@) ==> text@ == decode_utf8(bytes@),
        !valid_utf8(bytes@) ==> text@ == repaired_utf8(bytes@),
{
    String::from_utf8_lossy(bytes).into_owned()
}

proof fn encode_utf8_last(text: Seq<char>)
    requires
        text.len() > 0,
    ensures
        encode_utf8(text).len() > 0,
        encode_utf8(text).last() == 0 ==> text.last() == '\0',
        encode_utf8(text).last() == 32 ==> text.last() == ' ',
    decreases text.len(),
{
    let c = text[0] as u32;
    vstd::utf8::char_is_scalar(text[0]);
    vstd::utf8::char_u32_cast(text[0], c);
    let rest = encode_utf8(text.drop_first());
    assert(c <= 0x7f ==> vstd::utf8::leading_byte_width_1(c) == c) by (bit_vector);
    assert(vstd::utf8::last_continuation_byte(c) >= 0x80) by (bit_vector);
    if text.len() > 1 {
        encode_utf8_last(text.drop_first());
        assert(encode_utf8(text).last() == rest.last());
        assert(text.drop_first().last() == text.last());
    } else {
        assert(encode_utf8(text) =~= vstd::utf8::encode_scalar(c));
    }
}

proof fn trimmed_fixed_octets(bytes: Seq<u8>, width: nat)
    requires
        bytes.len() <= width,
        bytes.len() > 0 ==> bytes.last() != 0 && bytes.last() != 32,
    ensures
        trimmed(fixed_octets(bytes, width)) == bytes,
    decreases width,
{
    let field = fixed_octets(bytes, width);
    if bytes.len() == width {
        assert(field =~= bytes);
    } else {
        assert(field.drop_last() =~= fixed_octets(bytes, (width - 1) as nat));
        trimmed_fixed_octets(bytes, (width - 1) as nat);
    }
}

/// A field has its full width: the UTF-8 of its text from the first byte on, as far as it goes,
/// and NULs behind it.
pub proof fn field_is_the_text_and_nuls(text: Seq<char>, width: nat)
    ensures
        text_field(text, width).len() == width,
        forall|i: int|
            0 <= i < width && i < encode_utf8(text).len() ==> text_field(text, width)[i]
                == encode_utf8(text)[i],
        forall|i: int|
            encode_utf8(text).len() <= i < width ==> text_field(text, width)[i] == 0,
{
}

/// The text of a field is that of its bytes up to the last one that is neither a NUL nor a
/// space: only NULs and spaces at the end are dropped, and all of those.
pub proof fn only_padding_is_trimmed(bytes: Seq<u8>, kept: int)
    requires
        0 <= kept <= bytes.len(),
        forall|i: int| kept <= i < bytes.len() ==> bytes[i] == 0 || bytes[i] == 32,
        kept > 0 ==> bytes[kept - 1] != 0 && bytes[kept - 1] != 32,
    ensures
        valid_utf8(bytes.take(kept)) ==> field_text(bytes) == decode_utf8(bytes.take(kept)),
        !valid_utf8(bytes.take(kept)) ==> field_text(bytes) == repaired_utf8(bytes.take(kept)),
    decreases bytes.len(),
{
    if kept == bytes.len() {
        assert(bytes.take(kept) =~= bytes);
    } else {
        let rest = bytes.drop_last();
        assert(bytes.last() == 0 || bytes.last() == 32);
        only_padding_is_trimmed(rest, kept);
        assert(rest.take(kept) =~= bytes.take(kept));
    }
}

/// A field gives back every text that it holds unharmed.
pub proof fn field_round_trip(text: Seq<char>, width: nat)
    requires
        fits_field(text, width),
    ensures
        field_text(text_field(text, width)) == text,
{
    let bytes = encode_utf8(text);
    if text.len() > 0 {
        encode_utf8_last(text);
    }
    trimmed_fixed_octets(bytes, width);
    vstd::utf8::encode_utf8_valid_utf8(text);
    vstd::utf8::encode_utf8_decode_utf8(text);
}

/// Writes `text` into a field of `width` octets, cut or filled up with zeros.
pub(crate) fn put_octet_str(buffer: &mut BytesMut, text: &str, width: usize)
    requires
        has_room(buffer_contents(*old(buffer)).len(), width as nat),
    ensures
        buffer_contents(*final(buffer)) == buffer_contents(*old(buffer)) + text_field(
            text@,
            width as nat,
        ),
{
    let bytes: &[u8] = text.as_bytes();
    let n: usize = if bytes.len() < width {
        bytes.len()
    } else {
        width
    };
    put_slice(buffer, slice_subrange(bytes, 0, n));
    let mut i: usize = n;
    let ghost start = buffer_contents(*old(buffer));
    assert(buffer_contents(*buffer) =~= start + fixed_octets(bytes@, i as nat));
    while i < width
        invariant
            n <= i <= width,
            n == bytes@.len() || i == width,
            has_room(start.len(), width as nat),
            buffer_contents(*buffer) == start + fixed_octets(bytes@, i as nat),
        decreases width - i,
    {
        put_u8(buffer, 0);
        i = i + 1;
        assert(buffer_contents(*buffer) =~= start + fixed_octets(bytes@, i as nat));
    }
}

/// Reads the text of a fixed-width field.
pub(crate) fn read_octet_str(bytes: &[u8]) -> (text: String)
    ensures
        text@ == field_text(bytes@),
{
    let mut end: usize = bytes.len();
    assert(bytes@.take(end as int) =~= bytes@);
    while end > 0 && (bytes[end - 1] == 0 || bytes[end - 1] == 32)
        invariant
            end <= bytes@.len(),
            trimmed(bytes@.take(end as int)) == trimmed(bytes@),
        decreases end,
    {
        assert(bytes@.take(end as int).drop_last() =~= bytes@.take(end - 1));
        end = end - 1;
    }
    assert(bytes@.subrange(0, end as int) =~= bytes@.take(end as int));
    text_from_utf8_lossy(slice_subrange(bytes, 0, end))
}

/// The number that four bytes spell.
pub(crate) fn read_u32(b: &[u8]) -> (n: u32)
    requires
        b@.len() == 4,
    ensures
        n == be32_value(b@),
{
    b[0] as u32 * 0x100_0000 + b[1] as u32 * 0x1_0000 + b[2] as u32 * 0x100 + b[3] as u32
}

/// A slice of eight bytes as an array.
pub(crate) fn array8(b: &[u8]) -> (a: [u8; 8])
    requires
        b@.len() == 8,
    ensures
        a@ == b@,
{
    let a: [u8; 8] = [b[0], b[1], b[2], b[3], b[4], b[5], b[6], b[7]];
    assert(a@ =~= b@);
    a
}

/// A slice of sixteen bytes as an array.
pub(crate) fn array16(b: &[u8]) -> (a: [u8; 16])
    requires
        b@.len() == 16,
    ensures
        a@ == b@,
{
    let mut a: [u8; 16] = [0u8; 16];
    let mut i: usize = 0;
    while i < 16
        invariant
            i <= 16,
            b@.len() == 16,
            forall|j: int| 0 <= j < i ==> a@[j] == b@[j],
        decreases 16 - i,
    {
        a[i] = b[i];
        i = i + 1;
    }
    assert(a@ =~= b@);
    a
}

/// The text of the error for a body that ends inside a field of `n` bytes at `offset`.
pub open spec fn overrun_text(n: nat, offset: nat, len: nat) -> Seq<char> {
    "body 意外结束: 需要 "@ + decimal(n) + " bytes（offset "@ + decimal(offset) + "），实际有 "@
        + decimal(len)
}

/// The text of the error for `extra` bytes behind the last field.
pub open spec fn trailing_text(pdu: Seq<char>, extra: nat) -> Seq<char> {
    pdu + " body 存在 "@ + decimal(extra) + " 个尾随 bytes"@
}

/// The text of the error for a body of the wrong length.
pub open spec fn wrong_length_text(pdu: Seq<char>, expected: nat, actual: nat) -> Seq<char> {
    pdu + " body 长度无效: 期望 "@ + decimal(expected) + "，实际 "@ + decimal(actual)
}

/// Checks that a body has exactly the expected length.
pub(crate) fn require_body_len(body: &[u8], expected: usize, pdu: &str) -> (result: Result<()>)
    ensures
        if body@.len() == expected {
            result is Ok
        } else {
            result matches Err(e) && e.is_decode(
                wrong_length_text(pdu@, expected as nat, body@.len()),
            )
        },
{
    if body.len() != expected {
        let mut text: String = pdu.to_string();
        text.append(" body 长度无效: 期望 ");
        push_decimal(&mut text, expected as u64);
        text.append("，实际 ");
        push_decimal(&mut text, body.len() as u64);
        return Err(Error::Decode(text));
    }
    Ok(())
}

/// A cursor over a PDU body that never reads past its end.
pub struct BodyReader<'a> {
    buf: &'a [u8],
    pos: usize,
}

impl<'a> BodyReader<'a> {
    /// The bytes that are read.
    pub closed spec fn bytes(self) -> Seq<u8> {
        self.buf@
    }

    /// The offset of the next byte.
    pub closed spec fn offset(self) -> int {
        self.pos as int
    }

    /// The cursor stands inside the body or at its end.
    pub open spec fn wf(self) -> bool {
        0 <= self.offset() <= self.bytes().len() <= usize::MAX
    }

    /// A cursor at the start of `buf`.
    pub fn new(buf: &'a [u8]) -> (reader: Self)
        ensures
            reader.bytes() == buf@,
            reader.offset() == 0,
            reader.wf(),
    {
        let len: usize = buf.len();
        assert(len == buf@.len());
        BodyReader { buf, pos: 0 }
    }

    /// Takes the next `n` bytes.
    pub fn take(&mut self, n: usize) -> (result: Result<&'a [u8]>)
        requires
            old(self).wf(),
        ensures
            final(self).wf(),
            final(self).bytes() == old(self).bytes(),
            if old(self).offset() + n > usize::MAX {
                &&& result matches Err(e) && e.is_decode("body offset 溢出"@)
                &&& final(self).offset() == old(self).offset()
            } else if old(self).offset() + n > old(self).bytes().len() {
                &&& result matches Err(e) && e.is_decode(
                    overrun_text(n as nat, old(self).offset() as nat, old(self).bytes().len()),
                )
                &&& final(self).offset() == old(self).offset()
            } else {
                &&& result matches Ok(b) && b@ == old(self).bytes().subrange(
                    old(self).offset(),
                    old(self).offset() + n,
                )
                &&& final(self).offset() == old(self).offset() + n
            },
    {
        let start: usize = self.pos;
        let end: usize = match start.checked_add(n) {
            Some(end) => end,
            None => {
                return Err(Error::Decode("body offset 溢出".to_string()));
            },
        };
        if end > self.buf.len() {
            let mut text: String = "body 意外结束: 需要 ".to_string();
            push_decimal(&mut text, n as u64);
            text.append(" bytes（offset ");
            push_decimal(&mut text, start as u64);
            text.append("），实际有 ");
            push_decimal(&mut text, self.buf.len() as u64);
            return Err(Error::Decode(text));
        }
        self.pos = end;
        Ok(slice_subrange(self.buf, start, end))
    }

    /// Takes one byte.
    pub fn u8(&mut self) -> (result: Result<u8>)
        requires
            old(self).wf(),
        ensures
            final(self).wf(),
            final(self).bytes() == old(self).bytes(),
            if old(self).offset() + 1 > old(self).bytes().len() {
                &&& old(self).offset() + 1 <= usize::MAX ==> (result matches Err(e) && e.is_decode(
                    overrun_text(1, old(self).offset() as nat, old(self).bytes().len()),
                ))
                &&& old(self).offset() + 1 > usize::MAX ==> (result matches Err(e) && e.is_decode(
                    "body offset 溢出"@,
                ))
                &&& final(self).offset() == old(self).offset()
            } else {
                &&& result matches Ok(b) && b == old(self).bytes()[old(self).offset()]
                &&& final(self).offset() == old(self).offset() + 1
            },
    {
        let b: &[u8] = self.take(1)?;
        Ok(b[0])
    }

    /// Takes four bytes as a big-endian number.
    pub fn u32(&mut self) -> (result: Result<u32>)
        requires
            old(self).wf(),
        ensures
            final(self).wf(),
            final(self).bytes() == old(self).bytes(),
            if old(self).offset() + 4 > old(self).bytes().len() {
                &&& old(self).offset() + 4 <= usize::MAX ==> (result matches Err(e) && e.is_decode(
                    overrun_text(4, old(self).offset() as nat, old(self).bytes().len()),
                ))
                &&& old(self).offset() + 4 > usize::MAX ==> (result matches Err(e) && e.is_decode(
                    "body offset 溢出"@,
                ))
                &&& final(self).offset() == old(self).offset()
            } else {
                &&& result matches Ok(n) && n == be32_value(
                    old(self).bytes().subrange(
                        old(self).offset(),
                        old(self).offset() + 4,
                    ),
                )
                &&& final(self).offset() == old(self).offset() + 4
            },
    {
        let b: &[u8] = self.take(4)?;
        Ok(read_u32(b))
    }

    /// The number of bytes that are left.
    pub fn remaining(&self) -> (n: usize)
        requires
            self.wf(),
        ensures
            n == self.bytes().len() - self.offset(),
    {
        self.buf.len() - self.pos
    }

    /// Checks that nothing is left.
    pub fn finish(&self, pdu: &str) -> (result: Result<()>)
        requires
            self.wf(),
        ensures
            if self.offset() == self.bytes().len() {
                result is Ok
            } else {
                result matches Err(e) && e.is_decode(
                    trailing_text(pdu@, (self.bytes().len() - self.offset()) as nat),
                )
            },
    {
        if self.pos != self.buf.len() {
            let mut text: String = pdu.to_string();
            text.append(" body 存在 ");
            push_decimal(&mut text, (self.buf.len() - self.pos) as u64);
            text.append(" 个尾随 bytes");
            return Err(Error::Decode(text));
        }
        Ok(())
    }
}

} // verus!
