//! Frames: the bytes of a packet followed by a fixed delimiter of four
//! bytes.

use crate::messages::PacketHeader;
use crate::packet::{lemma_packet_round_trip, parse_packet, KindView, Packet, PacketView};
use crate::schema::{message_bytes, number_field, WireMessage};
use crate::varint::{lemma_varint_bytes_end, varint_bytes};
use crate::wire::{fields_bytes, key_bytes, lemma_fields_bytes_concat, FieldView};
use vstd::prelude::*;
use vstd::slice::slice_subrange;

verus! {

/// The delimiter as a number; on the wire its four bytes stand least
/// significant first.
pub const DELIMITER: u32 = 0xDEAD_BEEF;

/// The number of bytes of the delimiter.
pub const DELIMITER_LEN: usize = 4;

/// The four bytes that end every frame.
pub open spec fn delimiter_bytes() -> Seq<u8> {
    seq![0xEFu8, 0xBEu8, 0xADu8, 0xDEu8]
}

/// The frame of a body: the body, then the delimiter.
pub open spec fn frame_bytes(body: Seq<u8>) -> Seq<u8> {
    body + delimiter_bytes()
}

/// Holds where the last four bytes are the delimiter.
pub open spec fn ends_with_delimiter(bytes: Seq<u8>) -> bool {
    bytes.len() >= 4 && bytes.subrange(bytes.len() - 4, bytes.len() as int) == delimiter_bytes()
}

/// The body of a frame: all but its last four bytes, if those are the
/// delimiter.
pub open spec fn strip_delimiter(bytes: Seq<u8>) -> Option<Seq<u8>> {
    if ends_with_delimiter(bytes) {
        Some(bytes.take(bytes.len() - 4))
    } else {
        None
    }
}

/// Why a byte string is not the frame of a packet.
#[derive(Debug, Clone, Copy, PartialEq, Eq, Structural)]
pub enum FrameError {
    /// The bytes do not end with the delimiter.
    MissingDelimiter,
    /// The bytes before the delimiter are not the wire format of a packet.
    Malformed,
}

/// The packet of a frame, or why there is none.
pub open spec fn parse_frame(bytes: Seq<u8>) -> Result<PacketView, FrameError> {
    match strip_delimiter(bytes) {
        Some(body) => match parse_packet(body) {
            Some(packet) => Ok(packet),
            None => Err(FrameError::Malformed),
        },
        None => Err(FrameError::MissingDelimiter),
    }
}

/// The four bytes of a 32-bit number, least significant first.
pub open spec fn little_endian(value: u32) -> Seq<u8> {
    seq![
        (value % 0x100) as u8,
        ((value / 0x100) % 0x100) as u8,
        ((value / 0x1_0000) % 0x100) as u8,
        (value / 0x100_0000) as u8,
    ]
}

/// The bytes of the delimiter are those of its number, least significant
/// first.
pub proof fn lemma_delimiter_bytes()
    ensures
        delimiter_bytes() == little_endian(DELIMITER),
{
    assert(delimiter_bytes() =~= little_endian(DELIMITER));
}

/// A frame that is cut inside its delimiter does not end with the
/// delimiter, whatever its body: no end of the delimiter is a start of it.
pub proof fn lemma_cut_delimiter(body: Seq<u8>, kept: int)
    requires
        1 <= kept <= 3,
    ensures
        !ends_with_delimiter(body + delimiter_bytes().take(kept)),
{
    let cut = body + delimiter_bytes().take(kept);
    if cut.len() >= 4 {
        let tail = cut.subrange(cut.len() - 4, cut.len() as int);
        assert(tail[3] == delimiter_bytes()[kept - 1]);
        assert(tail[3] != delimiter_bytes()[3]);
    }
}

/// A framed body ends with the delimiter, and stripping it gives the body.
pub proof fn lemma_strip_frame(body: Seq<u8>)
    ensures
        ends_with_delimiter(frame_bytes(body)),
        strip_delimiter(frame_bytes(body)) == Some(body),
{
    let framed = frame_bytes(body);
    assert(framed.subrange(framed.len() - 4, framed.len() as int) =~= delimiter_bytes());
    assert(framed.take(framed.len() - 4) =~= body);
}

/// Encoding a canonical packet, framing the bytes, stripping the delimiter
/// and decoding gives the packet back.
pub proof fn lemma_frame_round_trip(packet: PacketView)
    requires
        packet.canonical(),
    ensures
        parse_frame(frame_bytes(packet.bytes())) == Ok::<PacketView, FrameError>(packet),
        strip_delimiter(frame_bytes(packet.bytes())) == Some(packet.bytes()),
        parse_packet(packet.bytes()) == Some(packet),
{
    lemma_strip_frame(packet.bytes());
    lemma_packet_round_trip(packet);
}

/// Holds of the byte strings that are empty or end with a byte below
/// `0x80`, as every varint does.
pub open spec fn ends_low(bytes: Seq<u8>) -> bool {
    bytes.len() == 0 || bytes.last() < 0x80
}

/// What two byte strings that are empty or end low are joined to is empty
/// or ends low.
proof fn lemma_ends_low_concat(a: Seq<u8>, b: Seq<u8>)
    requires
        ends_low(a),
        ends_low(b),
    ensures
        ends_low(a + b),
{
    if b.len() > 0 {
        assert((a + b).last() == b.last());
    } else {
        assert(a + b =~= a);
    }
}

/// The field of a number is empty or ends low.
proof fn lemma_number_field_ends_low(tag: u32, value: u32)
    ensures
        ends_low(fields_bytes(number_field(tag, value))),
{
    reveal_with_fuel(fields_bytes, 2);
    if value != 0 {
        lemma_varint_bytes_end(value as nat);
        let key = key_bytes(tag, 0);
        let number = varint_bytes(value as nat);
        let all = fields_bytes(number_field(tag, value));
        assert(all =~= key + number);
        assert(all.last() == number.last());
    }
}

/// The bytes of a packet that holds a header never end with the delimiter:
/// a header ends with a varint, whose last byte is low, and the last byte
/// of the delimiter is not.
pub proof fn lemma_header_packet_never_ends_with_delimiter(header: PacketHeader)
    ensures
        !ends_with_delimiter((PacketView { kind: Some(KindView::Header(header)) }).bytes()),
{
    reveal_with_fuel(fields_bytes, 2);
    let f1 = number_field(1, header.id);
    let f2 = number_field(2, header.length);
    let f3 = number_field(3, header.checksum);
    let f4 = number_field(4, header.version);
    let f5 = number_field(5, header.flags);
    lemma_number_field_ends_low(1, header.id);
    lemma_number_field_ends_low(2, header.length);
    lemma_number_field_ends_low(3, header.checksum);
    lemma_number_field_ends_low(4, header.version);
    lemma_number_field_ends_low(5, header.flags);
    lemma_fields_bytes_concat(f1, f2);
    lemma_fields_bytes_concat(f1 + f2, f3);
    lemma_fields_bytes_concat(f1 + f2 + f3, f4);
    lemma_fields_bytes_concat(f1 + f2 + f3 + f4, f5);
    lemma_ends_low_concat(fields_bytes(f1), fields_bytes(f2));
    lemma_ends_low_concat(fields_bytes(f1 + f2), fields_bytes(f3));
    lemma_ends_low_concat(fields_bytes(f1 + f2 + f3), fields_bytes(f4));
    lemma_ends_low_concat(fields_bytes(f1 + f2 + f3 + f4), fields_bytes(f5));
    let body = message_bytes::<PacketHeader>(header);
    assert(ends_low(body));
    let packet = PacketView { kind: Some(KindView::Header(header)) };
    let key = key_bytes(1, 2);
    let len = varint_bytes(body.len());
    lemma_varint_bytes_end(body.len());
    let all = packet.bytes();
    assert(Packet::fields(packet).skip(1) =~= Seq::<FieldView>::empty());
    assert(all =~= key + len + body);
    if body.len() > 0 {
        assert(all.last() == body.last());
    } else {
        assert(all.last() == len.last());
    }
    if all.len() >= 4 {
        let tail = all.subrange(all.len() - 4, all.len() as int);
        assert(tail[3] == all.last());
    }
}

/// Appends the delimiter to `buf`.
pub fn put_delimiter(buf: &mut Vec<u8>)
    ensures
        final(buf)@ == frame_bytes(old(buf)@),
{
    buf.push(0xEF);
    buf.push(0xBE);
    buf.push(0xAD);
    buf.push(0xDE);
    assert(buf@ =~= frame_bytes(old(buf)@));
}

/// The frame of `body`.
pub fn frame(body: &[u8]) -> (r: Vec<u8>)
    ensures
        r@ == frame_bytes(body@),
{
    let mut out: Vec<u8> = Vec::new();
    out.extend_from_slice(body);
    assert(out@ =~= body@);
    put_delimiter(&mut out);
    out
}

/// The frame of `packet`: its wire format, then the delimiter.
pub fn encode_frame(packet: &Packet) -> (r: Vec<u8>)
    ensures
        r@ == frame_bytes(packet@.bytes()),
{
    let mut out = packet.encode();
    put_delimiter(&mut out);
    out
}

/// Whether `bytes` ends with the delimiter. Fewer than four bytes do not.
pub fn has_delimiter(bytes: &[u8]) -> (r: bool)
    ensures
        r == ends_with_delimiter(bytes@),
{
    let n = bytes.len();
    if n < DELIMITER_LEN {
        return false;
    }
    let found = bytes[n - 4] == 0xEF && bytes[n - 3] == 0xBE && bytes[n - 2] == 0xAD && bytes[n
        - 1] == 0xDE;
    proof {
        let tail = bytes@.subrange(n - 4, n as int);
        if found {
            assert(tail =~= delimiter_bytes());
        } else {
            assert(tail[0] == bytes@[n - 4]);
            assert(tail[1] == bytes@[n - 3]);
            assert(tail[2] == bytes@[n - 2]);
            assert(tail[3] == bytes@[n - 1]);
        }
    }
    found
}

/// The body of a frame, or `None` where `bytes` does not end with the
/// delimiter.
pub fn strip(bytes: &[u8]) -> (r: Option<&[u8]>)
    ensures
        match r {
            Some(body) => strip_delimiter(bytes@) == Some(body@),
            None => strip_delimiter(bytes@) is None,
        },
{
    if has_delimiter(bytes) {
        Some(slice_subrange(bytes, 0, bytes.len() - DELIMITER_LEN))
    } else {
        None
    }
}

/// Reads the packet of one frame. Fails with `MissingDelimiter` exactly
/// where `bytes` does not end with the delimiter, and with `Malformed`
/// exactly where it does and the bytes before it are not a packet.
pub fn decode_frame(bytes: &[u8]) -> (r: Result<Packet, FrameError>)
    ensures
        match r {
            Ok(packet) => parse_frame(bytes@) == Ok::<PacketView, FrameError>(packet@),
            Err(e) => parse_frame(bytes@) == Err::<PacketView, FrameError>(e),
        },
{
    match strip(bytes) {
        Some(body) => match Packet::decode(body) {
            Ok(packet) => Ok(packet),
            Err(_) => Err(FrameError::Malformed),
        },
        None => Err(FrameError::MissingDelimiter),
    }
}

} // verus!
