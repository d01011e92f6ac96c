//! Fields of the protocol-buffers wire format: a key, then a value of one of
//! four shapes, or a group. Groups are not part of the packet schema: one is
//! read over as a whole, so that a message can pass over it where it stands in
//! a field that the message does not know.

use crate::varint::{
    decode_varint, encode_varint, lemma_parse_varint_bounds, lemma_parse_varint_round_trip,
    parse_varint, varint_bytes, WireError,
};
use vstd::bytes::{
    lemma_auto_spec_u32_to_from_le_bytes, lemma_auto_spec_u64_to_from_le_bytes,
    spec_u32_from_le_bytes, spec_u32_to_le_bytes, spec_u64_from_le_bytes, spec_u64_to_le_bytes,
    u32_from_le_bytes, u64_from_le_bytes, u64_to_le_bytes,
};
use vstd::prelude::*;
use vstd::slice::{slice_subrange, slice_to_vec};

verus! {

/// Wire type of a varint value.
pub const WIRE_VARINT: u64 = 0;

/// Wire type of eight little-endian bytes.
pub const WIRE_FIXED64: u64 = 1;

/// Wire type of a length, then as many bytes.
pub const WIRE_BYTES: u64 = 2;

/// Wire type of the start of a group.
pub const WIRE_START_GROUP: u64 = 3;

/// Wire type of the end of a group.
pub const WIRE_END_GROUP: u64 = 4;

/// Wire type of four little-endian bytes.
pub const WIRE_FIXED32: u64 = 5;

/// The largest field number of the wire format.
pub const MAX_TAG: u32 = 0x1fff_ffff;

/// The value of one field as it stands on the wire.
#[derive(Debug, Clone, PartialEq, Eq)]
pub enum WireValue {
    Varint(u64),
    Fixed64(u64),
    Bytes(Vec<u8>),
    Fixed32(u32),
    /// A group, whose fields are not kept.
    Group,
}

/// One field: its number and its value.
#[derive(Debug, Clone, PartialEq, Eq)]
pub struct Field {
    pub tag: u32,
    pub value: WireValue,
}

/// Mathematical form of a [`WireValue`].
pub ghost enum WireValueView {
    Varint(u64),
    Fixed64(u64),
    Bytes(Seq<u8>),
    Fixed32(u32),
    Group,
}

/// Mathematical form of a [`Field`].
pub ghost struct FieldView {
    pub tag: u32,
    pub value: WireValueView,
}

impl View for WireValue {
    type V = WireValueView;

    open spec fn view(&self) -> WireValueView {
        match *self {
            WireValue::Varint(v) => WireValueView::Varint(v),
            WireValue::Fixed64(v) => WireValueView::Fixed64(v),
            WireValue::Bytes(b) => WireValueView::Bytes(b@),
            WireValue::Fixed32(v) => WireValueView::Fixed32(v),
            WireValue::Group => WireValueView::Group,
        }
    }
}

impl View for Field {
    type V = FieldView;

    open spec fn view(&self) -> FieldView {
        FieldView { tag: self.tag, value: self.value@ }
    }
}

/// The views of a sequence of fields, in order.
pub open spec fn field_views(fields: Seq<Field>) -> Seq<FieldView> {
    Seq::new(fields.len(), |i: int| fields[i]@)
}

/// The bytes of a key: the field number above the three bits of the wire type.
pub open spec fn key_bytes(tag: u32, wire_type: u64) -> Seq<u8> {
    varint_bytes((tag as nat) * 8 + wire_type as nat)
}

/// The bytes of one field. A group, which no writer of this crate produces,
/// stands for the empty group: its start key and its end key.
pub open spec fn field_bytes(field: FieldView) -> Seq<u8> {
    match field.value {
        WireValueView::Varint(v) => key_bytes(field.tag, WIRE_VARINT) + varint_bytes(v as nat),
        WireValueView::Fixed64(v) => key_bytes(field.tag, WIRE_FIXED64) + spec_u64_to_le_bytes(v),
        WireValueView::Bytes(b) => key_bytes(field.tag, WIRE_BYTES) + varint_bytes(b.len()) + b,
        WireValueView::Fixed32(v) => key_bytes(field.tag, WIRE_FIXED32) + spec_u32_to_le_bytes(v),
        WireValueView::Group => key_bytes(field.tag, WIRE_START_GROUP) + key_bytes(
            field.tag,
            WIRE_END_GROUP,
        ),
    }
}

/// The bytes of a sequence of fields, one after the other.
pub open spec fn fields_bytes(fields: Seq<FieldView>) -> Seq<u8>
    decreases fields.len(),
{
    if fields.len() == 0 {
        Seq::empty()
    } else {
        field_bytes(fields[0]) + fields_bytes(fields.skip(1))
    }
}

/// The number of bytes that `prost::encoding::skip_field` passes over where
/// `body` stands behind the start key of a group of field `tag` and the
/// decoding starts afresh; `None` where it fails.
pub uninterp spec fn group_len(tag: u32, body: Seq<u8>) -> Option<nat>;

/// The field number, the wire type and the length of the key at the start of
/// `bytes`. The key must fit 32 bits, its wire type is at most five, and its
/// field number at least one.
pub open spec fn parse_key(bytes: Seq<u8>) -> Option<(u32, nat, nat)> {
    match parse_varint(bytes) {
        Some((key, len)) => if key > u32::MAX || key % 8 > 5 || key / 8 < 1 {
            None
        } else {
            Some(((key / 8) as u32, key % 8, len))
        },
        None => None,
    }
}

/// The value of field `tag` with wire type `wire_type` at the start of
/// `body`, and its length. The end of a group is no value.
pub open spec fn parse_value(tag: u32, wire_type: nat, body: Seq<u8>) -> Option<
    (WireValueView, nat),
> {
    if wire_type == WIRE_VARINT {
        match parse_varint(body) {
            Some((v, n)) => Some((WireValueView::Varint(v as u64), n)),
            None => None,
        }
    } else if wire_type == WIRE_FIXED64 {
        if body.len() < 8 {
            None
        } else {
            Some((WireValueView::Fixed64(spec_u64_from_le_bytes(body.subrange(0, 8))), 8nat))
        }
    } else if wire_type == WIRE_BYTES {
        match parse_varint(body) {
            Some((len, n)) => if n + len > body.len() {
                None
            } else {
                Some((WireValueView::Bytes(body.subrange(n as int, (n + len) as int)), n + len))
            },
            None => None,
        }
    } else if wire_type == WIRE_FIXED32 {
        if body.len() < 4 {
            None
        } else {
            Some((WireValueView::Fixed32(spec_u32_from_le_bytes(body.subrange(0, 4))), 4nat))
        }
    } else if wire_type == WIRE_START_GROUP {
        match group_len(tag, body) {
            Some(len) => if len <= body.len() {
                Some((WireValueView::Group, len))
            } else {
                None
            },
            None => None,
        }
    } else {
        None
    }
}

/// The field at the start of `bytes`, and its length.
pub open spec fn parse_field(bytes: Seq<u8>) -> Option<(FieldView, nat)> {
    match parse_key(bytes) {
        Some((tag, wire_type, key_len)) => match parse_value(
            tag,
            wire_type,
            bytes.skip(key_len as int),
        ) {
            Some((value, len)) => Some((FieldView { tag, value }, key_len + len)),
            None => None,
        },
        None => None,
    }
}

/// The fields that `bytes` is made of, if it is a sequence of well-formed
/// fields from its first byte to its last.
pub open spec fn parse_fields(bytes: Seq<u8>) -> Option<Seq<FieldView>>
    decreases bytes.len(),
{
    if bytes.len() == 0 {
        Some(Seq::empty())
    } else {
        match parse_field(bytes) {
            Some((field, len)) => if 0 < len <= bytes.len() {
                match parse_fields(bytes.skip(len as int)) {
                    Some(rest) => Some(seq![field] + rest),
                    None => None,
                }
            } else {
                None
            },
            None => None,
        }
    }
}

/// A field that the writers produce: its number is in the range of the wire
/// format, it is no group, and a byte string's length fits 64 bits.
pub open spec fn valid_field(field: FieldView) -> bool {
    &&& 1 <= field.tag <= MAX_TAG
    &&& !(field.value is Group)
    &&& field.value matches WireValueView::Bytes(b) ==> b.len() <= u64::MAX
}

/// A parsed field takes at least one byte and no more than there are.
pub proof fn lemma_parse_field_len(bytes: Seq<u8>)
    ensures
        parse_field(bytes) matches Some((field, len)) ==> 0 < len <= bytes.len() && field.tag >= 1,
{
    lemma_parse_varint_bounds(bytes);
    if let Some((key, key_len)) = parse_varint(bytes) {
        lemma_parse_varint_bounds(bytes.skip(key_len as int));
    }
}

/// One field reads back from its bytes, whatever follows them.
pub proof fn lemma_field_round_trip(field: FieldView, rest: Seq<u8>)
    requires
        valid_field(field),
    ensures
        parse_field(field_bytes(field) + rest) == Some((field, field_bytes(field).len())),
{
    let wire_type: u64 = match field.value {
        WireValueView::Varint(_) => WIRE_VARINT,
        WireValueView::Fixed64(_) => WIRE_FIXED64,
        WireValueView::Bytes(_) => WIRE_BYTES,
        WireValueView::Fixed32(_) => WIRE_FIXED32,
        WireValueView::Group => WIRE_START_GROUP,
    };
    let key: u64 = (field.tag as u64 * 8 + wire_type) as u64;
    let key_seq = varint_bytes(key as nat);
    let all = field_bytes(field) + rest;
    let payload = field_bytes(field).skip(key_seq.len() as int);
    assert(key_bytes(field.tag, wire_type) == key_seq);
    assert(field_bytes(field) =~= key_seq + payload);
    assert(all =~= key_seq + (payload + rest));
    lemma_parse_varint_round_trip(key, payload + rest);
    assert(all.skip(key_seq.len() as int) =~= payload + rest);
    assert(key as nat / 8 == field.tag && key as nat % 8 == wire_type);
    match field.value {
        WireValueView::Varint(v) => {
            assert(payload =~= varint_bytes(v as nat));
            lemma_parse_varint_round_trip(v, rest);
        },
        WireValueView::Fixed64(v) => {
            lemma_auto_spec_u64_to_from_le_bytes();
            assert(payload =~= spec_u64_to_le_bytes(v));
            assert((payload + rest).subrange(0, 8) =~= spec_u64_to_le_bytes(v));
        },
        WireValueView::Bytes(b) => {
            let len_seq = varint_bytes(b.len());
            assert(payload =~= len_seq + b);
            assert(payload + rest =~= len_seq + (b + rest));
            lemma_parse_varint_round_trip(b.len() as u64, b + rest);
            assert((payload + rest).subrange(len_seq.len() as int, (len_seq.len() + b.len()) as int)
                =~= b);
        },
        WireValueView::Fixed32(v) => {
            lemma_auto_spec_u32_to_from_le_bytes();
            assert(payload =~= spec_u32_to_le_bytes(v));
            assert((payload + rest).subrange(0, 4) =~= spec_u32_to_le_bytes(v));
        },
        WireValueView::Group => {},
    }
}

/// The bytes of two sequences of fields, joined, are the bytes of the joined
/// sequence.
pub proof fn lemma_fields_bytes_concat(a: Seq<FieldView>, b: Seq<FieldView>)
    ensures
        fields_bytes(a + b) == fields_bytes(a) + fields_bytes(b),
    decreases a.len(),
{
    if a.len() == 0 {
        assert(a + b =~= b);
        assert(fields_bytes(a) + fields_bytes(b) =~= fields_bytes(b));
    } else {
        assert((a + b).skip(1) =~= a.skip(1) + b);
        lemma_fields_bytes_concat(a.skip(1), b);
        assert(fields_bytes(a + b) =~= fields_bytes(a) + fields_bytes(b));
    }
}

/// A sequence of valid fields reads back from its bytes.
pub proof fn lemma_fields_round_trip(fields: Seq<FieldView>)
    requires
        forall|i: int| 0 <= i < fields.len() ==> valid_field(#[trigger] fields[i]),
    ensures
        parse_fields(fields_bytes(fields)) == Some(fields),
    decreases fields.len(),
{
    if fields.len() == 0 {
    } else {
        let head = fields[0];
        let tail = fields.skip(1);
        let bytes = fields_bytes(fields);
        lemma_field_round_trip(head, fields_bytes(tail));
        lemma_parse_field_len(bytes);
        assert(bytes.skip(field_bytes(head).len() as int) =~= fields_bytes(tail));
        assert forall|i: int| 0 <= i < tail.len() implies valid_field(#[trigger] tail[i]) by {
            assert(tail[i] == fields[i + 1]);
        }
        lemma_fields_round_trip(tail);
        assert(seq![head] + tail =~= fields);
    }
}

/// `prost::encoding::encode_key` on a vector, for a field number of the
/// wire format and a wire type of at most five: the varint of the field
/// number above the three bits of the wire type is appended to `buf`, and
/// nothing else changes.
#[verifier::external_body]
fn prost_encode_key(tag: u32, wire_type: u64, buf: &mut Vec<u8>)
    requires
        1 <= tag <= MAX_TAG,
        wire_type <= 5,
    ensures
        final(buf)@ == old(buf)@ + key_bytes(tag, wire_type),
{
    if let Ok(wire_type) = prost::encoding::WireType::try_from(wire_type) {
        prost::encoding::encode_key(tag, wire_type, buf)
    }
}

/// Appends the key of field `tag` with wire type `wire_type`.
pub fn put_key(tag: u32, wire_type: u64, buf: &mut Vec<u8>)
    requires
        1 <= tag <= MAX_TAG,
        wire_type <= 5,
    ensures
        final(buf)@ == old(buf)@ + key_bytes(tag, wire_type),
{
    prost_encode_key(tag, wire_type, buf)
}

/// Appends field `tag` with the varint `value`.
pub fn put_varint_field(tag: u32, value: u64, buf: &mut Vec<u8>)
    requires
        1 <= tag <= MAX_TAG,
    ensures
        final(buf)@ == old(buf)@ + field_bytes(
            FieldView { tag, value: WireValueView::Varint(value) },
        ),
{
    put_key(tag, WIRE_VARINT, buf);
    encode_varint(value, buf);
    assert(buf@ =~= old(buf)@ + field_bytes(
        FieldView { tag, value: WireValueView::Varint(value) },
    ));
}

/// Appends field `tag` with the eight little-endian bytes of `value`.
pub fn put_fixed64_field(tag: u32, value: u64, buf: &mut Vec<u8>)
    requires
        1 <= tag <= MAX_TAG,
    ensures
        final(buf)@ == old(buf)@ + field_bytes(
            FieldView { tag, value: WireValueView::Fixed64(value) },
        ),
{
    put_key(tag, WIRE_FIXED64, buf);
    let mut bytes = u64_to_le_bytes(value);
    buf.append(&mut bytes);
    assert(buf@ =~= old(buf)@ + field_bytes(
        FieldView { tag, value: WireValueView::Fixed64(value) },
    ));
}

/// Appends field `tag` with the byte string `value`, its length first.
pub fn put_bytes_field(tag: u32, value: &[u8], buf: &mut Vec<u8>)
    requires
        1 <= tag <= MAX_TAG,
    ensures
        final(buf)@ == old(buf)@ + field_bytes(
            FieldView { tag, value: WireValueView::Bytes(value@) },
        ),
{
    put_key(tag, WIRE_BYTES, buf);
    encode_varint(value.len() as u64, buf);
    buf.extend_from_slice(value);
    assert(buf@ =~= old(buf)@ + field_bytes(
        FieldView { tag, value: WireValueView::Bytes(value@) },
    ));
}

/// `prost::encoding::decode_key` on a slice: it succeeds exactly where a
/// well-formed varint starts that fits 32 bits, whose three low bits are a
/// wire type of at most five and whose other bits are a field number of at
/// least one. It gives the field number, the wire type as its number, and
/// the bytes behind the key.
#[verifier::external_body]
fn prost_decode_key<'a>(data: &'a [u8]) -> (r: Result<(u32, u64, &'a [u8]), prost::DecodeError>)
    ensures
        match r {
            Ok((tag, wire_type, rest)) => parse_key(data@) matches Some((t, w, len)) && t == tag
                && w == wire_type && rest@ == data@.skip(len as int),
            Err(_) => parse_key(data@) is None,
        },
{
    let mut rest = data;
    let (tag, wire_type) = prost::encoding::decode_key(&mut rest)?;
    Ok((tag, wire_type as u64, rest))
}

/// `prost::encoding::skip_field` on a slice that stands behind the start key
/// of a group of field `tag`, with a new decoding context: it passes over the
/// fields of the group and its end key, and leaves the bytes behind them. How
/// many bytes that are is `group_len`; they are never more than there are.
#[verifier::external_body]
fn prost_skip_group<'a>(tag: u32, data: &'a [u8]) -> (r: Result<&'a [u8], prost::DecodeError>)
    ensures
        match r {
            Ok(rest) => group_len(tag, data@) matches Some(len) && len <= data@.len() && rest@
                == data@.skip(len as int),
            Err(_) => group_len(tag, data@) is None,
        },
{
    let mut rest = data;
    let context = prost::encoding::DecodeContext::default();
    prost::encoding::skip_field(prost::encoding::WireType::StartGroup, tag, &mut rest, context)?;
    Ok(rest)
}

/// Reads the key at the start of `data`: the field number, the wire type and
/// how many bytes the key takes. Fails exactly where no well-formed key
/// starts.
pub fn decode_key(data: &[u8]) -> (r: Result<(u32, u64, usize), WireError>)
    ensures
        match r {
            Ok((tag, wire_type, len)) => parse_key(data@) == Some(
                (tag, wire_type as nat, len as nat),
            ),
            Err(_) => parse_key(data@) is None,
        },
{
    match prost_decode_key(data) {
        Ok((tag, wire_type, rest)) => {
            proof {
                lemma_parse_varint_bounds(data@);
            }
            Ok((tag, wire_type, data.len() - rest.len()))
        },
        Err(_) => Err(WireError),
    }
}

/// Reads over the group of field `tag` whose start key stands before `data`:
/// how many bytes its fields and its end key take. Fails exactly where no
/// well-formed group with that end stands there.
pub fn skip_group(tag: u32, data: &[u8]) -> (r: Result<usize, WireError>)
    ensures
        match r {
            Ok(len) => group_len(tag, data@) == Some(len as nat) && len <= data@.len(),
            Err(_) => group_len(tag, data@) is None,
        },
{
    match prost_skip_group(tag, data) {
        Ok(rest) => Ok(data.len() - rest.len()),
        Err(_) => Err(WireError),
    }
}

/// Reads the field at the start of `data`: the field and how many bytes it
/// takes. Fails exactly where no well-formed field starts.
pub fn read_field(data: &[u8]) -> (r: Result<(Field, usize), WireError>)
    ensures
        match r {
            Ok((field, len)) => parse_field(data@) == Some((field@, len as nat)),
            Err(_) => parse_field(data@) is None,
        },
{
    let (tag, wire_type, key_len) = match decode_key(data) {
        Ok(key) => key,
        Err(e) => {
            return Err(e);
        },
    };
    proof {
        lemma_parse_varint_bounds(data@);
    }
    let body = slice_subrange(data, key_len, data.len());
    assert(body@ =~= data@.skip(key_len as int));
    proof {
        lemma_parse_varint_bounds(body@);
    }
    if wire_type == WIRE_VARINT {
        match decode_varint(body) {
            Ok((value, len)) => Ok((Field { tag, value: WireValue::Varint(value) }, key_len + len)),
            Err(e) => Err(e),
        }
    } else if wire_type == WIRE_FIXED64 {
        if body.len() < 8 {
            Err(WireError)
        } else {
            let value = u64_from_le_bytes(slice_subrange(body, 0, 8));
            Ok((Field { tag, value: WireValue::Fixed64(value) }, key_len + 8))
        }
    } else if wire_type == WIRE_BYTES {
        match decode_varint(body) {
            Ok((len, len_len)) => {
                if len > (body.len() - len_len) as u64 {
                    Err(WireError)
                } else {
                    let len: usize = len as usize;
                    let bytes = slice_to_vec(slice_subrange(body, len_len, len_len + len));
                    Ok((Field { tag, value: WireValue::Bytes(bytes) }, key_len + len_len + len))
                }
            },
            Err(e) => Err(e),
        }
    } else if wire_type == WIRE_FIXED32 {
        if body.len() < 4 {
            Err(WireError)
        } else {
            let value = u32_from_le_bytes(slice_subrange(body, 0, 4));
            Ok((Field { tag, value: WireValue::Fixed32(value) }, key_len + 4))
        }
    } else if wire_type == WIRE_START_GROUP {
        match skip_group(tag, body) {
            Ok(len) => Ok((Field { tag, value: WireValue::Group }, key_len + len)),
            Err(e) => Err(e),
        }
    } else {
        Err(WireError)
    }
}

/// Splits `data` into its fields. Fails exactly where `data` is not a
/// sequence of well-formed fields from its first byte to its last.
pub fn read_fields(data: &[u8]) -> (r: Result<Vec<Field>, WireError>)
    ensures
        match r {
            Ok(fields) => parse_fields(data@) == Some(field_views(fields@)),
            Err(_) => parse_fields(data@) is None,
        },
{
    let mut fields: Vec<Field> = Vec::new();
    let mut pos: usize = 0;
    assert(data@.skip(0) =~= data@);
    assert(field_views(fields@) + Seq::<FieldView>::empty() =~= Seq::<FieldView>::empty());
    while pos < data.len()
        invariant
            pos <= data.len(),
            parse_fields(data@) == match parse_fields(data@.skip(pos as int)) {
                Some(rest) => Some(field_views(fields@) + rest),
                None => None,
            },
        decreases data.len() - pos,
    {
        let rest = slice_subrange(data, pos, data.len());
        assert(rest@ =~= data@.skip(pos as int));
        proof {
            lemma_parse_field_len(rest@);
        }
        match read_field(rest) {
            Ok((field, len)) => {
                let ghost before = field_views(fields@);
                assert(rest@.skip(len as int) =~= data@.skip(pos + len));
                fields.push(field);
                pos = pos + len;
                proof {
                    let after = field_views(fields@);
                    assert(after =~= before.push(field@));
                    if let Some(tail) = parse_fields(data@.skip(pos as int)) {
                        assert(before + (seq![field@] + tail) =~= after + tail);
                    }
                }
            },
            Err(e) => {
                return Err(e);
            },
        }
    }
    assert(data@.skip(pos as int) =~= Seq::<u8>::empty());
    assert(field_views(fields@) + Seq::<FieldView>::empty() =~= field_views(fields@));
    Ok(fields)
}

} // verus!
