//! The header, payload and checksum messages of the packet schema.

use crate::schema::{
    bytes_field, fold_fields, lemma_fold_concat, lemma_valid_fields_concat, low32, number_field,
    put_bytes, put_number, step_of, truncate32, valid_fields, WireMessage,
};
use crate::varint::WireError;
use crate::wire::{
    fields_bytes, lemma_fields_bytes_concat, Field, FieldView, WireValue, WireValueView,
};
use vstd::prelude::*;
use vstd::slice::slice_to_vec;
use vstd::utf8::{
    decode_utf8, encode_utf8, encode_utf8_decode_utf8, encode_utf8_valid_utf8, valid_utf8,
};

verus! {

/// A 32-bit number is its own low 32 bits.
pub proof fn lemma_low32_of_number(value: u32)
    ensures
        low32(value as u64) == value,
{
}

/// `String::from_utf8`: it succeeds exactly on well-formed UTF-8 and then
/// gives the string that the bytes encode.
#[verifier::external_body]
fn string_from_utf8(bytes: Vec<u8>) -> (r: Option<String>)
    ensures
        match r {
            Some(s) => valid_utf8(bytes@) && s@ == decode_utf8(bytes@),
            None => !valid_utf8(bytes@),
        },
{
    match String::from_utf8(bytes) {
        Ok(s) => Some(s),
        Err(_) => None,
    }
}

/// Identification and bookkeeping of a packet.
#[derive(Debug, Clone, Copy, PartialEq, Eq, Structural)]
pub struct PacketHeader {
    pub id: u32,
    pub length: u32,
    pub checksum: u32,
    pub version: u32,
    pub flags: u32,
}

impl View for PacketHeader {
    type V = PacketHeader;

    open spec fn view(&self) -> PacketHeader {
        *self
    }
}

impl WireMessage for PacketHeader {
    open spec fn empty() -> PacketHeader {
        PacketHeader { id: 0, length: 0, checksum: 0, version: 0, flags: 0 }
    }

    open spec fn fields(m: PacketHeader) -> Seq<FieldView> {
        number_field(1, m.id) + number_field(2, m.length) + number_field(3, m.checksum)
            + number_field(4, m.version) + number_field(5, m.flags)
    }

    /// Fields one to five must be varints and replace the number they name.
    open spec fn step(m: PacketHeader, field: FieldView) -> Option<PacketHeader> {
        if 1 <= field.tag <= 5 {
            match field.value {
                WireValueView::Varint(v) => Some(
                    if field.tag == 1 {
                        PacketHeader { id: low32(v), ..m }
                    } else if field.tag == 2 {
                        PacketHeader { length: low32(v), ..m }
                    } else if field.tag == 3 {
                        PacketHeader { checksum: low32(v), ..m }
                    } else if field.tag == 4 {
                        PacketHeader { version: low32(v), ..m }
                    } else {
                        PacketHeader { flags: low32(v), ..m }
                    },
                ),
                _ => None,
            }
        } else {
            Some(m)
        }
    }

    fn new() -> (r: PacketHeader) {
        PacketHeader { id: 0, length: 0, checksum: 0, version: 0, flags: 0 }
    }

    fn encode_into(&self, buf: &mut Vec<u8>) {
        put_number(1, self.id, buf);
        put_number(2, self.length, buf);
        put_number(3, self.checksum, buf);
        put_number(4, self.version, buf);
        put_number(5, self.flags, buf);
        proof {
            let f1 = number_field(1, self.id);
            let f2 = number_field(2, self.length);
            let f3 = number_field(3, self.checksum);
            let f4 = number_field(4, self.version);
            let f5 = number_field(5, self.flags);
            lemma_fields_bytes_concat(f1, f2);
            lemma_fields_bytes_concat(f1 + f2, f3);
            lemma_fields_bytes_concat(f1 + f2 + f3, f4);
            lemma_fields_bytes_concat(f1 + f2 + f3 + f4, f5);
            assert(buf@ =~= old(buf)@ + fields_bytes(Self::fields(self@)));
        }
    }

    fn merge_field(self, field: &Field) -> (r: Result<PacketHeader, WireError>) {
        if 1 <= field.tag && field.tag <= 5 {
            match field.value {
                WireValue::Varint(v) => {
                    let n = truncate32(v);
                    let mut m = self;
                    if field.tag == 1 {
                        m.id = n;
                    } else if field.tag == 2 {
                        m.length = n;
                    } else if field.tag == 3 {
                        m.checksum = n;
                    } else if field.tag == 4 {
                        m.version = n;
                    } else {
                        m.flags = n;
                    }
                    Ok(m)
                },
                _ => Err(WireError),
            }
        } else {
            Ok(self)
        }
    }
}

impl PacketHeader {
    /// The fields of a header can be written, and merging them into the
    /// empty header gives the header.
    pub proof fn lemma_fields(m: PacketHeader)
        ensures
            valid_fields(Self::fields(m)),
            fold_fields(Self::empty(), Self::fields(m), step_of::<PacketHeader>()) == Some(m),
    {
        reveal_with_fuel(fold_fields, 2);
        let step = step_of::<PacketHeader>();
        let f1 = number_field(1, m.id);
        let f2 = number_field(2, m.length);
        let f3 = number_field(3, m.checksum);
        let f4 = number_field(4, m.version);
        let f5 = number_field(5, m.flags);
        lemma_valid_fields_concat(f1, f2);
        lemma_valid_fields_concat(f1 + f2, f3);
        lemma_valid_fields_concat(f1 + f2 + f3, f4);
        lemma_valid_fields_concat(f1 + f2 + f3 + f4, f5);
        let m0 = Self::empty();
        let m1 = PacketHeader { id: m.id, ..m0 };
        let m2 = PacketHeader { length: m.length, ..m1 };
        let m3 = PacketHeader { checksum: m.checksum, ..m2 };
        let m4 = PacketHeader { version: m.version, ..m3 };
        assert(fold_fields(m0, f1, step) == Some(m1)) by {
            lemma_low32_of_number(m.id);
            assert(f1.len() > 0 ==> f1.skip(1) =~= Seq::<FieldView>::empty());
        }
        assert(fold_fields(m1, f2, step) == Some(m2)) by {
            lemma_low32_of_number(m.length);
            assert(f2.len() > 0 ==> f2.skip(1) =~= Seq::<FieldView>::empty());
        }
        assert(fold_fields(m2, f3, step) == Some(m3)) by {
            lemma_low32_of_number(m.checksum);
            assert(f3.len() > 0 ==> f3.skip(1) =~= Seq::<FieldView>::empty());
        }
        assert(fold_fields(m3, f4, step) == Some(m4)) by {
            lemma_low32_of_number(m.version);
            assert(f4.len() > 0 ==> f4.skip(1) =~= Seq::<FieldView>::empty());
        }
        assert(fold_fields(m4, f5, step) == Some(m)) by {
            lemma_low32_of_number(m.flags);
            assert(f5.len() > 0 ==> f5.skip(1) =~= Seq::<FieldView>::empty());
        }
        lemma_fold_concat(m0, f1, f2, step);
        lemma_fold_concat(m0, f1 + f2, f3, step);
        lemma_fold_concat(m0, f1 + f2 + f3, f4, step);
        lemma_fold_concat(m0, f1 + f2 + f3 + f4, f5, step);
    }
}

/// Data carried by a packet, with the name of its encoding.
#[derive(Debug, Clone, PartialEq, Eq)]
pub struct PacketPayload {
    pub type_value: u32,
    pub data: Vec<u8>,
    pub size: u32,
    pub encoding: String,
}

/// Mathematical form of a [`PacketPayload`].
pub ghost struct PacketPayloadView {
    pub type_value: u32,
    pub data: Seq<u8>,
    pub size: u32,
    pub encoding: Seq<char>,
}

impl View for PacketPayload {
    type V = PacketPayloadView;

    open spec fn view(&self) -> PacketPayloadView {
        PacketPayloadView {
            type_value: self.type_value,
            data: self.data@,
            size: self.size,
            encoding: self.encoding@,
        }
    }
}

impl WireMessage for PacketPayload {
    open spec fn empty() -> PacketPayloadView {
        PacketPayloadView { type_value: 0, data: Seq::empty(), size: 0, encoding: Seq::empty() }
    }

    open spec fn fields(m: PacketPayloadView) -> Seq<FieldView> {
        number_field(1, m.type_value) + bytes_field(2, m.data) + number_field(3, m.size)
            + bytes_field(4, encode_utf8(m.encoding))
    }

    /// Fields one and three must be varints, field two a byte string and
    /// field four a byte string of well-formed UTF-8.
    open spec fn step(m: PacketPayloadView, field: FieldView) -> Option<PacketPayloadView> {
        if field.tag == 1 {
            match field.value {
                WireValueView::Varint(v) => Some(PacketPayloadView { type_value: low32(v), ..m }),
                _ => None,
            }
        } else if field.tag == 2 {
            match field.value {
                WireValueView::Bytes(b) => Some(PacketPayloadView { data: b, ..m }),
                _ => None,
            }
        } else if field.tag == 3 {
            match field.value {
                WireValueView::Varint(v) => Some(PacketPayloadView { size: low32(v), ..m }),
                _ => None,
            }
        } else if field.tag == 4 {
            match field.value {
                WireValueView::Bytes(b) => if valid_utf8(b) {
                    Some(PacketPayloadView { encoding: decode_utf8(b), ..m })
                } else {
                    None
                },
                _ => None,
            }
        } else {
            Some(m)
        }
    }

    fn new() -> (r: PacketPayload) {
        PacketPayload { type_value: 0, data: Vec::new(), size: 0, encoding: String::new() }
    }

    fn encode_into(&self, buf: &mut Vec<u8>) {
        put_number(1, self.type_value, buf);
        put_bytes(2, self.data.as_slice(), buf);
        put_number(3, self.size, buf);
        put_bytes(4, self.encoding.as_str().as_bytes(), buf);
        proof {
            let f1 = number_field(1, self.type_value);
            let f2 = bytes_field(2, self.data@);
            let f3 = number_field(3, self.size);
            let f4 = bytes_field(4, encode_utf8(self.encoding@));
            lemma_fields_bytes_concat(f1, f2);
            lemma_fields_bytes_concat(f1 + f2, f3);
            lemma_fields_bytes_concat(f1 + f2 + f3, f4);
            assert(buf@ =~= old(buf)@ + fields_bytes(Self::fields(self@)));
        }
    }

    fn merge_field(self, field: &Field) -> (r: Result<PacketPayload, WireError>) {
        let mut m = self;
        if field.tag == 1 {
            match field.value {
                WireValue::Varint(v) => {
                    m.type_value = truncate32(v);
                    Ok(m)
                },
                _ => Err(WireError),
            }
        } else if field.tag == 2 {
            match &field.value {
                WireValue::Bytes(b) => {
                    m.data = slice_to_vec(b.as_slice());
                    Ok(m)
                },
                _ => Err(WireError),
            }
        } else if field.tag == 3 {
            match field.value {
                WireValue::Varint(v) => {
                    m.size = truncate32(v);
                    Ok(m)
                },
                _ => Err(WireError),
            }
        } else if field.tag == 4 {
            match &field.value {
                WireValue::Bytes(b) => {
                    match string_from_utf8(slice_to_vec(b.as_slice())) {
                        Some(s) => {
                            m.encoding = s;
                            Ok(m)
                        },
                        None => Err(WireError),
                    }
                },
                _ => Err(WireError),
            }
        } else {
            Ok(m)
        }
    }
}

impl PacketPayload {
    /// Holds of the payloads whose byte strings have lengths of 64 bits.
    pub open spec fn canonical(m: PacketPayloadView) -> bool {
        m.data.len() <= u64::MAX && encode_utf8(m.encoding).len() <= u64::MAX
    }

    /// The fields of a canonical payload can be written, and merging them
    /// into the empty payload gives the payload.
    pub proof fn lemma_fields(m: PacketPayloadView)
        requires
            Self::canonical(m),
        ensures
            valid_fields(Self::fields(m)),
            fold_fields(Self::empty(), Self::fields(m), step_of::<PacketPayload>()) == Some(m),
    {
        reveal_with_fuel(fold_fields, 2);
        let step = step_of::<PacketPayload>();
        let f1 = number_field(1, m.type_value);
        let f2 = bytes_field(2, m.data);
        let f3 = number_field(3, m.size);
        let f4 = bytes_field(4, encode_utf8(m.encoding));
        lemma_valid_fields_concat(f1, f2);
        lemma_valid_fields_concat(f1 + f2, f3);
        lemma_valid_fields_concat(f1 + f2 + f3, f4);
        let m0 = Self::empty();
        let m1 = PacketPayloadView { type_value: m.type_value, ..m0 };
        let m2 = PacketPayloadView { data: m.data, ..m1 };
        let m3 = PacketPayloadView { size: m.size, ..m2 };
        assert(fold_fields(m0, f1, step) == Some(m1)) by {
            lemma_low32_of_number(m.type_value);
            assert(f1.len() > 0 ==> f1.skip(1) =~= Seq::<FieldView>::empty());
        }
        assert(fold_fields(m1, f2, step) == Some(m2)) by {
            assert(f2.len() > 0 ==> f2.skip(1) =~= Seq::<FieldView>::empty());
            assert(m.data.len() == 0 ==> m.data =~= Seq::<u8>::empty());
        }
        assert(fold_fields(m2, f3, step) == Some(m3)) by {
            lemma_low32_of_number(m.size);
            assert(f3.len() > 0 ==> f3.skip(1) =~= Seq::<FieldView>::empty());
        }
        assert(fold_fields(m3, f4, step) == Some(m)) by {
            encode_utf8_valid_utf8(m.encoding);
            encode_utf8_decode_utf8(m.encoding);
            assert(f4.len() > 0 ==> f4.skip(1) =~= Seq::<FieldView>::empty());
            if encode_utf8(m.encoding).len() == 0 {
                assert(encode_utf8(m.encoding) =~= Seq::<u8>::empty());
                assert(decode_utf8(Seq::<u8>::empty()) =~= Seq::<char>::empty());
                assert(m.encoding =~= Seq::<char>::empty());
            }
        }
        lemma_fold_concat(m0, f1, f2, step);
        lemma_fold_concat(m0, f1 + f2, f3, step);
        lemma_fold_concat(m0, f1 + f2 + f3, f4, step);
    }
}

/// A checksum over a packet: the algorithm, the value and the length it
/// covers.
#[derive(Debug, Clone, PartialEq, Eq)]
pub struct PacketChecksum {
    pub algorithm: u32,
    pub value: Vec<u8>,
    pub length: u32,
}

/// Mathematical form of a [`PacketChecksum`].
pub ghost struct PacketChecksumView {
    pub algorithm: u32,
    pub value: Seq<u8>,
    pub length: u32,
}

impl View for PacketChecksum {
    type V = PacketChecksumView;

    open spec fn view(&self) -> PacketChecksumView {
        PacketChecksumView { algorithm: self.algorithm, value: self.value@, length: self.length }
    }
}

impl WireMessage for PacketChecksum {
    open spec fn empty() -> PacketChecksumView {
        PacketChecksumView { algorithm: 0, value: Seq::empty(), length: 0 }
    }

    open spec fn fields(m: PacketChecksumView) -> Seq<FieldView> {
        number_field(1, m.algorithm) + bytes_field(2, m.value) + number_field(3, m.length)
    }

    /// Fields one and three must be varints, field two a byte string.
    open spec fn step(m: PacketChecksumView, field: FieldView) -> Option<PacketChecksumView> {
        if field.tag == 1 {
            match field.value {
                WireValueView::Varint(v) => Some(PacketChecksumView { algorithm: low32(v), ..m }),
                _ => None,
            }
        } else if field.tag == 2 {
            match field.value {
                WireValueView::Bytes(b) => Some(PacketChecksumView { value: b, ..m }),
                _ => None,
            }
        } else if field.tag == 3 {
            match field.value {
                WireValueView::Varint(v) => Some(PacketChecksumView { length: low32(v), ..m }),
                _ => None,
            }
        } else {
            Some(m)
        }
    }

    fn new() -> (r: PacketChecksum) {
        PacketChecksum { algorithm: 0, value: Vec::new(), length: 0 }
    }

    fn encode_into(&self, buf: &mut Vec<u8>) {
        put_number(1, self.algorithm, buf);
        put_bytes(2, self.value.as_slice(), buf);
        put_number(3, self.length, buf);
        proof {
            let f1 = number_field(1, self.algorithm);
            let f2 = bytes_field(2, self.value@);
            let f3 = number_field(3, self.length);
            lemma_fields_bytes_concat(f1, f2);
            lemma_fields_bytes_concat(f1 + f2, f3);
            assert(buf@ =~= old(buf)@ + fields_bytes(Self::fields(self@)));
        }
    }

    fn merge_field(self, field: &Field) -> (r: Result<PacketChecksum, WireError>) {
        let mut m = self;
        if field.tag == 1 {
            match field.value {
                WireValue::Varint(v) => {
                    m.algorithm = truncate32(v);
                    Ok(m)
                },
                _ => Err(WireError),
            }
        } else if field.tag == 2 {
            match &field.value {
                WireValue::Bytes(b) => {
                    m.value = slice_to_vec(b.as_slice());
                    Ok(m)
                },
                _ => Err(WireError),
            }
        } else if field.tag == 3 {
            match field.value {
                WireValue::Varint(v) => {
                    m.length = truncate32(v);
                    Ok(m)
                },
                _ => Err(WireError),
            }
        } else {
            Ok(m)
        }
    }
}

impl PacketChecksum {
    /// Holds of the checksums whose value has a length of 64 bits.
    pub open spec fn canonical(m: PacketChecksumView) -> bool {
        m.value.len() <= u64::MAX
    }

    /// The fields of a canonical checksum can be written, and merging them
    /// into the empty checksum gives the checksum.
    pub proof fn lemma_fields(m: PacketChecksumView)
        requires
            Self::canonical(m),
        ensures
            valid_fields(Self::fields(m)),
            fold_fields(Self::empty(), Self::fields(m), step_of::<PacketChecksum>()) == Some(m),
    {
        reveal_with_fuel(fold_fields, 2);
        let step = step_of::<PacketChecksum>();
        let f1 = number_field(1, m.algorithm);
        let f2 = bytes_field(2, m.value);
        let f3 = number_field(3, m.length);
        lemma_valid_fields_concat(f1, f2);
        lemma_valid_fields_concat(f1 + f2, f3);
        let m0 = Self::empty();
        let m1 = PacketChecksumView { algorithm: m.algorithm, ..m0 };
        let m2 = PacketChecksumView { value: m.value, ..m1 };
        assert(fold_fields(m0, f1, step) == Some(m1)) by {
            lemma_low32_of_number(m.algorithm);
            assert(f1.len() > 0 ==> f1.skip(1) =~= Seq::<FieldView>::empty());
        }
        assert(fold_fields(m1, f2, step) == Some(m2)) by {
            assert(f2.len() > 0 ==> f2.skip(1) =~= Seq::<FieldView>::empty());
            assert(m.value.len() == 0 ==> m.value =~= Seq::<u8>::empty());
        }
        assert(fold_fields(m2, f3, step) == Some(m)) by {
            lemma_low32_of_number(m.length);
            assert(f3.len() > 0 ==> f3.skip(1) =~= Seq::<FieldView>::empty());
        }
        lemma_fold_concat(m0, f1, f2, step);
        lemma_fold_concat(m0, f1 + f2, f3, step);
    }
}

} // verus!
