//! The target messages of the packet schema: a position in two frames, a
//! velocity, a time, and lists of them.

use crate::messages::lemma_low32_of_number;
use crate::schema::{
    double_field, fold_fields, lemma_fold_concat, lemma_merge_body_of_fields,
    lemma_valid_fields_concat, low32, merge_from, merge_message, message_bytes, message_field,
    number_field, parse_message, put_double, put_message, put_number, step_of, truncate32,
    valid_fields, Double, WireMessage, NEGATIVE_ZERO_BITS, encode_message,
};
use crate::varint::{lemma_parse_varint_round_trip, WireError};
use crate::wire::{
    fields_bytes, lemma_fields_bytes_concat, Field, FieldView, WireValue, WireValueView,
};
use vstd::bytes::lemma_auto_spec_u64_to_from_le_bytes;
use vstd::prelude::*;

verus! {

impl Double {
    /// Holds of every bit pattern but negative zero, which is left out of a
    /// message as zero is and so reads back as positive zero.
    pub open spec fn canonical(self) -> bool {
        self.bits != NEGATIVE_ZERO_BITS
    }
}

/// The field of a number takes at most twenty bytes.
pub proof fn lemma_number_field_len(tag: u32, value: u32)
    ensures
        fields_bytes(number_field(tag, value)).len() <= 20,
{
    reveal_with_fuel(fields_bytes, 2);
    lemma_parse_varint_round_trip((tag as u64 * 8) as u64, Seq::empty());
    lemma_parse_varint_round_trip(value as u64, Seq::empty());
}

/// The field of a double takes at most eighteen bytes.
pub proof fn lemma_double_field_len(tag: u32, value: Double)
    ensures
        fields_bytes(double_field(tag, value)).len() <= 18,
{
    reveal_with_fuel(fields_bytes, 2);
    lemma_parse_varint_round_trip((tag as u64 * 8 + 1) as u64, Seq::empty());
    lemma_auto_spec_u64_to_from_le_bytes();
}

/// The field of an embedded message takes at most twenty bytes more than
/// the message.
pub proof fn lemma_message_field_len(tag: u32, body: Option<Seq<u8>>)
    requires
        body matches Some(b) ==> b.len() <= u64::MAX,
    ensures
        fields_bytes(message_field(tag, body)).len() <= 20 + match body {
            Some(b) => b.len(),
            None => 0,
        },
{
    reveal_with_fuel(fields_bytes, 2);
    lemma_parse_varint_round_trip((tag as u64 * 8 + 2) as u64, Seq::empty());
    if let Some(b) = body {
        lemma_parse_varint_round_trip(b.len() as u64, Seq::empty());
    }
}

/// Latitude, longitude and altitude.
#[derive(Debug, Clone, Copy, PartialEq, Eq, Structural)]
pub struct Lla {
    pub lat: Double,
    pub lon: Double,
    pub alt: Double,
}

impl View for Lla {
    type V = Lla;

    open spec fn view(&self) -> Lla {
        *self
    }
}

impl WireMessage for Lla {
    open spec fn empty() -> Lla {
        Lla { lat: Double { bits: 0 }, lon: Double { bits: 0 }, alt: Double { bits: 0 } }
    }

    open spec fn fields(m: Lla) -> Seq<FieldView> {
        double_field(1, m.lat) + double_field(2, m.lon) + double_field(3, m.alt)
    }

    /// Fields one to three must be eight bytes and replace the double they
    /// name.
    open spec fn step(m: Lla, field: FieldView) -> Option<Lla> {
        if 1 <= field.tag <= 3 {
            match field.value {
                WireValueView::Fixed64(bits) => Some(
                    if field.tag == 1 {
                        Lla { lat: Double { bits }, ..m }
                    } else if field.tag == 2 {
                        Lla { lon: Double { bits }, ..m }
                    } else {
                        Lla { alt: Double { bits }, ..m }
                    },
                ),
                _ => None,
            }
        } else {
            Some(m)
        }
    }

    fn new() -> (r: Lla) {
        Lla { lat: Double { bits: 0 }, lon: Double { bits: 0 }, alt: Double { bits: 0 } }
    }

    fn encode_into(&self, buf: &mut Vec<u8>) {
        put_double(1, self.lat, buf);
        put_double(2, self.lon, buf);
        put_double(3, self.alt, buf);
        proof {
            let f1 = double_field(1, self.lat);
            let f2 = double_field(2, self.lon);
            let f3 = double_field(3, self.alt);
            lemma_fields_bytes_concat(f1, f2);
            lemma_fields_bytes_concat(f1 + f2, f3);
            assert(buf@ =~= old(buf)@ + fields_bytes(Self::fields(self@)));
        }
    }

    fn merge_field(self, field: &Field) -> (r: Result<Lla, WireError>) {
        if 1 <= field.tag && field.tag <= 3 {
            match field.value {
                WireValue::Fixed64(bits) => {
                    let mut m = self;
                    if field.tag == 1 {
                        m.lat = Double { bits };
                    } else if field.tag == 2 {
                        m.lon = Double { bits };
                    } else {
                        m.alt = Double { bits };
                    }
                    Ok(m)
                },
                _ => Err(WireError),
            }
        } else {
            Ok(self)
        }
    }
}

impl Lla {
    /// Holds where no coordinate is negative zero.
    pub open spec fn canonical(m: Lla) -> bool {
        m.lat.canonical() && m.lon.canonical() && m.alt.canonical()
    }

    /// The fields of a canonical position can be written, and merging them
    /// into the empty position gives the position.
    pub proof fn lemma_fields(m: Lla)
        requires
            Self::canonical(m),
        ensures
            valid_fields(Self::fields(m)),
            fold_fields(Self::empty(), Self::fields(m), step_of::<Lla>()) == Some(m),
            message_bytes::<Lla>(m).len() <= 54,
            parse_message::<Lla>(message_bytes::<Lla>(m)) == Some(m),
    {
        reveal_with_fuel(fold_fields, 2);
        let step = step_of::<Lla>();
        let f1 = double_field(1, m.lat);
        let f2 = double_field(2, m.lon);
        let f3 = double_field(3, m.alt);
        lemma_valid_fields_concat(f1, f2);
        lemma_valid_fields_concat(f1 + f2, f3);
        lemma_double_field_len(1, m.lat);
        lemma_double_field_len(2, m.lon);
        lemma_double_field_len(3, m.alt);
        lemma_fields_bytes_concat(f1, f2);
        lemma_fields_bytes_concat(f1 + f2, f3);
        let m0 = Self::empty();
        let m1 = Lla { lat: m.lat, ..m0 };
        let m2 = Lla { lon: m.lon, ..m1 };
        assert(fold_fields(m0, f1, step) == Some(m1)) by {
            assert(f1.len() > 0 ==> f1.skip(1) =~= Seq::<FieldView>::empty());
        }
        assert(fold_fields(m1, f2, step) == Some(m2)) by {
            assert(f2.len() > 0 ==> f2.skip(1) =~= Seq::<FieldView>::empty());
        }
        assert(fold_fields(m2, f3, step) == Some(m)) by {
            assert(f3.len() > 0 ==> f3.skip(1) =~= Seq::<FieldView>::empty());
        }
        lemma_fold_concat(m0, f1, f2, step);
        lemma_fold_concat(m0, f1 + f2, f3, step);
        lemma_merge_body_of_fields(m0, Self::fields(m), step);
    }
}

/// North, east and down.
#[derive(Debug, Clone, Copy, PartialEq, Eq, Structural)]
pub struct Ned {
    pub north: Double,
    pub east: Double,
    pub down: Double,
}

impl View for Ned {
    type V = Ned;

    open spec fn view(&self) -> Ned {
        *self
    }
}

impl WireMessage for Ned {
    open spec fn empty() -> Ned {
        Ned { north: Double { bits: 0 }, east: Double { bits: 0 }, down: Double { bits: 0 } }
    }

    open spec fn fields(m: Ned) -> Seq<FieldView> {
        double_field(1, m.north) + double_field(2, m.east) + double_field(3, m.down)
    }

    /// Fields one to three must be eight bytes and replace the double they
    /// name.
    open spec fn step(m: Ned, field: FieldView) -> Option<Ned> {
        if 1 <= field.tag <= 3 {
            match field.value {
                WireValueView::Fixed64(bits) => Some(
                    if field.tag == 1 {
                        Ned { north: Double { bits }, ..m }
                    } else if field.tag == 2 {
                        Ned { east: Double { bits }, ..m }
                    } else {
                        Ned { down: Double { bits }, ..m }
                    },
                ),
                _ => None,
            }
        } else {
            Some(m)
        }
    }

    fn new() -> (r: Ned) {
        Ned { north: Double { bits: 0 }, east: Double { bits: 0 }, down: Double { bits: 0 } }
    }

    fn encode_into(&self, buf: &mut Vec<u8>) {
        put_double(1, self.north, buf);
        put_double(2, self.east, buf);
        put_double(3, self.down, buf);
        proof {
            let f1 = double_field(1, self.north);
            let f2 = double_field(2, self.east);
            let f3 = double_field(3, self.down);
            lemma_fields_bytes_concat(f1, f2);
            lemma_fields_bytes_concat(f1 + f2, f3);
            assert(buf@ =~= old(buf)@ + fields_bytes(Self::fields(self@)));
        }
    }

    fn merge_field(self, field: &Field) -> (r: Result<Ned, WireError>) {
        if 1 <= field.tag && field.tag <= 3 {
            match field.value {
                WireValue::Fixed64(bits) => {
                    let mut m = self;
                    if field.tag == 1 {
                        m.north = Double { bits };
                    } else if field.tag == 2 {
                        m.east = Double { bits };
                    } else {
                        m.down = Double { bits };
                    }
                    Ok(m)
                },
                _ => Err(WireError),
            }
        } else {
            Ok(self)
        }
    }
}

impl Ned {
    /// Holds where no component is negative zero.
    pub open spec fn canonical(m: Ned) -> bool {
        m.north.canonical() && m.east.canonical() && m.down.canonical()
    }

    /// The fields of a canonical vector can be written, and merging them
    /// into the empty vector gives the vector.
    pub proof fn lemma_fields(m: Ned)
        requires
            Self::canonical(m),
        ensures
            valid_fields(Self::fields(m)),
            fold_fields(Self::empty(), Self::fields(m), step_of::<Ned>()) == Some(m),
            message_bytes::<Ned>(m).len() <= 54,
            parse_message::<Ned>(message_bytes::<Ned>(m)) == Some(m),
    {
        reveal_with_fuel(fold_fields, 2);
        let step = step_of::<Ned>();
        let f1 = double_field(1, m.north);
        let f2 = double_field(2, m.east);
        let f3 = double_field(3, m.down);
        lemma_valid_fields_concat(f1, f2);
        lemma_valid_fields_concat(f1 + f2, f3);
        lemma_double_field_len(1, m.north);
        lemma_double_field_len(2, m.east);
        lemma_double_field_len(3, m.down);
        lemma_fields_bytes_concat(f1, f2);
        lemma_fields_bytes_concat(f1 + f2, f3);
        let m0 = Self::empty();
        let m1 = Ned { north: m.north, ..m0 };
        let m2 = Ned { east: m.east, ..m1 };
        assert(fold_fields(m0, f1, step) == Some(m1)) by {
            assert(f1.len() > 0 ==> f1.skip(1) =~= Seq::<FieldView>::empty());
        }
        assert(fold_fields(m1, f2, step) == Some(m2)) by {
            assert(f2.len() > 0 ==> f2.skip(1) =~= Seq::<FieldView>::empty());
        }
        assert(fold_fields(m2, f3, step) == Some(m)) by {
            assert(f3.len() > 0 ==> f3.skip(1) =~= Seq::<FieldView>::empty());
        }
        lemma_fold_concat(m0, f1, f2, step);
        lemma_fold_concat(m0, f1 + f2, f3, step);
        lemma_merge_body_of_fields(m0, Self::fields(m), step);
    }
}

/// The bytes of an optional position.
pub open spec fn lla_body(m: Option<Lla>) -> Option<Seq<u8>> {
    match m {
        Some(lla) => Some(message_bytes::<Lla>(lla)),
        None => None,
    }
}

/// The bytes of an optional vector.
pub open spec fn ned_body(m: Option<Ned>) -> Option<Seq<u8>> {
    match m {
        Some(ned) => Some(message_bytes::<Ned>(ned)),
        None => None,
    }
}

/// The position that `body` holds when merged into `before`, or into the
/// empty position where there is none.
pub open spec fn merge_lla(before: Option<Lla>, body: Seq<u8>) -> Option<Lla> {
    merge_message::<Lla>(
        match before {
            Some(lla) => lla,
            None => Lla::empty(),
        },
        body,
    )
}

/// The vector that `body` holds when merged into `before`, or into the
/// empty vector where there is none.
pub open spec fn merge_ned(before: Option<Ned>, body: Seq<u8>) -> Option<Ned> {
    merge_message::<Ned>(
        match before {
            Some(ned) => ned,
            None => Ned::empty(),
        },
        body,
    )
}

/// The state of one target at one time.
#[derive(Debug, Clone, Copy, PartialEq, Eq, Structural)]
pub struct TargetPacket {
    pub target_id: u32,
    pub lla: Option<Lla>,
    pub ned: Option<Ned>,
    pub ned_velocity: Option<Ned>,
    pub time: Double,
    pub origin: Option<Lla>,
}

impl View for TargetPacket {
    type V = TargetPacket;

    open spec fn view(&self) -> TargetPacket {
        *self
    }
}

/// Appends the field of an optional position.
fn put_lla(tag: u32, value: &Option<Lla>, buf: &mut Vec<u8>)
    requires
        1 <= tag <= crate::wire::MAX_TAG,
    ensures
        final(buf)@ == old(buf)@ + fields_bytes(message_field(tag, lla_body(*value))),
{
    match value {
        Some(lla) => {
            let body = encode_message(lla);
            put_message(tag, body.as_slice(), buf);
        },
        None => {
            assert(buf@ =~= old(buf)@ + fields_bytes(message_field(tag, lla_body(*value))));
        },
    }
}

/// Appends the field of an optional vector.
fn put_ned(tag: u32, value: &Option<Ned>, buf: &mut Vec<u8>)
    requires
        1 <= tag <= crate::wire::MAX_TAG,
    ensures
        final(buf)@ == old(buf)@ + fields_bytes(message_field(tag, ned_body(*value))),
{
    match value {
        Some(ned) => {
            let body = encode_message(ned);
            put_message(tag, body.as_slice(), buf);
        },
        None => {
            assert(buf@ =~= old(buf)@ + fields_bytes(message_field(tag, ned_body(*value))));
        },
    }
}

/// Merges `body` into an optional position.
fn merge_lla_from(before: Option<Lla>, body: &[u8]) -> (r: Result<Lla, WireError>)
    ensures
        match r {
            Ok(m) => merge_lla(before, body@) == Some(m),
            Err(_) => merge_lla(before, body@) is None,
        },
{
    let start = match before {
        Some(lla) => lla,
        None => Lla::new(),
    };
    merge_from(start, body)
}

/// Merges `body` into an optional vector.
fn merge_ned_from(before: Option<Ned>, body: &[u8]) -> (r: Result<Ned, WireError>)
    ensures
        match r {
            Ok(m) => merge_ned(before, body@) == Some(m),
            Err(_) => merge_ned(before, body@) is None,
        },
{
    let start = match before {
        Some(ned) => ned,
        None => Ned::new(),
    };
    merge_from(start, body)
}

impl WireMessage for TargetPacket {
    open spec fn empty() -> TargetPacket {
        TargetPacket {
            target_id: 0,
            lla: None,
            ned: None,
            ned_velocity: None,
            time: Double { bits: 0 },
            origin: None,
        }
    }

    open spec fn fields(m: TargetPacket) -> Seq<FieldView> {
        number_field(1, m.target_id) + message_field(2, lla_body(m.lla)) + message_field(
            3,
            ned_body(m.ned),
        ) + message_field(4, ned_body(m.ned_velocity)) + double_field(5, m.time) + message_field(
            6,
            lla_body(m.origin),
        )
    }

    /// Field one must be a varint, field five eight bytes, and fields two,
    /// three, four and six byte strings that hold a position or a vector,
    /// which is merged into the one that is there.
    open spec fn step(m: TargetPacket, field: FieldView) -> Option<TargetPacket> {
        if field.tag == 1 {
            match field.value {
                WireValueView::Varint(v) => Some(TargetPacket { target_id: low32(v), ..m }),
                _ => None,
            }
        } else if field.tag == 2 {
            match field.value {
                WireValueView::Bytes(b) => match merge_lla(m.lla, b) {
                    Some(lla) => Some(TargetPacket { lla: Some(lla), ..m }),
                    None => None,
                },
                _ => None,
            }
        } else if field.tag == 3 {
            match field.value {
                WireValueView::Bytes(b) => match merge_ned(m.ned, b) {
                    Some(ned) => Some(TargetPacket { ned: Some(ned), ..m }),
                    None => None,
                },
                _ => None,
            }
        } else if field.tag == 4 {
            match field.value {
                WireValueView::Bytes(b) => match merge_ned(m.ned_velocity, b) {
                    Some(ned) => Some(TargetPacket { ned_velocity: Some(ned), ..m }),
                    None => None,
                },
                _ => None,
            }
        } else if field.tag == 5 {
            match field.value {
                WireValueView::Fixed64(bits) => Some(TargetPacket { time: Double { bits }, ..m }),
                _ => None,
            }
        } else if field.tag == 6 {
            match field.value {
                WireValueView::Bytes(b) => match merge_lla(m.origin, b) {
                    Some(lla) => Some(TargetPacket { origin: Some(lla), ..m }),
                    None => None,
                },
                _ => None,
            }
        } else {
            Some(m)
        }
    }

    fn new() -> (r: TargetPacket) {
        TargetPacket {
            target_id: 0,
            lla: None,
            ned: None,
            ned_velocity: None,
            time: Double { bits: 0 },
            origin: None,
        }
    }

    fn encode_into(&self, buf: &mut Vec<u8>) {
        put_number(1, self.target_id, buf);
        put_lla(2, &self.lla, buf);
        put_ned(3, &self.ned, buf);
        put_ned(4, &self.ned_velocity, buf);
        put_double(5, self.time, buf);
        put_lla(6, &self.origin, buf);
        proof {
            let f1 = number_field(1, self.target_id);
            let f2 = message_field(2, lla_body(self.lla));
            let f3 = message_field(3, ned_body(self.ned));
            let f4 = message_field(4, ned_body(self.ned_velocity));
            let f5 = double_field(5, self.time);
            let f6 = message_field(6, lla_body(self.origin));
            lemma_fields_bytes_concat(f1, f2);
            lemma_fields_bytes_concat(f1 + f2, f3);
            lemma_fields_bytes_concat(f1 + f2 + f3, f4);
            lemma_fields_bytes_concat(f1 + f2 + f3 + f4, f5);
            lemma_fields_bytes_concat(f1 + f2 + f3 + f4 + f5, f6);
            assert(buf@ =~= old(buf)@ + fields_bytes(Self::fields(self@)));
        }
    }

    fn merge_field(self, field: &Field) -> (r: Result<TargetPacket, WireError>) {
        let mut m = self;
        if field.tag == 1 {
            match field.value {
                WireValue::Varint(v) => {
                    m.target_id = truncate32(v);
                    Ok(m)
                },
                _ => Err(WireError),
            }
        } else if field.tag == 2 {
            match &field.value {
                WireValue::Bytes(b) => match merge_lla_from(m.lla, b.as_slice()) {
                    Ok(lla) => {
                        m.lla = Some(lla);
                        Ok(m)
                    },
                    Err(e) => Err(e),
                },
                _ => Err(WireError),
            }
        } else if field.tag == 3 {
            match &field.value {
                WireValue::Bytes(b) => match merge_ned_from(m.ned, b.as_slice()) {
                    Ok(ned) => {
                        m.ned = Some(ned);
                        Ok(m)
                    },
                    Err(e) => Err(e),
                },
                _ => Err(WireError),
            }
        } else if field.tag == 4 {
            match &field.value {
                WireValue::Bytes(b) => match merge_ned_from(m.ned_velocity, b.as_slice()) {
                    Ok(ned) => {
                        m.ned_velocity = Some(ned);
                        Ok(m)
                    },
                    Err(e) => Err(e),
                },
                _ => Err(WireError),
            }
        } else if field.tag == 5 {
            match field.value {
                WireValue::Fixed64(bits) => {
                    m.time = Double { bits };
                    Ok(m)
                },
                _ => Err(WireError),
            }
        } else if field.tag == 6 {
            match &field.value {
                WireValue::Bytes(b) => match merge_lla_from(m.origin, b.as_slice()) {
                    Ok(lla) => {
                        m.origin = Some(lla);
                        Ok(m)
                    },
                    Err(e) => Err(e),
                },
                _ => Err(WireError),
            }
        } else {
            Ok(m)
        }
    }
}

impl TargetPacket {
    /// Holds where no double of the packet is negative zero.
    pub open spec fn canonical(m: TargetPacket) -> bool {
        &&& m.time.canonical()
        &&& m.lla matches Some(lla) ==> Lla::canonical(lla)
        &&& m.ned matches Some(ned) ==> Ned::canonical(ned)
        &&& m.ned_velocity matches Some(ned) ==> Ned::canonical(ned)
        &&& m.origin matches Some(lla) ==> Lla::canonical(lla)
    }

    /// The fields of a canonical target packet can be written, and take at
    /// most four hundred bytes.
    pub proof fn lemma_fields_valid(m: TargetPacket)
        requires
            Self::canonical(m),
        ensures
            valid_fields(Self::fields(m)),
            message_bytes::<TargetPacket>(m).len() <= 400,
    {
        let f1 = number_field(1, m.target_id);
        let f2 = message_field(2, lla_body(m.lla));
        let f3 = message_field(3, ned_body(m.ned));
        let f4 = message_field(4, ned_body(m.ned_velocity));
        let f5 = double_field(5, m.time);
        let f6 = message_field(6, lla_body(m.origin));
        if let Some(lla) = m.lla {
            Lla::lemma_fields(lla);
        }
        if let Some(ned) = m.ned {
            Ned::lemma_fields(ned);
        }
        if let Some(ned) = m.ned_velocity {
            Ned::lemma_fields(ned);
        }
        if let Some(lla) = m.origin {
            Lla::lemma_fields(lla);
        }
        lemma_valid_fields_concat(f1, f2);
        lemma_valid_fields_concat(f1 + f2, f3);
        lemma_valid_fields_concat(f1 + f2 + f3, f4);
        lemma_valid_fields_concat(f1 + f2 + f3 + f4, f5);
        lemma_valid_fields_concat(f1 + f2 + f3 + f4 + f5, f6);
        lemma_number_field_len(1, m.target_id);
        lemma_message_field_len(2, lla_body(m.lla));
        lemma_message_field_len(3, ned_body(m.ned));
        lemma_message_field_len(4, ned_body(m.ned_velocity));
        lemma_double_field_len(5, m.time);
        lemma_message_field_len(6, lla_body(m.origin));
        lemma_fields_bytes_concat(f1, f2);
        lemma_fields_bytes_concat(f1 + f2, f3);
        lemma_fields_bytes_concat(f1 + f2 + f3, f4);
        lemma_fields_bytes_concat(f1 + f2 + f3 + f4, f5);
        lemma_fields_bytes_concat(f1 + f2 + f3 + f4 + f5, f6);
    }

    /// Merging the field of a position into a packet that has none at that
    /// field number sets it.
    proof fn lemma_fold_position(before: TargetPacket, tag: u32, value: Option<Lla>)
        requires
            tag == 2 || tag == 6,
            tag == 2 ==> before.lla is None,
            tag == 6 ==> before.origin is None,
            value matches Some(lla) ==> Lla::canonical(lla),
        ensures
            fold_fields(before, message_field(tag, lla_body(value)), step_of::<TargetPacket>())
                == Some(
                if tag == 2 {
                    TargetPacket { lla: value, ..before }
                } else {
                    TargetPacket { origin: value, ..before }
                },
            ),
    {
        reveal_with_fuel(fold_fields, 2);
        let field = message_field(tag, lla_body(value));
        assert(field.len() > 0 ==> field.skip(1) =~= Seq::<FieldView>::empty());
        if let Some(lla) = value {
            Lla::lemma_fields(lla);
        }
    }

    /// Merging the field of a vector into a packet that has none at that
    /// field number sets it.
    proof fn lemma_fold_vector(before: TargetPacket, tag: u32, value: Option<Ned>)
        requires
            tag == 3 || tag == 4,
            tag == 3 ==> before.ned is None,
            tag == 4 ==> before.ned_velocity is None,
            value matches Some(ned) ==> Ned::canonical(ned),
        ensures
            fold_fields(before, message_field(tag, ned_body(value)), step_of::<TargetPacket>())
                == Some(
                if tag == 3 {
                    TargetPacket { ned: value, ..before }
                } else {
                    TargetPacket { ned_velocity: value, ..before }
                },
            ),
    {
        reveal_with_fuel(fold_fields, 2);
        let field = message_field(tag, ned_body(value));
        assert(field.len() > 0 ==> field.skip(1) =~= Seq::<FieldView>::empty());
        if let Some(ned) = value {
            Ned::lemma_fields(ned);
        }
    }

    /// Merging the field of the target's number, or of the time, into the
    /// packet that holds zero there sets it.
    proof fn lemma_fold_scalars(before: TargetPacket, target_id: u32, time: Double)
        requires
            time.canonical(),
        ensures
            before.target_id == 0 ==> fold_fields(
                before,
                number_field(1, target_id),
                step_of::<TargetPacket>(),
            ) == Some(TargetPacket { target_id, ..before }),
            before.time == (Double { bits: 0 }) ==> fold_fields(
                before,
                double_field(5, time),
                step_of::<TargetPacket>(),
            ) == Some(TargetPacket { time, ..before }),
    {
        reveal_with_fuel(fold_fields, 2);
        lemma_low32_of_number(target_id);
        let f1 = number_field(1, target_id);
        let f5 = double_field(5, time);
        assert(f1.len() > 0 ==> f1.skip(1) =~= Seq::<FieldView>::empty());
        assert(f5.len() > 0 ==> f5.skip(1) =~= Seq::<FieldView>::empty());
    }

    /// Merging the fields of a canonical target packet into the empty packet
    /// gives the packet, which so reads back from its bytes.
    pub proof fn lemma_fields(m: TargetPacket)
        requires
            Self::canonical(m),
        ensures
            valid_fields(Self::fields(m)),
            fold_fields(Self::empty(), Self::fields(m), step_of::<TargetPacket>()) == Some(m),
            message_bytes::<TargetPacket>(m).len() <= 400,
            parse_message::<TargetPacket>(message_bytes::<TargetPacket>(m)) == Some(m),
    {
        Self::lemma_fields_valid(m);
        let step = step_of::<TargetPacket>();
        let f1 = number_field(1, m.target_id);
        let f2 = message_field(2, lla_body(m.lla));
        let f3 = message_field(3, ned_body(m.ned));
        let f4 = message_field(4, ned_body(m.ned_velocity));
        let f5 = double_field(5, m.time);
        let f6 = message_field(6, lla_body(m.origin));
        let m0 = Self::empty();
        let m1 = TargetPacket { target_id: m.target_id, ..m0 };
        let m2 = TargetPacket { lla: m.lla, ..m1 };
        let m3 = TargetPacket { ned: m.ned, ..m2 };
        let m4 = TargetPacket { ned_velocity: m.ned_velocity, ..m3 };
        let m5 = TargetPacket { time: m.time, ..m4 };
        Self::lemma_fold_scalars(m0, m.target_id, m.time);
        Self::lemma_fold_position(m1, 2, m.lla);
        Self::lemma_fold_vector(m2, 3, m.ned);
        Self::lemma_fold_vector(m3, 4, m.ned_velocity);
        Self::lemma_fold_scalars(m4, m.target_id, m.time);
        Self::lemma_fold_position(m5, 6, m.origin);
        assert(TargetPacket { origin: m.origin, ..m5 } == m);
        lemma_fold_concat(m0, f1, f2, step);
        lemma_fold_concat(m0, f1 + f2, f3, step);
        lemma_fold_concat(m0, f1 + f2 + f3, f4, step);
        lemma_fold_concat(m0, f1 + f2 + f3 + f4, f5, step);
        lemma_fold_concat(m0, f1 + f2 + f3 + f4 + f5, f6, step);
        lemma_merge_body_of_fields(m0, Self::fields(m), step);
    }
}

} // verus!
