//! The packet: one message out of eleven kinds, and lists of target packets.
//!
//! Field numbers follow the order in which the schema names the kinds and
//! their parts. Six kinds are carried as the bytes of their message, which
//! the router forwards without reading.

use crate::messages::{
    PacketChecksum, PacketChecksumView, PacketHeader, PacketPayload, PacketPayloadView,
};
use crate::schema::{
    decode_message, encode_message, fold_fields, lemma_merge_body_of_fields, merge_from,
    merge_message, message_bytes, parse_message, put_message, step_of, valid_fields, WireMessage,
};
use crate::target::TargetPacket;
use crate::varint::WireError;
use crate::wire::{
    field_bytes, fields_bytes, lemma_fields_bytes_concat, valid_field, Field, FieldView, WireValue,
    WireValueView,
};
use vstd::prelude::*;

verus! {

/// An ordered sequence of target packets.
#[derive(Debug, Clone, PartialEq, Eq)]
pub struct TargetPacketList {
    pub packets: Vec<TargetPacket>,
}

impl View for TargetPacketList {
    type V = Seq<TargetPacket>;

    open spec fn view(&self) -> Seq<TargetPacket> {
        self.packets@
    }
}

/// The field that holds one packet of a list.
pub open spec fn list_item(packet: TargetPacket) -> FieldView {
    FieldView { tag: 1, value: WireValueView::Bytes(message_bytes::<TargetPacket>(packet)) }
}

impl WireMessage for TargetPacketList {
    open spec fn empty() -> Seq<TargetPacket> {
        Seq::empty()
    }

    open spec fn fields(m: Seq<TargetPacket>) -> Seq<FieldView> {
        Seq::new(m.len(), |i: int| list_item(m[i]))
    }

    /// Field one must be a byte string that holds a target packet, which is
    /// added at the end of the list.
    open spec fn step(m: Seq<TargetPacket>, field: FieldView) -> Option<Seq<TargetPacket>> {
        if field.tag == 1 {
            match field.value {
                WireValueView::Bytes(b) => match parse_message::<TargetPacket>(b) {
                    Some(packet) => Some(m.push(packet)),
                    None => None,
                },
                _ => None,
            }
        } else {
            Some(m)
        }
    }

    fn new() -> (r: TargetPacketList) {
        TargetPacketList { packets: Vec::new() }
    }

    fn encode_into(&self, buf: &mut Vec<u8>) {
        let ghost all = Self::fields(self@);
        let mut i: usize = 0;
        assert(all.take(0) =~= Seq::<FieldView>::empty());
        assert(buf@ =~= old(buf)@ + fields_bytes(all.take(0)));
        while i < self.packets.len()
            invariant
                i <= self.packets.len(),
                all == Self::fields(self@),
                buf@ == old(buf)@ + fields_bytes(all.take(i as int)),
            decreases self.packets.len() - i,
        {
            let body = encode_message(&self.packets[i]);
            let ghost before = buf@;
            put_message(1, body.as_slice(), buf);
            proof {
                reveal_with_fuel(fields_bytes, 2);
                let one = seq![all[i as int]];
                assert(one.skip(1) =~= Seq::<FieldView>::empty());
                assert(fields_bytes(one) =~= field_bytes(all[i as int]));
                assert(all.take(i + 1) =~= all.take(i as int) + one);
                lemma_fields_bytes_concat(all.take(i as int), one);
                assert(buf@ =~= old(buf)@ + fields_bytes(all.take(i + 1)));
            }
            i = i + 1;
        }
        assert(all.take(i as int) =~= all);
    }

    fn merge_field(self, field: &Field) -> (r: Result<TargetPacketList, WireError>) {
        let mut m = self;
        if field.tag == 1 {
            match &field.value {
                WireValue::Bytes(b) => match decode_message::<TargetPacket>(b.as_slice()) {
                    Ok(packet) => {
                        m.packets.push(packet);
                        Ok(m)
                    },
                    Err(e) => Err(e),
                },
                _ => Err(WireError),
            }
        } else {
            Ok(m)
        }
    }
}

impl TargetPacketList {
    /// Holds where every packet of the list is canonical.
    pub open spec fn canonical(m: Seq<TargetPacket>) -> bool {
        forall|i: int| 0 <= i < m.len() ==> TargetPacket::canonical(#[trigger] m[i])
    }

    /// Merging the fields of the packets from `count` on into the first
    /// `count` packets gives the list.
    proof fn lemma_fold_from(m: Seq<TargetPacket>, count: int)
        requires
            Self::canonical(m),
            0 <= count <= m.len(),
        ensures
            fold_fields(m.take(count), Self::fields(m).skip(count), step_of::<TargetPacketList>())
                == Some(m),
        decreases m.len() - count,
    {
        let rest = Self::fields(m).skip(count);
        if count == m.len() {
            assert(m.take(count) =~= m);
        } else {
            TargetPacket::lemma_fields(m[count]);
            assert(rest[0] == list_item(m[count]));
            assert(m.take(count).push(m[count]) =~= m.take(count + 1));
            assert(rest.skip(1) =~= Self::fields(m).skip(count + 1));
            Self::lemma_fold_from(m, count + 1);
        }
    }

    /// The fields of a canonical list can be written, and merging them into
    /// the empty list gives the list, which so reads back from its bytes.
    pub proof fn lemma_fields(m: Seq<TargetPacket>)
        requires
            Self::canonical(m),
        ensures
            valid_fields(Self::fields(m)),
            fold_fields(Self::empty(), Self::fields(m), step_of::<TargetPacketList>()) == Some(m),
            parse_message::<TargetPacketList>(message_bytes::<TargetPacketList>(m)) == Some(m),
    {
        assert forall|i: int| 0 <= i < Self::fields(m).len() implies valid_field(
            #[trigger] Self::fields(m)[i],
        ) by {
            TargetPacket::lemma_fields(m[i]);
        }
        Self::lemma_fold_from(m, 0);
        assert(m.take(0) =~= Seq::<TargetPacket>::empty());
        assert(Self::fields(m).skip(0) =~= Self::fields(m));
        lemma_merge_body_of_fields(Self::empty(), Self::fields(m), step_of::<TargetPacketList>());
    }
}

/// What a packet carries.
#[derive(Debug, Clone, PartialEq, Eq)]
pub enum Kind {
    Header(PacketHeader),
    Payload(PacketPayload),
    Checksum(PacketChecksum),
    Timestamp(Vec<u8>),
    Source(Vec<u8>),
    Destination(Vec<u8>),
    Protocol(Vec<u8>),
    Flags(Vec<u8>),
    Version(Vec<u8>),
    TargetPacket(TargetPacket),
    TargetPacketList(TargetPacketList),
}

/// A message of the protocol: at most one kind.
#[derive(Debug, Clone, PartialEq, Eq)]
pub struct Packet {
    pub kind: Option<Kind>,
}

/// Mathematical form of a [`Kind`].
pub ghost enum KindView {
    Header(PacketHeader),
    Payload(PacketPayloadView),
    Checksum(PacketChecksumView),
    Timestamp(Seq<u8>),
    Source(Seq<u8>),
    Destination(Seq<u8>),
    Protocol(Seq<u8>),
    Flags(Seq<u8>),
    Version(Seq<u8>),
    TargetPacket(TargetPacket),
    TargetPacketList(Seq<TargetPacket>),
}

/// Mathematical form of a [`Packet`].
pub ghost struct PacketView {
    pub kind: Option<KindView>,
}

impl View for Kind {
    type V = KindView;

    open spec fn view(&self) -> KindView {
        match *self {
            Kind::Header(m) => KindView::Header(m),
            Kind::Payload(m) => KindView::Payload(m@),
            Kind::Checksum(m) => KindView::Checksum(m@),
            Kind::Timestamp(b) => KindView::Timestamp(b@),
            Kind::Source(b) => KindView::Source(b@),
            Kind::Destination(b) => KindView::Destination(b@),
            Kind::Protocol(b) => KindView::Protocol(b@),
            Kind::Flags(b) => KindView::Flags(b@),
            Kind::Version(b) => KindView::Version(b@),
            Kind::TargetPacket(m) => KindView::TargetPacket(m),
            Kind::TargetPacketList(m) => KindView::TargetPacketList(m@),
        }
    }
}

impl View for Packet {
    type V = PacketView;

    open spec fn view(&self) -> PacketView {
        PacketView {
            kind: match self.kind {
                Some(kind) => Some(kind@),
                None => None,
            },
        }
    }
}

impl KindView {
    /// The field number of the kind.
    pub open spec fn tag(self) -> u32 {
        match self {
            KindView::Header(_) => 1,
            KindView::Payload(_) => 2,
            KindView::Checksum(_) => 3,
            KindView::Timestamp(_) => 4,
            KindView::Source(_) => 5,
            KindView::Destination(_) => 6,
            KindView::Protocol(_) => 7,
            KindView::Flags(_) => 8,
            KindView::Version(_) => 9,
            KindView::TargetPacket(_) => 10,
            KindView::TargetPacketList(_) => 11,
        }
    }

    /// The bytes of the message that the kind carries.
    pub open spec fn body(self) -> Seq<u8> {
        match self {
            KindView::Header(m) => message_bytes::<PacketHeader>(m),
            KindView::Payload(m) => message_bytes::<PacketPayload>(m),
            KindView::Checksum(m) => message_bytes::<PacketChecksum>(m),
            KindView::Timestamp(b) => b,
            KindView::Source(b) => b,
            KindView::Destination(b) => b,
            KindView::Protocol(b) => b,
            KindView::Flags(b) => b,
            KindView::Version(b) => b,
            KindView::TargetPacket(m) => message_bytes::<TargetPacket>(m),
            KindView::TargetPacketList(m) => message_bytes::<TargetPacketList>(m),
        }
    }

    /// Holds of the kinds that read back from their bytes as they are: no
    /// double is negative zero, and the message takes a number of bytes
    /// that fits 64 bits.
    pub open spec fn canonical(self) -> bool {
        &&& self.body().len() <= u64::MAX
        &&& match self {
            KindView::Payload(m) => PacketPayload::canonical(m),
            KindView::Checksum(m) => PacketChecksum::canonical(m),
            KindView::TargetPacket(m) => TargetPacket::canonical(m),
            KindView::TargetPacketList(m) => TargetPacketList::canonical(m),
            _ => true,
        }
    }
}

/// The header that a header field is merged into.
pub open spec fn header_before(kind: Option<KindView>) -> PacketHeader {
    match kind {
        Some(KindView::Header(m)) => m,
        _ => PacketHeader::empty(),
    }
}

/// The payload that a payload field is merged into.
pub open spec fn payload_before(kind: Option<KindView>) -> PacketPayloadView {
    match kind {
        Some(KindView::Payload(m)) => m,
        _ => PacketPayload::empty(),
    }
}

/// The checksum that a checksum field is merged into.
pub open spec fn checksum_before(kind: Option<KindView>) -> PacketChecksumView {
    match kind {
        Some(KindView::Checksum(m)) => m,
        _ => PacketChecksum::empty(),
    }
}

/// The target packet that a target packet field is merged into.
pub open spec fn target_before(kind: Option<KindView>) -> TargetPacket {
    match kind {
        Some(KindView::TargetPacket(m)) => m,
        _ => TargetPacket::empty(),
    }
}

/// The list that a list field is merged into.
pub open spec fn list_before(kind: Option<KindView>) -> Seq<TargetPacket> {
    match kind {
        Some(KindView::TargetPacketList(m)) => m,
        _ => Seq::empty(),
    }
}

/// The bytes that a field of one of the six forwarded kinds is joined to:
/// those of the same kind, if the packet holds it.
pub open spec fn forwarded_before(kind: Option<KindView>, tag: u32) -> Seq<u8> {
    match kind {
        Some(KindView::Timestamp(b)) => if tag == 4 {
            b
        } else {
            Seq::empty()
        },
        Some(KindView::Source(b)) => if tag == 5 {
            b
        } else {
            Seq::empty()
        },
        Some(KindView::Destination(b)) => if tag == 6 {
            b
        } else {
            Seq::empty()
        },
        Some(KindView::Protocol(b)) => if tag == 7 {
            b
        } else {
            Seq::empty()
        },
        Some(KindView::Flags(b)) => if tag == 8 {
            b
        } else {
            Seq::empty()
        },
        Some(KindView::Version(b)) => if tag == 9 {
            b
        } else {
            Seq::empty()
        },
        _ => Seq::empty(),
    }
}

/// The forwarded kind of field number `tag`, four to nine, with `body`.
pub open spec fn forwarded_kind(tag: u32, body: Seq<u8>) -> KindView {
    if tag == 4 {
        KindView::Timestamp(body)
    } else if tag == 5 {
        KindView::Source(body)
    } else if tag == 6 {
        KindView::Destination(body)
    } else if tag == 7 {
        KindView::Protocol(body)
    } else if tag == 8 {
        KindView::Flags(body)
    } else {
        KindView::Version(body)
    }
}

/// The kind of a packet after the field `tag`, one to eleven, with the byte
/// string `body`: the message is merged into the one of the same kind, if
/// the packet holds it, and replaces any other.
pub open spec fn merge_kind(kind: Option<KindView>, tag: u32, body: Seq<u8>) -> Option<KindView> {
    if tag == 1 {
        match merge_message::<PacketHeader>(header_before(kind), body) {
            Some(m) => Some(KindView::Header(m)),
            None => None,
        }
    } else if tag == 2 {
        match merge_message::<PacketPayload>(payload_before(kind), body) {
            Some(m) => Some(KindView::Payload(m)),
            None => None,
        }
    } else if tag == 3 {
        match merge_message::<PacketChecksum>(checksum_before(kind), body) {
            Some(m) => Some(KindView::Checksum(m)),
            None => None,
        }
    } else if tag == 10 {
        match merge_message::<TargetPacket>(target_before(kind), body) {
            Some(m) => Some(KindView::TargetPacket(m)),
            None => None,
        }
    } else if tag == 11 {
        match merge_message::<TargetPacketList>(list_before(kind), body) {
            Some(m) => Some(KindView::TargetPacketList(m)),
            None => None,
        }
    } else {
        Some(forwarded_kind(tag, forwarded_before(kind, tag) + body))
    }
}

impl WireMessage for Packet {
    open spec fn empty() -> PacketView {
        PacketView { kind: None }
    }

    open spec fn fields(m: PacketView) -> Seq<FieldView> {
        match m.kind {
            Some(kind) => seq![FieldView { tag: kind.tag(), value: WireValueView::Bytes(kind.body()) }],
            None => Seq::empty(),
        }
    }

    /// Fields one to eleven must be byte strings and give the packet its
    /// kind.
    open spec fn step(m: PacketView, field: FieldView) -> Option<PacketView> {
        if 1 <= field.tag <= 11 {
            match field.value {
                WireValueView::Bytes(b) => match merge_kind(m.kind, field.tag, b) {
                    Some(kind) => Some(PacketView { kind: Some(kind) }),
                    None => None,
                },
                _ => None,
            }
        } else {
            Some(m)
        }
    }

    fn new() -> (r: Packet) {
        Packet { kind: None }
    }

    fn encode_into(&self, buf: &mut Vec<u8>) {
        proof {
            reveal_with_fuel(fields_bytes, 2);
        }
        match &self.kind {
            None => {
                assert(buf@ =~= old(buf)@ + fields_bytes(Self::fields(self@)));
            },
            Some(kind) => {
                assert(Self::fields(self@).skip(1) =~= Seq::<FieldView>::empty());
                match kind {
                    Kind::Header(m) => {
                        let body = encode_message(m);
                        put_message(1, body.as_slice(), buf);
                    },
                    Kind::Payload(m) => {
                        let body = encode_message(m);
                        put_message(2, body.as_slice(), buf);
                    },
                    Kind::Checksum(m) => {
                        let body = encode_message(m);
                        put_message(3, body.as_slice(), buf);
                    },
                    Kind::Timestamp(b) => {
                        put_message(4, b.as_slice(), buf);
                    },
                    Kind::Source(b) => {
                        put_message(5, b.as_slice(), buf);
                    },
                    Kind::Destination(b) => {
                        put_message(6, b.as_slice(), buf);
                    },
                    Kind::Protocol(b) => {
                        put_message(7, b.as_slice(), buf);
                    },
                    Kind::Flags(b) => {
                        put_message(8, b.as_slice(), buf);
                    },
                    Kind::Version(b) => {
                        put_message(9, b.as_slice(), buf);
                    },
                    Kind::TargetPacket(m) => {
                        let body = encode_message(m);
                        put_message(10, body.as_slice(), buf);
                    },
                    Kind::TargetPacketList(m) => {
                        let body = encode_message(m);
                        put_message(11, body.as_slice(), buf);
                    },
                }
            },
        }
    }

    fn merge_field(self, field: &Field) -> (r: Result<Packet, WireError>) {
        if 1 <= field.tag && field.tag <= 11 {
            match &field.value {
                WireValue::Bytes(b) => match merge_kind_from(self.kind, field.tag, b.as_slice()) {
                    Ok(kind) => Ok(Packet { kind: Some(kind) }),
                    Err(e) => Err(e),
                },
                _ => Err(WireError),
            }
        } else {
            Ok(self)
        }
    }
}

/// The view of an optional kind.
pub open spec fn kind_view(kind: Option<Kind>) -> Option<KindView> {
    match kind {
        Some(kind) => Some(kind@),
        None => None,
    }
}

/// Joins `body` to the bytes of the forwarded kind `tag`, if `kind` is it.
fn forward(kind: Option<Kind>, tag: u32, body: &[u8]) -> (r: Kind)
    requires
        4 <= tag <= 9,
    ensures
        r@ == forwarded_kind(tag, forwarded_before(kind_view(kind), tag) + body@),
{
    let mut bytes: Vec<u8> = match kind {
        Some(Kind::Timestamp(b)) => if tag == 4 {
            b
        } else {
            Vec::new()
        },
        Some(Kind::Source(b)) => if tag == 5 {
            b
        } else {
            Vec::new()
        },
        Some(Kind::Destination(b)) => if tag == 6 {
            b
        } else {
            Vec::new()
        },
        Some(Kind::Protocol(b)) => if tag == 7 {
            b
        } else {
            Vec::new()
        },
        Some(Kind::Flags(b)) => if tag == 8 {
            b
        } else {
            Vec::new()
        },
        Some(Kind::Version(b)) => if tag == 9 {
            b
        } else {
            Vec::new()
        },
        _ => Vec::new(),
    };
    assert(bytes@ =~= forwarded_before(kind_view(kind), tag));
    bytes.extend_from_slice(body);
    assert(bytes@ =~= forwarded_before(kind_view(kind), tag) + body@);
    if tag == 4 {
        Kind::Timestamp(bytes)
    } else if tag == 5 {
        Kind::Source(bytes)
    } else if tag == 6 {
        Kind::Destination(bytes)
    } else if tag == 7 {
        Kind::Protocol(bytes)
    } else if tag == 8 {
        Kind::Flags(bytes)
    } else {
        Kind::Version(bytes)
    }
}

/// Merges the message in `body` into the kind of a packet.
fn merge_kind_from(kind: Option<Kind>, tag: u32, body: &[u8]) -> (r: Result<Kind, WireError>)
    requires
        1 <= tag <= 11,
    ensures
        match r {
            Ok(k) => merge_kind(kind_view(kind), tag, body@) == Some(k@),
            Err(_) => merge_kind(kind_view(kind), tag, body@) is None,
        },
{
    if tag == 1 {
        let start = match kind {
            Some(Kind::Header(m)) => m,
            _ => PacketHeader::new(),
        };
        match merge_from(start, body) {
            Ok(m) => Ok(Kind::Header(m)),
            Err(e) => Err(e),
        }
    } else if tag == 2 {
        let start = match kind {
            Some(Kind::Payload(m)) => m,
            _ => PacketPayload::new(),
        };
        match merge_from(start, body) {
            Ok(m) => Ok(Kind::Payload(m)),
            Err(e) => Err(e),
        }
    } else if tag == 3 {
        let start = match kind {
            Some(Kind::Checksum(m)) => m,
            _ => PacketChecksum::new(),
        };
        match merge_from(start, body) {
            Ok(m) => Ok(Kind::Checksum(m)),
            Err(e) => Err(e),
        }
    } else if tag == 10 {
        let start = match kind {
            Some(Kind::TargetPacket(m)) => m,
            _ => TargetPacket::new(),
        };
        match merge_from(start, body) {
            Ok(m) => Ok(Kind::TargetPacket(m)),
            Err(e) => Err(e),
        }
    } else if tag == 11 {
        let start = match kind {
            Some(Kind::TargetPacketList(m)) => m,
            _ => TargetPacketList::new(),
        };
        match merge_from(start, body) {
            Ok(m) => Ok(Kind::TargetPacketList(m)),
            Err(e) => Err(e),
        }
    } else {
        Ok(forward(kind, tag, body))
    }
}

impl PacketView {
    /// The bytes of the packet.
    pub open spec fn bytes(self) -> Seq<u8> {
        message_bytes::<Packet>(self)
    }

    /// Holds of the packets that read back from their bytes as they are.
    pub open spec fn canonical(self) -> bool {
        self.kind matches Some(kind) ==> kind.canonical()
    }
}

/// The packet that `bytes` holds, if they are the bytes of one.
pub open spec fn parse_packet(bytes: Seq<u8>) -> Option<PacketView> {
    parse_message::<Packet>(bytes)
}

/// A canonical packet reads back from its bytes.
pub proof fn lemma_packet_round_trip(packet: PacketView)
    requires
        packet.canonical(),
    ensures
        parse_packet(packet.bytes()) == Some(packet),
{
    reveal_with_fuel(fold_fields, 2);
    let fields = Packet::fields(packet);
    let step = step_of::<Packet>();
    match packet.kind {
        None => {},
        Some(kind) => {
            assert(fields.skip(1) =~= Seq::<FieldView>::empty());
            assert(valid_field(fields[0]));
            match kind {
                KindView::Header(m) => {
                    PacketHeader::lemma_fields(m);
                    lemma_merge_body_of_fields(
                        PacketHeader::empty(),
                        PacketHeader::fields(m),
                        step_of::<PacketHeader>(),
                    );
                },
                KindView::Payload(m) => {
                    PacketPayload::lemma_fields(m);
                    lemma_merge_body_of_fields(
                        PacketPayload::empty(),
                        PacketPayload::fields(m),
                        step_of::<PacketPayload>(),
                    );
                },
                KindView::Checksum(m) => {
                    PacketChecksum::lemma_fields(m);
                    lemma_merge_body_of_fields(
                        PacketChecksum::empty(),
                        PacketChecksum::fields(m),
                        step_of::<PacketChecksum>(),
                    );
                },
                KindView::TargetPacket(m) => {
                    TargetPacket::lemma_fields(m);
                },
                KindView::TargetPacketList(m) => {
                    TargetPacketList::lemma_fields(m);
                },
                KindView::Timestamp(b) => {
                    assert(Seq::<u8>::empty() + b =~= b);
                },
                KindView::Source(b) => {
                    assert(Seq::<u8>::empty() + b =~= b);
                },
                KindView::Destination(b) => {
                    assert(Seq::<u8>::empty() + b =~= b);
                },
                KindView::Protocol(b) => {
                    assert(Seq::<u8>::empty() + b =~= b);
                },
                KindView::Flags(b) => {
                    assert(Seq::<u8>::empty() + b =~= b);
                },
                KindView::Version(b) => {
                    assert(Seq::<u8>::empty() + b =~= b);
                },
            }
            assert(step(Packet::empty(), fields[0]) == Some(packet));
        },
    }
    lemma_merge_body_of_fields(Packet::empty(), fields, step);
}

impl Packet {
    /// The bytes of the packet in the wire format.
    pub fn encode(&self) -> (r: Vec<u8>)
        ensures
            r@ == self@.bytes(),
    {
        encode_message(self)
    }

    /// The number of bytes that the packet takes in the wire format.
    pub fn encoded_len(&self) -> (r: usize)
        ensures
            r == self@.bytes().len(),
    {
        encode_message(self).len()
    }

    /// Reads a packet from `data`. Fails exactly where `data` is not the
    /// wire format of a packet.
    pub fn decode(data: &[u8]) -> (r: Result<Packet, WireError>)
        ensures
            match r {
                Ok(packet) => parse_packet(data@) == Some(packet@),
                Err(_) => parse_packet(data@) is None,
            },
    {
        decode_message(data)
    }
}

} // verus!
