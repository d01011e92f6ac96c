use packet_router::frame::{
    decode_frame, encode_frame, frame, has_delimiter, strip, FrameError, DELIMITER, DELIMITER_LEN,
};
use packet_router::messages::{PacketChecksum, PacketHeader, PacketPayload};
use packet_router::packet::{Kind, Packet, TargetPacketList};
use packet_router::schema::Double;
use packet_router::target::{Lla, Ned, TargetPacket};
use packet_router::varint::{decode_varint, encode_varint, WireError};
use packet_router::wire::{
    decode_key, put_key, read_field, read_fields, skip_group, Field, WireValue,
};

fn d(value: f64) -> Double {
    Double { bits: value.to_bits() }
}

fn header() -> PacketHeader {
    PacketHeader { id: 42, length: 10, checksum: 1234, version: 1, flags: 0 }
}

fn target(id: u32, time: f64) -> TargetPacket {
    TargetPacket {
        target_id: id,
        lla: Some(Lla { lat: d(14.75), lon: d(42.96), alt: d(30.0) }),
        ned: Some(Ned { north: d(1.5), east: d(-2.5), down: d(0.0) }),
        ned_velocity: Some(Ned { north: d(0.0), east: d(0.0), down: d(0.0) }),
        time: d(time),
        origin: None,
    }
}

#[test]
fn header_frame_round_trip() {
    let packet = Packet { kind: Some(Kind::Header(header())) };
    let framed = encode_frame(&packet);
    assert_eq!(
        framed,
        vec![0x0a, 0x09, 0x08, 42, 0x10, 10, 0x18, 0xd2, 0x09, 0x20, 1, 0xef, 0xbe, 0xad, 0xde]
    );
    assert_eq!(decode_frame(&framed), Ok(packet));
}

#[test]
fn delimiter_is_the_number_least_significant_byte_first() {
    assert_eq!(DELIMITER.to_le_bytes(), [0xef, 0xbe, 0xad, 0xde]);
    assert_eq!(DELIMITER_LEN, 4);
    assert_eq!(frame(&[1, 2]), vec![1, 2, 0xef, 0xbe, 0xad, 0xde]);
    assert_eq!(frame(&[]), vec![0xef, 0xbe, 0xad, 0xde]);
}

#[test]
fn varint_bytes_of_small_and_large_values() {
    let mut buf = vec![9u8];
    encode_varint(0, &mut buf);
    assert_eq!(buf, vec![9, 0]);
    let mut buf = Vec::new();
    encode_varint(300, &mut buf);
    assert_eq!(buf, vec![0xac, 0x02]);
    let mut buf = Vec::new();
    encode_varint(u64::MAX, &mut buf);
    assert_eq!(buf, vec![0xff, 0xff, 0xff, 0xff, 0xff, 0xff, 0xff, 0xff, 0xff, 0x01]);
}

#[test]
fn varint_reads_value_and_length() {
    assert_eq!(decode_varint(&[0xac, 0x02, 0x07]), Ok((300, 2)));
    assert_eq!(decode_varint(&[0x00]), Ok((0, 1)));
    assert_eq!(decode_varint(&[0x80, 0x00]), Ok((0, 2)));
    assert_eq!(
        decode_varint(&[0xff, 0xff, 0xff, 0xff, 0xff, 0xff, 0xff, 0xff, 0xff, 0x01, 0x55]),
        Ok((u64::MAX, 10))
    );
}

#[test]
fn varint_refuses_what_is_cut_or_too_long() {
    assert_eq!(decode_varint(&[]), Err(WireError));
    assert_eq!(decode_varint(&[0x80]), Err(WireError));
    assert_eq!(decode_varint(&[0xff, 0xff]), Err(WireError));
    assert_eq!(
        decode_varint(&[0xff, 0xff, 0xff, 0xff, 0xff, 0xff, 0xff, 0xff, 0xff, 0x02]),
        Err(WireError)
    );
    assert_eq!(
        decode_varint(&[0x80, 0x80, 0x80, 0x80, 0x80, 0x80, 0x80, 0x80, 0x80, 0x80, 0x00]),
        Err(WireError)
    );
}

#[test]
fn fields_of_every_wire_type() {
    let bytes = vec![
        0x08, 0x96, 0x01, // field 1, varint 150
        0x11, 1, 2, 3, 4, 5, 6, 7, 8, // field 2, eight bytes
        0x1a, 0x03, b'a', b'b', b'c', // field 3, three bytes
        0x25, 0x78, 0x56, 0x34, 0x12, // field 4, four bytes
    ];
    let fields = read_fields(&bytes).unwrap();
    assert_eq!(
        fields,
        vec![
            Field { tag: 1, value: WireValue::Varint(150) },
            Field { tag: 2, value: WireValue::Fixed64(0x0807060504030201) },
            Field { tag: 3, value: WireValue::Bytes(vec![b'a', b'b', b'c']) },
            Field { tag: 4, value: WireValue::Fixed32(0x12345678) },
        ]
    );
    assert_eq!(
        read_field(&bytes),
        Ok((Field { tag: 1, value: WireValue::Varint(150) }, 3))
    );
    assert_eq!(read_fields(&[]), Ok(vec![]));
}

#[test]
fn fields_refuse_groups_bad_keys_and_short_values() {
    assert_eq!(read_fields(&[0x0b]), Err(WireError)); // a group without its end
    assert_eq!(read_fields(&[0x0c]), Err(WireError)); // an end without its group
    assert_eq!(read_fields(&[0x0b, 0x14]), Err(WireError)); // the end of another group
    assert_eq!(read_fields(&[0x0b, 0x08, 0x0c]), Err(WireError)); // a group whose end is read as a value
    assert_eq!(read_fields(&[0x0e]), Err(WireError)); // wire type 6
    assert_eq!(read_fields(&[0x00, 0x00]), Err(WireError)); // field number 0
    assert_eq!(read_fields(&[0x11, 1, 2, 3]), Err(WireError)); // eight bytes cut
    assert_eq!(read_fields(&[0x1a, 0x05, 1, 2]), Err(WireError)); // length past the end
    assert_eq!(read_fields(&[0x25, 1, 2, 3]), Err(WireError)); // four bytes cut
    assert_eq!(
        read_fields(&[0x80, 0x80, 0x80, 0x80, 0x10, 0x00]),
        Err(WireError)
    ); // key past 32 bits
}

#[test]
fn every_kind_reads_back_from_its_bytes() {
    let kinds = vec![
        Kind::Header(header()),
        Kind::Header(PacketHeader { id: 0, length: 0, checksum: 0, version: 0, flags: 0 }),
        Kind::Payload(PacketPayload {
            type_value: 2,
            data: vec![0, 255, 7],
            size: 3,
            encoding: "utf8 \u{00e9}\u{4e2d}".to_string(),
        }),
        Kind::Payload(PacketPayload {
            type_value: 0,
            data: vec![],
            size: 0,
            encoding: String::new(),
        }),
        Kind::Checksum(PacketChecksum { algorithm: 1, value: vec![0xde, 0xad], length: 2 }),
        Kind::Timestamp(vec![0x08, 0x01]),
        Kind::Source(vec![]),
        Kind::Destination(vec![1, 2, 3]),
        Kind::Protocol(vec![0xef, 0xbe, 0xad, 0xde]),
        Kind::Flags(vec![0xff; 200]),
        Kind::Version(vec![9]),
        Kind::TargetPacket(target(7, 12.5)),
        Kind::TargetPacket(TargetPacket {
            target_id: u32::MAX,
            lla: None,
            ned: None,
            ned_velocity: None,
            time: d(f64::NAN),
            origin: Some(Lla { lat: d(f64::INFINITY), lon: d(-1e-320), alt: d(0.0) }),
        }),
        Kind::TargetPacketList(TargetPacketList { packets: vec![] }),
        Kind::TargetPacketList(TargetPacketList {
            packets: vec![target(1, 0.0), target(2, 1.0), target(1, 2.0)],
        }),
    ];
    for kind in kinds {
        let packet = Packet { kind: Some(kind) };
        let bytes = packet.encode();
        assert_eq!(packet.encoded_len(), bytes.len());
        assert_eq!(Packet::decode(&bytes), Ok(packet.clone()));
        assert_eq!(decode_frame(&encode_frame(&packet)), Ok(packet));
    }
    let empty = Packet { kind: None };
    assert_eq!(empty.encode(), Vec::<u8>::new());
    assert_eq!(Packet::decode(&[]), Ok(empty));
}

#[test]
fn target_packet_bytes_are_exact() {
    let packet = Packet {
        kind: Some(Kind::TargetPacket(TargetPacket {
            target_id: 7,
            lla: Some(Lla { lat: d(1.0), lon: d(0.0), alt: d(0.0) }),
            ned: None,
            ned_velocity: None,
            time: d(2.0),
            origin: Some(Lla { lat: d(0.0), lon: d(0.0), alt: d(0.0) }),
        })),
    };
    assert_eq!(
        packet.encode(),
        vec![
            0x52, 24, // field 10, 24 bytes
            0x08, 7, // target 7
            0x12, 9, 0x09, 0, 0, 0, 0, 0, 0, 0xf0, 0x3f, // position with latitude 1
            0x29, 0, 0, 0, 0, 0, 0, 0, 0x40, // time 2
            0x32, 0, // an origin with every coordinate zero
        ]
    );
}

#[test]
fn negative_zero_reads_back_as_zero() {
    let packet = Packet {
        kind: Some(Kind::TargetPacket(TargetPacket {
            target_id: 1,
            lla: None,
            ned: None,
            ned_velocity: None,
            time: d(-0.0),
            origin: None,
        })),
    };
    let bytes = packet.encode();
    assert_eq!(bytes, vec![0x52, 2, 0x08, 1]);
    let back = Packet::decode(&bytes).unwrap();
    match back.kind {
        Some(Kind::TargetPacket(t)) => assert_eq!(t.time.bits, 0),
        other => panic!("unexpected kind {:?}", other),
    }
}

#[test]
fn later_fields_replace_and_merge() {
    // the same header field twice: the later one stays
    let bytes = vec![0x0a, 0x04, 0x08, 1, 0x08, 2];
    assert_eq!(
        Packet::decode(&bytes),
        Ok(Packet {
            kind: Some(Kind::Header(PacketHeader {
                id: 2,
                length: 0,
                checksum: 0,
                version: 0,
                flags: 0
            }))
        })
    );
    // the same kind twice: the messages are merged
    let bytes = vec![0x0a, 0x02, 0x08, 1, 0x0a, 0x02, 0x10, 5];
    assert_eq!(
        Packet::decode(&bytes),
        Ok(Packet {
            kind: Some(Kind::Header(PacketHeader {
                id: 1,
                length: 5,
                checksum: 0,
                version: 0,
                flags: 0
            }))
        })
    );
    // another kind: it replaces the earlier one
    let bytes = vec![0x0a, 0x02, 0x08, 1, 0x4a, 0x01, 9];
    assert_eq!(Packet::decode(&bytes), Ok(Packet { kind: Some(Kind::Version(vec![9])) }));
    // a forwarded kind twice: the bytes are joined
    let bytes = vec![0x22, 0x01, 1, 0x22, 0x02, 2, 3];
    assert_eq!(
        Packet::decode(&bytes),
        Ok(Packet { kind: Some(Kind::Timestamp(vec![1, 2, 3])) })
    );
    // a list: later packets are added
    let one = Packet {
        kind: Some(Kind::TargetPacketList(TargetPacketList { packets: vec![target(1, 1.0)] })),
    };
    let two = Packet {
        kind: Some(Kind::TargetPacketList(TargetPacketList { packets: vec![target(2, 2.0)] })),
    };
    let mut joined = one.encode();
    joined.extend_from_slice(&two.encode());
    assert_eq!(
        Packet::decode(&joined),
        Ok(Packet {
            kind: Some(Kind::TargetPacketList(TargetPacketList {
                packets: vec![target(1, 1.0), target(2, 2.0)]
            }))
        })
    );
}

#[test]
fn keys_hold_the_field_number_above_the_wire_type() {
    let mut buf = vec![0xaa];
    put_key(1, 2, &mut buf);
    put_key(16, 0, &mut buf);
    put_key(0x1fff_ffff, 5, &mut buf);
    assert_eq!(buf, vec![0xaa, 0x0a, 0x80, 0x01, 0xfd, 0xff, 0xff, 0xff, 0x0f]);
    assert_eq!(decode_key(&buf[1..]), Ok((1, 2, 1)));
    assert_eq!(decode_key(&buf[2..]), Ok((16, 0, 2)));
    assert_eq!(decode_key(&buf[4..]), Ok((0x1fff_ffff, 5, 5)));
    assert_eq!(decode_key(&[]), Err(WireError));
    assert_eq!(decode_key(&[0x06]), Err(WireError)); // wire type 6
    assert_eq!(decode_key(&[0x07]), Err(WireError)); // wire type 7
    assert_eq!(decode_key(&[0x05]), Err(WireError)); // field number 0
}

#[test]
fn groups_are_read_over_as_a_whole() {
    // field 1 as a group that holds a varint and a byte string
    let data = [0x0b, 0x08, 0x96, 0x01, 0x12, 0x02, b'h', b'i', 0x0c, 0x10, 0x07];
    assert_eq!(decode_key(&data), Ok((1, 3, 1)));
    assert_eq!(skip_group(1, &data[1..]), Ok(8));
    assert_eq!(skip_group(2, &data[1..]), Err(WireError));
    assert_eq!(
        read_fields(&data),
        Ok(vec![
            Field { tag: 1, value: WireValue::Group },
            Field { tag: 2, value: WireValue::Varint(7) },
        ])
    );
    // a group in a group
    assert_eq!(skip_group(5, &[0x1b, 0x08, 0x01, 0x1c, 0x2c, 0xff]), Ok(5));
    // an empty group
    assert_eq!(read_field(&[0x7b, 0x7c]), Ok((Field { tag: 15, value: WireValue::Group }, 2)));
}

#[test]
fn a_group_in_an_unknown_field_is_passed_over() {
    // field 15 is no kind of packet
    assert_eq!(Packet::decode(&[0x7b, 0x08, 0x01, 0x7c]), Ok(Packet { kind: None }));
    // field 9 of a header is unknown to it
    assert_eq!(
        Packet::decode(&[0x0a, 0x06, 0x4b, 0x08, 0x05, 0x4c, 0x08, 3]),
        Ok(Packet {
            kind: Some(Kind::Header(PacketHeader {
                id: 3,
                length: 0,
                checksum: 0,
                version: 0,
                flags: 0
            }))
        })
    );
    // a group whose end is that of another field
    assert_eq!(Packet::decode(&[0x7b, 0x08, 0x01, 0x74]), Err(WireError));
    // a group in a field that the message knows
    assert_eq!(Packet::decode(&[0x0b, 0x0c]), Err(WireError));
    assert_eq!(Packet::decode(&[0x0a, 0x02, 0x0b, 0x0c]), Err(WireError));
}

#[test]
fn unknown_fields_are_passed_over_and_wrong_shapes_refused() {
    // field 15 is no kind of packet
    assert_eq!(Packet::decode(&[0x78, 0x05]), Ok(Packet { kind: None }));
    // field 9 of a header is unknown to it
    assert_eq!(
        Packet::decode(&[0x0a, 0x04, 0x48, 0x01, 0x08, 3]),
        Ok(Packet {
            kind: Some(Kind::Header(PacketHeader {
                id: 3,
                length: 0,
                checksum: 0,
                version: 0,
                flags: 0
            }))
        })
    );
    // a kind that is not a byte string
    assert_eq!(Packet::decode(&[0x08, 0x01]), Err(WireError));
    // a header number that is eight bytes
    assert_eq!(
        Packet::decode(&[0x0a, 0x09, 0x09, 0, 0, 0, 0, 0, 0, 0, 0]),
        Err(WireError)
    );
    // a header that is cut
    assert_eq!(Packet::decode(&[0x0a, 0x02, 0x08]), Err(WireError));
    // an encoding that is not UTF-8
    assert_eq!(Packet::decode(&[0x12, 0x03, 0x22, 0x01, 0xff]), Err(WireError));
    // a varint past 32 bits is cut to its low 32 bits
    assert_eq!(
        Packet::decode(&[0x0a, 0x06, 0x08, 0x81, 0x80, 0x80, 0x80, 0x10]),
        Ok(Packet {
            kind: Some(Kind::Header(PacketHeader {
                id: 1,
                length: 0,
                checksum: 0,
                version: 0,
                flags: 0
            }))
        })
    );
}

#[test]
fn frames_without_delimiter_or_packet_are_refused() {
    assert_eq!(decode_frame(&[]), Err(FrameError::MissingDelimiter));
    assert_eq!(decode_frame(&[0xbe, 0xad, 0xde]), Err(FrameError::MissingDelimiter));
    assert_eq!(
        decode_frame(&[0x0a, 0x00, 0xef, 0xbe, 0xad, 0xdf]),
        Err(FrameError::MissingDelimiter)
    );
    assert_eq!(
        decode_frame(&[0x08, 0x01, 0xef, 0xbe, 0xad, 0xde]),
        Err(FrameError::Malformed)
    );
    assert_eq!(decode_frame(&[0xef, 0xbe, 0xad, 0xde]), Ok(Packet { kind: None }));
}

#[test]
fn delimiter_is_found_at_the_end_only() {
    assert!(has_delimiter(&[0xef, 0xbe, 0xad, 0xde]));
    assert!(has_delimiter(&[1, 0xef, 0xbe, 0xad, 0xde]));
    assert!(!has_delimiter(&[0xef, 0xbe, 0xad, 0xde, 1]));
    assert!(!has_delimiter(&[0xef, 0xbe, 0xad]));
    assert!(!has_delimiter(&[]));
    assert_eq!(strip(&[1, 2, 0xef, 0xbe, 0xad, 0xde]), Some(&[1u8, 2][..]));
    assert_eq!(strip(&[1, 2, 0xef, 0xbe, 0xad]), None);
}
