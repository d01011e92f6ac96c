use packet_router::frame::encode_frame;
use packet_router::messages::PacketHeader;
use packet_router::packet::{Kind, Packet};
use packet_router::reader::{DecodedFrame, FrameReader, MAX_BUFFER_SIZE};
use packet_router::resync::{probe, resync, Resync, RESYNC_WINDOW};

fn header_packet(id: u32) -> Packet {
    Packet {
        kind: Some(Kind::Header(PacketHeader {
            id,
            length: 10,
            checksum: 1234,
            version: 1,
            flags: 0,
        })),
    }
}

#[test]
fn a_whole_frame_is_handed_out_and_the_buffer_emptied() {
    let packet = header_packet(42);
    let framed = encode_frame(&packet);
    let mut reader = FrameReader::new();
    let outcome = reader.push(&framed);
    assert_eq!(outcome.frames, vec![DecodedFrame { packet, raw: framed }]);
    assert!(!outcome.overflow);
    assert!(!outcome.decode_error);
    assert_eq!(reader.len(), 0);
}

#[test]
fn a_frame_cut_inside_its_delimiter_waits_for_more() {
    let packet = header_packet(7);
    let framed = encode_frame(&packet);
    for kept in 0..4 {
        let cut = framed.len() - 4 + kept;
        let mut reader = FrameReader::new();
        let outcome = reader.push(&framed[..cut]);
        assert!(outcome.frames.is_empty());
        assert!(!outcome.overflow);
        assert!(!outcome.decode_error);
        assert_eq!(reader.buffered(), &framed[..cut]);
        let outcome = reader.push(&framed[cut..]);
        assert_eq!(
            outcome.frames,
            vec![DecodedFrame { packet: packet.clone(), raw: framed.clone() }]
        );
        assert_eq!(reader.len(), 0);
    }
}

#[test]
fn fewer_bytes_than_a_delimiter_wait() {
    let mut reader = FrameReader::new();
    let outcome = reader.push(&[0xef, 0xbe, 0xad]);
    assert!(outcome.frames.is_empty());
    assert_eq!(reader.buffered(), &[0xef, 0xbe, 0xad]);
}

#[test]
fn a_buffer_past_its_limit_is_cleared_once() {
    let mut reader = FrameReader::new();
    let chunk = vec![0xffu8; 1024];
    let mut overflows = 0;
    for _ in 0..(MAX_BUFFER_SIZE / 1024) {
        let outcome = reader.push(&chunk);
        assert!(outcome.frames.is_empty());
        if outcome.overflow {
            overflows += 1;
        }
    }
    assert_eq!(overflows, 0);
    assert_eq!(reader.len(), MAX_BUFFER_SIZE);
    let outcome = reader.push(&[0xff]);
    assert!(outcome.overflow);
    assert!(outcome.frames.is_empty());
    assert!(!outcome.decode_error);
    assert_eq!(reader.len(), 0);
    let outcome = reader.push(&chunk);
    assert!(!outcome.overflow);
    assert_eq!(reader.len(), 1024);
}

#[test]
fn garbage_before_a_frame_is_dropped() {
    let packet = header_packet(9);
    let framed = encode_frame(&packet);
    let mut bytes = vec![0xff, 0xff, 0xff];
    bytes.extend_from_slice(&framed);
    let mut reader = FrameReader::new();
    let outcome = reader.push(&bytes);
    assert_eq!(outcome.frames, vec![DecodedFrame { packet, raw: framed }]);
    assert!(outcome.decode_error);
    assert!(!outcome.overflow);
    assert_eq!(reader.len(), 0);
}

#[test]
fn a_frame_that_does_not_decode_is_dropped() {
    let mut reader = FrameReader::new();
    let outcome = reader.push(&[0xff, 0xff, 0xff, 0xef, 0xbe, 0xad, 0xde]);
    assert!(outcome.frames.is_empty());
    assert!(outcome.decode_error);
    assert_eq!(reader.len(), 0);
}

#[test]
fn two_packets_before_one_delimiter() {
    let first = header_packet(1);
    let second = header_packet(2);
    let mut bytes = first.encode();
    bytes.extend_from_slice(&second.encode());
    bytes.extend_from_slice(&[0xef, 0xbe, 0xad, 0xde]);
    let mut reader = FrameReader::new();
    let outcome = reader.push(&bytes);
    // the bytes decode as one packet from their start, with the later header merged
    // in; it takes as many bytes as one header, and the rest holds the second packet
    assert_eq!(outcome.frames.len(), 2);
    assert_eq!(outcome.frames[0].packet, second);
    assert_eq!(outcome.frames[0].raw, encode_frame(&first));
    assert_eq!(outcome.frames[1].packet, second);
    assert_eq!(outcome.frames[1].raw, encode_frame(&second));
    assert!(!outcome.decode_error);
    assert_eq!(reader.len(), 0);
}

#[test]
fn frames_come_out_in_the_order_of_their_bytes() {
    let mut reader = FrameReader::new();
    let mut seen = Vec::new();
    for id in 1..=20u32 {
        let framed = encode_frame(&header_packet(id));
        let (a, b) = framed.split_at(framed.len() / 2);
        assert!(reader.push(a).frames.is_empty());
        for found in reader.push(b).frames {
            seen.push(found.packet);
        }
    }
    let expected: Vec<Packet> = (1..=20u32).map(header_packet).collect();
    assert_eq!(seen, expected);
}

#[test]
fn clear_drops_what_waits() {
    let mut reader = FrameReader::new();
    reader.push(&[1, 2, 3]);
    assert_eq!(reader.len(), 3);
    reader.clear();
    assert_eq!(reader.len(), 0);
}

#[test]
fn probe_tells_what_bytes_hold() {
    let packet = header_packet(3);
    let bytes = packet.encode();
    assert_eq!(probe(&bytes), Some((packet, bytes.len())));
    assert_eq!(probe(&[0xff]), None);
    assert_eq!(probe(&[]), None);
    // field 15 alone decodes to the packet without a kind, which takes no byte
    assert_eq!(probe(&[0x78, 0x05]), None);
    assert_eq!(RESYNC_WINDOW, 100);
}

#[test]
fn resync_finds_the_first_packet_that_fits() {
    let packet = header_packet(5);
    let body = packet.encode();
    let mut bytes = vec![0xff; 5];
    bytes.extend_from_slice(&body);
    assert_eq!(
        resync(&bytes, 0),
        Resync::Frame { start: 5, len: body.len(), packet: packet.clone() }
    );
    assert_eq!(
        resync(&bytes, 5),
        Resync::Frame { start: 5, len: body.len(), packet }
    );
    assert_eq!(resync(&bytes, bytes.len()), Resync::Drained);
}

#[test]
fn resync_drains_what_holds_no_packet() {
    assert_eq!(resync(&[0xff; 300], 0), Resync::Drained);
    assert_eq!(resync(&[], 0), Resync::Drained);
}

#[test]
fn resync_reaches_past_its_window_byte_by_byte() {
    let packet = header_packet(6);
    let body = packet.encode();
    let mut bytes = vec![0xff; 250];
    bytes.extend_from_slice(&body);
    assert_eq!(resync(&bytes, 0), Resync::Frame { start: 250, len: body.len(), packet });
}

#[test]
fn garbage_of_any_length_before_a_frame_is_dropped() {
    let packet = header_packet(77);
    let framed = encode_frame(&packet);
    for garbage in [1usize, 2, 98, 99, 100, 101, 199, 200, 201, 1000] {
        let mut bytes = vec![0xff; garbage];
        bytes.extend_from_slice(&framed);
        let mut reader = FrameReader::new();
        let outcome = reader.push(&bytes);
        assert_eq!(
            outcome.frames,
            vec![DecodedFrame { packet: packet.clone(), raw: framed.clone() }],
            "garbage of {} bytes",
            garbage
        );
        assert!(outcome.decode_error);
        assert_eq!(reader.len(), 0);
        assert_eq!(
            resync(&bytes[..bytes.len() - 4], 0),
            Resync::Frame { start: garbage, len: framed.len() - 4, packet: packet.clone() }
        );
    }
}

#[test]
fn a_packet_is_found_only_where_the_rest_decodes_with_it() {
    let first = header_packet(1);
    let second = header_packet(2);
    // garbage between two packets: the bytes decode from the second packet on only
    let mut bytes = vec![0xff, 0xff];
    bytes.extend_from_slice(&first.encode());
    bytes.extend_from_slice(&[0xff; 7]);
    bytes.extend_from_slice(&second.encode());
    let mut framed = bytes.clone();
    framed.extend_from_slice(&[0xef, 0xbe, 0xad, 0xde]);
    let mut reader = FrameReader::new();
    let outcome = reader.push(&framed);
    assert!(outcome.decode_error);
    assert_eq!(reader.len(), 0);
    assert_eq!(
        outcome.frames,
        vec![DecodedFrame { packet: second.clone(), raw: encode_frame(&second) }]
    );
    // garbage behind the last packet: nothing decodes to the end
    bytes.extend_from_slice(&[0xff; 3]);
    assert_eq!(resync(&bytes, 0), Resync::Drained);
    bytes.extend_from_slice(&[0xef, 0xbe, 0xad, 0xde]);
    let outcome = reader.push(&bytes);
    assert!(outcome.decode_error);
    assert!(outcome.frames.is_empty());
    assert_eq!(reader.len(), 0);
}
