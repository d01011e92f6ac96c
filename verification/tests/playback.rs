use packet_router::cache::TargetCache;
use packet_router::frame::decode_frame;
use packet_router::packet::{Kind, Packet};
use packet_router::playback::{step_deadline, Playback};
use packet_router::schema::Double;
use packet_router::target::{Lla, TargetPacket};

fn sample(id: u32, step: u32) -> TargetPacket {
    TargetPacket {
        target_id: id,
        lla: Some(Lla {
            lat: Double { bits: (10.0 + step as f64).to_bits() },
            lon: Double { bits: (20.0 + id as f64).to_bits() },
            alt: Double { bits: 100.0f64.to_bits() },
        }),
        ned: None,
        ned_velocity: None,
        time: Double { bits: (step as f64 * 0.1).to_bits() },
        origin: None,
    }
}

const A: u32 = 1;
const B: u32 = 2;

fn two_targets() -> Vec<TargetPacket> {
    let mut packets = Vec::new();
    for step in 0..3 {
        packets.push(sample(A, step));
    }
    for step in 0..5 {
        packets.push(sample(B, step));
    }
    packets
}

#[test]
fn playback_aligns_targets_step_by_step() {
    let playback = Playback::new(&two_targets());
    assert_eq!(playback.max_steps(), 5);
    let mut datagrams = Vec::new();
    for step in 0..playback.max_steps() {
        datagrams.push(playback.datagram_at(step).expect("a step before the last has packets"));
    }
    assert_eq!(datagrams.len(), 5);
    for (step, datagram) in datagrams.iter().enumerate() {
        let packet = decode_frame(datagram).unwrap();
        let mut list = match packet.kind {
            Some(Kind::TargetPacketList(list)) => list.packets,
            other => panic!("unexpected kind {:?}", other),
        };
        list.sort_by_key(|packet| packet.target_id);
        if step < 3 {
            assert_eq!(list, vec![sample(A, step as u32), sample(B, step as u32)]);
        } else {
            assert_eq!(list, vec![sample(B, step as u32)]);
        }
    }
    assert_eq!(playback.datagram_at(5), None);
    assert_eq!(playback.datagram_at(usize::MAX), None);
    assert!(playback.packets_at(5).is_empty());
}

#[test]
fn groups_hold_the_packets_of_each_target_as_they_came() {
    let packets = vec![
        sample(9, 0),
        sample(4, 0),
        sample(9, 1),
        sample(7, 0),
        sample(4, 1),
        sample(9, 2),
    ];
    let playback = Playback::new(&packets);
    assert_eq!(playback.groups.len(), 3);
    assert_eq!(playback.groups.get(&9), Some(&vec![sample(9, 0), sample(9, 1), sample(9, 2)]));
    assert_eq!(playback.groups.get(&4), Some(&vec![sample(4, 0), sample(4, 1)]));
    assert_eq!(playback.groups.get(&7), Some(&vec![sample(7, 0)]));
    let mut targets = playback.order.clone();
    targets.sort();
    assert_eq!(targets, vec![4, 7, 9]);
    assert_eq!(playback.max_steps(), 3);
    // every step follows the order of the targets
    for step in 0..3 {
        let expected: Vec<TargetPacket> = playback
            .order
            .iter()
            .filter(|id| step < playback.groups[*id].len())
            .map(|id| playback.groups[id][step])
            .collect();
        assert_eq!(playback.packets_at(step), expected);
    }
    assert_eq!(playback.packets_at(0).len(), 3);
    assert_eq!(playback.packets_at(1).len(), 2);
    assert_eq!(playback.packets_at(2), vec![sample(9, 2)]);
    let sent: usize = (0..playback.max_steps()).map(|k| playback.packets_at(k).len()).sum();
    assert_eq!(sent, packets.len());
}

#[test]
fn a_playback_walks_the_targets_in_the_order_it_is_given() {
    let packets = vec![sample(9, 0), sample(4, 0), sample(9, 1)];
    let mut playback = Playback::new(&packets);
    playback.order = vec![4, 9];
    assert_eq!(playback.packets_at(0), vec![sample(4, 0), sample(9, 0)]);
    assert_eq!(playback.packets_at(1), vec![sample(9, 1)]);
    playback.order = vec![9, 4];
    assert_eq!(playback.packets_at(0), vec![sample(9, 0), sample(4, 0)]);
    assert_eq!(playback.max_steps(), 2);
    // a target that is not walked is not sent
    playback.order = vec![4];
    assert_eq!(playback.max_steps(), 1);
    assert_eq!(playback.datagram_at(1), None);
}

#[test]
fn playback_of_nothing_has_no_step() {
    let playback = Playback::new(&vec![]);
    assert!(playback.groups.is_empty());
    assert!(playback.order.is_empty());
    assert_eq!(playback.max_steps(), 0);
    assert_eq!(playback.datagram_at(0), None);
}

#[test]
fn each_step_is_one_frame() {
    let playback = Playback::new(&two_targets());
    let datagram = playback.datagram_at(4).unwrap();
    let expected = Packet {
        kind: Some(Kind::TargetPacketList(packet_router::packet::TargetPacketList {
            packets: vec![sample(B, 4)],
        })),
    };
    assert_eq!(datagram, packet_router::frame::encode_frame(&expected));
    assert_eq!(&datagram[datagram.len() - 4..], &[0xef, 0xbe, 0xad, 0xde]);
}

#[test]
fn deadlines_are_whole_intervals_from_the_start() {
    assert_eq!(step_deadline(1000, 0, 100), 1100);
    assert_eq!(step_deadline(1000, 4, 100), 1500);
    assert_eq!(step_deadline(0, 0, 0), 0);
    assert_eq!(step_deadline(5, 9, 0), 5);
    assert_eq!(step_deadline(u64::MAX - 10, 0, 10), u64::MAX);
    assert_eq!(step_deadline(u64::MAX - 10, 0, 11), u64::MAX);
    assert_eq!(step_deadline(0, usize::MAX, u64::MAX), u64::MAX);
    assert_eq!(step_deadline(7, 2, 1 << 40), 7 + 3 * (1u64 << 40));
}

#[test]
fn cache_keeps_one_entry_for_each_target() {
    let mut cache = TargetCache::new();
    assert_eq!(cache.len(), 0);
    assert_eq!(cache.get(1), None);
    cache.upsert(sample(1, 0));
    cache.upsert(sample(2, 0));
    cache.upsert(sample(1, 5));
    assert_eq!(cache.len(), 2);
    assert_eq!(cache.get(1), Some(sample(1, 5)));
    assert_eq!(cache.get(2), Some(sample(2, 0)));
    assert_eq!(cache.get(3), None);
    let mut listed = cache.list();
    listed.sort_by_key(|packet| packet.target_id);
    assert_eq!(listed, vec![sample(1, 5), sample(2, 0)]);
    cache.upsert_all(&vec![sample(3, 1), sample(2, 2), sample(3, 3)]);
    let mut listed = cache.list();
    listed.sort_by_key(|packet| packet.target_id);
    assert_eq!(listed, vec![sample(1, 5), sample(2, 2), sample(3, 3)]);
    let mut targets = cache.targets();
    targets.sort();
    assert_eq!(targets, vec![1, 2, 3]);
    cache.clear();
    assert_eq!(cache.len(), 0);
    assert!(cache.list().is_empty());
    assert!(cache.targets().is_empty());
}
