use packet_router::frame::{decode_frame, encode_frame};
use packet_router::manager::{Manager, ManagerError};
use packet_router::messages::PacketHeader;
use packet_router::packet::{Kind, Packet, TargetPacketList};
use packet_router::playback::step_deadline;
use packet_router::registry::{Connection, Transport};
use packet_router::schema::Double;
use packet_router::shares::ShareKey;
use packet_router::streaming::SerializableManager;
use packet_router::target::TargetPacket;
use packet_router::tasks::{ShareCycle, ShareStart, ShareStopPlan};
use packet_router::transport::{
    IpAddress, SendAction, SerialTransport, SocketAddress, TransportError, UdpTransport,
};

fn addr(port: u16) -> SocketAddress {
    SocketAddress { ip: IpAddress::V4(0x7f00_0001), port, flowinfo: 0, scope_id: 0 }
}

/// The packets in the order of their targets: a cache is walked in no
/// order that a caller could count on.
fn by_target(mut packets: Vec<TargetPacket>) -> Vec<TargetPacket> {
    packets.sort_by_key(|packet| packet.target_id);
    packets
}

fn text(port: u16) -> String {
    format!("127.0.0.1:{}", port)
}

fn header_packet(id: u32) -> Packet {
    Packet {
        kind: Some(Kind::Header(PacketHeader {
            id,
            length: 10,
            checksum: 1234,
            version: 1,
            flags: 0,
        })),
    }
}

fn target(id: u32, time: f64) -> TargetPacket {
    TargetPacket {
        target_id: id,
        lla: None,
        ned: None,
        ned_velocity: None,
        time: Double { bits: time.to_bits() },
        origin: None,
    }
}

fn ids(manager: &Manager) -> Vec<String> {
    manager.list_connections().into_iter().map(|c| c.id).collect()
}

fn key(source: &str, dest: &str) -> ShareKey {
    ShareKey { source: source.to_string(), dest: dest.to_string() }
}

#[test]
fn added_connection_is_listed_once() {
    let mut manager = Manager::new();
    assert_eq!(manager.start_connection("s1".to_string(), "COM3".to_string(), 115200), Ok(()));
    assert_eq!(
        manager.start_udp_connection("u1".to_string(), addr(5001), text(5001)),
        Ok(())
    );
    let listed = manager.list_connections();
    assert_eq!(listed.len(), 2);
    assert_eq!(listed.iter().filter(|c| c.id == "s1").count(), 1);
    assert_eq!(listed[0].id, "s1");
    assert_eq!(listed[0].name, "Serial(COM3:115200)");
    assert_eq!(listed[1].id, "u1");
    assert_eq!(listed[1].name, "Udp(127.0.0.1:5001)");
    assert_eq!(manager.get_connection_count(), 2);
    let stored = SerializableManager::from_manager(&manager);
    assert_eq!(stored.connections, listed);
}

#[test]
fn duplicate_id_is_refused() {
    let mut manager = Manager::new();
    assert_eq!(manager.start_connection("s1".to_string(), "COM3".to_string(), 9600), Ok(()));
    assert_eq!(
        manager.start_connection("s1".to_string(), "COM4".to_string(), 9600),
        Err(ManagerError::DuplicateId)
    );
    assert_eq!(
        manager.add_connection(
            "s1".to_string(),
            Transport::Serial(SerialTransport::new("COM5".to_string(), 1))
        ),
        Err(ManagerError::DuplicateId)
    );
    assert_eq!(manager.list_connections().len(), 1);
    assert_eq!(manager.list_connections()[0].name, "Serial(COM3:9600)");
    assert_eq!(
        ManagerError::DuplicateId.message("s1"),
        "Connection ID 's1' already exists"
    );
}

#[test]
fn address_collision_is_refused_before_anything_is_registered() {
    let mut manager = Manager::new();
    assert_eq!(manager.start_udp_connection("u".to_string(), addr(5001), text(5001)), Ok(()));
    assert!(manager.is_socket_address_in_use(addr(5001)));
    assert!(!manager.is_socket_address_in_use(addr(5002)));
    let refused = manager.start_udp_connection("u".to_string(), addr(5001), text(5001));
    assert_eq!(refused, Err(ManagerError::AddressInUse));
    let message = refused.unwrap_err().message(&text(5001));
    assert!(message.contains("5001"));
    assert_eq!(
        message,
        "Socket address 127.0.0.1:5001 is already in use. Please stop any existing connections or simulation streaming using this address first."
    );
    let refused = manager.start_udp_connection("other".to_string(), addr(5001), text(5001));
    assert_eq!(refused, Err(ManagerError::AddressInUse));
    let listed = manager.list_connections();
    assert_eq!(listed.len(), 1);
    assert_eq!(listed[0].name, "Udp(127.0.0.1:5001)");
    let refused = manager.simulation_init_and_stream(addr(5001), text(5001), addr(6000), &vec![]);
    assert_eq!(refused.err(), Some(ManagerError::AddressInUse));
    assert_eq!(manager.list_connections().len(), 1);
    assert!(manager.list_active_simulation_streams().is_empty());
}

#[test]
fn same_id_on_a_free_address_is_a_duplicate() {
    let mut manager = Manager::new();
    assert_eq!(manager.start_udp_connection("u".to_string(), addr(5001), text(5001)), Ok(()));
    assert_eq!(
        manager.start_udp_connection("u".to_string(), addr(5002), text(5002)),
        Err(ManagerError::DuplicateId)
    );
    assert!(!manager.is_socket_address_in_use(addr(5002)));
}

#[test]
fn addresses_differ_by_every_part() {
    let mut manager = Manager::new();
    let v6 = SocketAddress { ip: IpAddress::V6(1), port: 5001, flowinfo: 0, scope_id: 0 };
    let scoped = SocketAddress { ip: IpAddress::V6(1), port: 5001, flowinfo: 0, scope_id: 3 };
    assert_eq!(manager.start_udp_connection("a".to_string(), addr(5001), text(5001)), Ok(()));
    assert_eq!(manager.start_udp_connection("b".to_string(), v6, "[::1]:5001".to_string()), Ok(()));
    assert_eq!(
        manager.start_udp_connection("c".to_string(), scoped, "[::1%3]:5001".to_string()),
        Ok(())
    );
    assert!(manager.is_socket_address_in_use(v6));
    assert_eq!(
        manager.start_udp_connection("d".to_string(), scoped, "[::1%3]:5001".to_string()),
        Err(ManagerError::AddressInUse)
    );
}

#[test]
fn send_before_remote_address_is_refused() {
    let mut manager = Manager::new();
    manager.start_udp_connection("u".to_string(), addr(5001), text(5001)).unwrap();
    let refused = manager.send_to("u");
    assert_eq!(
        refused,
        Err(ManagerError::Transport(TransportError::RemoteAddressNotSet))
    );
    assert_eq!(refused.unwrap_err().message("u"), "Remote address not set");
    assert_eq!(TransportError::RemoteAddressNotSet.message(), "Remote address not set");
    assert_eq!(manager.set_udp_remote_addr("u", addr(6000)), Ok(()));
    assert_eq!(manager.send_to("u"), Ok(SendAction::SendDatagram { remote: addr(6000) }));
    assert_eq!(manager.get_total_packets_sent(), 0);
    assert!(manager.confirm_sent("u"));
    assert_eq!(manager.get_total_packets_sent(), 1);
}

#[test]
fn send_to_a_serial_port() {
    let mut manager = Manager::new();
    manager
        .add_connection(
            "idle".to_string(),
            Transport::Serial(SerialTransport::new("COM1".to_string(), 9600)),
        )
        .unwrap();
    manager.start_connection("s1".to_string(), "COM3".to_string(), 115200).unwrap();
    let refused = manager.send_to("idle");
    assert_eq!(
        refused,
        Err(ManagerError::Transport(TransportError::WriterNotInitialized))
    );
    assert_eq!(refused.unwrap_err().message("idle"), "Writer not initialized.");
    assert_eq!(manager.send_to("s1"), Ok(SendAction::WriteAndFlush));
    let refused = manager.send_to("nobody");
    assert_eq!(refused, Err(ManagerError::NoTransport));
    assert_eq!(refused.unwrap_err().message("nobody"), "No transport found for ID: nobody");
    assert!(!manager.confirm_sent("nobody"));
}

#[test]
fn remote_address_is_for_datagram_endpoints_only() {
    let mut manager = Manager::new();
    manager.start_connection("s1".to_string(), "COM3".to_string(), 115200).unwrap();
    assert_eq!(manager.set_udp_remote_addr("s1", addr(1)), Err(ManagerError::NotUdp));
    assert_eq!(manager.set_udp_remote_addr("x", addr(1)), Err(ManagerError::NoConnection));
    assert_eq!(
        ManagerError::NotUdp.message("s1"),
        "Connection is not a UdpTransport or is shared"
    );
    assert_eq!(ManagerError::NoConnection.message("x"), "No connection found for id x");
    assert_eq!(manager.list_connections().len(), 1);
    assert_eq!(manager.send_to("s1"), Ok(SendAction::WriteAndFlush));
}

#[test]
fn stop_removes_the_connection_and_the_shares_that_go_to_it() {
    let mut manager = Manager::new();
    manager.start_connection("s1".to_string(), "COM3".to_string(), 115200).unwrap();
    manager.start_connection("s2".to_string(), "COM4".to_string(), 115200).unwrap();
    manager.start_udp_connection("u1".to_string(), addr(5001), text(5001)).unwrap();
    manager.share_data_between_ids("s1", "s2", 20).unwrap();
    manager.share_data_between_ids("s2", "s1", 20).unwrap();
    assert!(!manager.register_share_task("udp_share_u1_7_x", "s2", true).replaced);
    assert!(!manager.register_share_task("udp_share_u1_7_y", "u1", true).replaced);
    assert_eq!(manager.timer_users(), 2);
    let plan = manager.stop("s2").unwrap();
    assert_eq!(plan.aborted_shares, vec![key("s1", "s2"), key("udp_share_u1_7_x", "s2")]);
    assert!(!plan.aborted_stream);
    assert_eq!(plan.timer_releases, 1);
    assert_eq!(manager.timer_shares, vec![key("udp_share_u1_7_y", "u1")]);
    match plan.transport {
        Transport::Serial(serial) => {
            assert!(!serial.writer_open);
            assert_eq!(serial.port_name, "COM4");
        }
        other => panic!("unexpected transport {:?}", other),
    }
    assert_eq!(ids(&manager), vec!["s1".to_string(), "u1".to_string()]);
    assert_eq!(
        manager.list_active_shares(),
        vec![key("s2", "s1"), key("udp_share_u1_7_y", "u1")]
    );
    assert_eq!(manager.active_shares, vec![key("s2", "s1")]);
    let again = manager.stop("s2");
    assert_eq!(again.clone().err(), Some(ManagerError::ConnectionNotFound));
    assert_eq!(
        ManagerError::ConnectionNotFound.message("s2"),
        "Connection ID 's2' not found"
    );
    assert_eq!(ids(&manager), vec!["s1".to_string(), "u1".to_string()]);
}

#[test]
fn stop_of_a_datagram_endpoint_frees_its_address_and_its_stream() {
    let mut manager = Manager::new();
    let (id, _) = manager
        .simulation_init_and_stream(addr(5001), text(5001), addr(6000), &vec![target(1, 0.0)])
        .unwrap();
    assert!(id.starts_with("sim_udp_"));
    assert_eq!(id.len(), 8 + 36);
    assert_eq!(manager.list_active_simulation_streams(), vec![id.clone()]);
    assert!(manager.is_socket_address_in_use(addr(5001)));
    assert_eq!(manager.send_to(&id), Ok(SendAction::SendDatagram { remote: addr(6000) }));
    let plan = manager.stop(&id).unwrap();
    assert!(plan.aborted_stream);
    match plan.transport {
        Transport::Udp(udp) => assert!(!udp.running),
        other => panic!("unexpected transport {:?}", other),
    }
    assert!(manager.list_active_simulation_streams().is_empty());
    assert!(!manager.is_socket_address_in_use(addr(5001)));
    assert_eq!(manager.start_udp_connection("u".to_string(), addr(5001), text(5001)), Ok(()));
}

#[test]
fn stop_all_empties_the_manager() {
    let mut manager = Manager::new();
    manager.start_connection("s1".to_string(), "COM3".to_string(), 115200).unwrap();
    manager.start_udp_connection("u1".to_string(), addr(5001), text(5001)).unwrap();
    manager.share_data_between_ids("s1", "u1", 5).unwrap();
    let (sim, _) =
        manager.simulation_init_and_stream(addr(5002), text(5002), addr(6000), &vec![]).unwrap();
    let plan = manager.stop_all();
    assert_eq!(plan.connections.len(), 3);
    assert_eq!(plan.connections[0].id, "s1");
    assert_eq!(plan.connections[1].id, "u1");
    assert_eq!(plan.connections[2].id, sim);
    for Connection { transport, .. } in &plan.connections {
        match transport {
            Transport::Serial(serial) => assert!(!serial.writer_open),
            Transport::Udp(udp) => assert!(!udp.running),
        }
    }
    assert_eq!(plan.aborted_shares, vec![key("s1", "u1")]);
    assert_eq!(plan.aborted_streams, vec![sim]);
    assert_eq!(manager.get_connection_count(), 0);
    assert!(manager.list_active_shares().is_empty());
    assert!(manager.active_shares.is_empty());
    assert!(manager.list_active_simulation_streams().is_empty());
    let plan = manager.stop_all();
    assert!(plan.connections.is_empty());
}

#[test]
fn totals_are_the_sums_of_the_connections() {
    let mut manager = Manager::new();
    manager.start_connection("s1".to_string(), "COM3".to_string(), 115200).unwrap();
    manager.start_udp_connection("u1".to_string(), addr(5001), text(5001)).unwrap();
    manager.start_connection("s2".to_string(), "COM4".to_string(), 115200).unwrap();
    for id in 0..3u32 {
        let outcome = manager.receive("s1", &encode_frame(&header_packet(id))).unwrap();
        assert_eq!(outcome.frames.len(), 1);
    }
    for id in 0..5u32 {
        manager.receive("u1", &encode_frame(&header_packet(id))).unwrap();
    }
    manager.receive("s2", &[1, 2, 3]).unwrap();
    manager.confirm_sent("s1");
    manager.confirm_sent("s2");
    manager.confirm_sent("s2");
    let counts = manager.get_connection_packet_counts();
    let per: Vec<(String, usize, usize)> =
        counts.iter().map(|c| (c.id.clone(), c.received, c.sent)).collect();
    assert_eq!(
        per,
        vec![
            ("s1".to_string(), 3, 1),
            ("u1".to_string(), 5, 0),
            ("s2".to_string(), 0, 2),
        ]
    );
    assert_eq!(manager.get_total_packets_received(), 8);
    assert_eq!(manager.get_total_packets_sent(), 3);
    assert_eq!(
        manager.get_total_packets_received(),
        counts.iter().map(|c| c.received as u128).sum::<u128>()
    );
    assert_eq!(
        manager.get_total_packets_sent(),
        counts.iter().map(|c| c.sent as u128).sum::<u128>()
    );
    manager.reset_packet_counters();
    assert_eq!(manager.get_total_packets_received(), 0);
    assert_eq!(manager.get_total_packets_sent(), 0);
    assert_eq!(manager.get_connection_count(), 3);
    assert!(manager.get_connection_packet_counts().iter().all(|c| c.received == 0 && c.sent == 0));
}

#[test]
fn receive_on_an_unknown_connection_is_refused() {
    let mut manager = Manager::new();
    assert_eq!(manager.receive("x", &[1]).err(), Some(ManagerError::NoTransport));
}

#[test]
fn serial_port_keeps_its_last_frame_for_sharing() {
    let mut manager = Manager::new();
    manager.start_connection("s1".to_string(), "COM3".to_string(), 115200).unwrap();
    manager.start_udp_connection("u1".to_string(), addr(5001), text(5001)).unwrap();
    assert_eq!(manager.share_cycle("s1"), ShareCycle::Skip);
    let first = encode_frame(&header_packet(1));
    let second = encode_frame(&header_packet(2));
    manager.receive("s1", &first).unwrap();
    assert_eq!(manager.share_cycle("s1"), ShareCycle::Forward { frame: first });
    manager.receive("s1", &second[..3]).unwrap();
    manager.receive("s1", &second[3..]).unwrap();
    assert_eq!(manager.share_cycle("s1"), ShareCycle::Forward { frame: second });
    manager.receive("u1", &encode_frame(&header_packet(3))).unwrap();
    assert_eq!(manager.share_cycle("u1"), ShareCycle::Skip);
    assert_eq!(manager.share_cycle("nobody"), ShareCycle::Skip);
}

#[test]
fn datagram_endpoint_keeps_the_latest_packet_of_each_target() {
    let mut manager = Manager::new();
    manager.start_udp_connection("u1".to_string(), addr(5001), text(5001)).unwrap();
    manager.start_udp_connection("u2".to_string(), addr(5002), text(5002)).unwrap();
    manager.start_connection("s1".to_string(), "COM3".to_string(), 115200).unwrap();
    let single = Packet { kind: Some(Kind::TargetPacket(target(7, 1.0))) };
    let list = Packet {
        kind: Some(Kind::TargetPacketList(TargetPacketList {
            packets: vec![target(3, 2.0), target(7, 3.0), target(3, 4.0)],
        })),
    };
    manager.receive("u1", &encode_frame(&single)).unwrap();
    assert_eq!(manager.list_udp_targets("u1"), vec![target(7, 1.0)]);
    manager.receive("u1", &encode_frame(&list)).unwrap();
    assert_eq!(by_target(manager.list_udp_targets("u1")), vec![target(3, 4.0), target(7, 3.0)]);
    manager.receive("u1", &encode_frame(&header_packet(1))).unwrap();
    assert_eq!(by_target(manager.list_udp_targets("u1")), vec![target(3, 4.0), target(7, 3.0)]);
    manager.receive("u2", &encode_frame(&Packet { kind: Some(Kind::TargetPacket(target(3, 9.0))) }))
        .unwrap();
    manager
        .receive("u2", &encode_frame(&Packet { kind: Some(Kind::TargetPacket(target(11, 9.0))) }))
        .unwrap();
    assert_eq!(manager.get_total_udp_targets(), 3);
    assert!(manager.list_udp_targets("s1").is_empty());
    assert!(manager.list_udp_targets("nobody").is_empty());
    assert_eq!(manager.get_total_packets_received(), 5);

    let expected = encode_frame(&Packet { kind: Some(Kind::TargetPacket(target(7, 3.0))) });
    assert_eq!(
        manager.target_share_cycle("u1", 7, "s1"),
        ShareCycle::Forward { frame: expected }
    );
    assert_eq!(manager.target_share_cycle("u1", 8, "s1"), ShareCycle::Skip);
    assert_eq!(manager.target_share_cycle("u1", 7, "nobody"), ShareCycle::Skip);
    assert_eq!(manager.target_share_cycle("s1", 7, "u1"), ShareCycle::Skip);
    assert_eq!(manager.target_share_cycle("nobody", 7, "u1"), ShareCycle::Skip);
}

#[test]
fn shares_are_registered_and_stopped_by_their_key() {
    let mut manager = Manager::new();
    manager.start_connection("s1".to_string(), "COM3".to_string(), 115200).unwrap();
    manager.start_connection("s2".to_string(), "COM4".to_string(), 115200).unwrap();
    let refused = manager.share_data_between_ids("s1", "nobody", 20);
    assert_eq!(refused.err(), Some(ManagerError::NoTransport));
    let started = manager.share_data_between_ids("s1", "s2", 20).unwrap();
    assert!(!started.replaced);
    assert!(!started.precision);
    let started = manager.share_data_between_ids("s1", "s2", 10).unwrap();
    assert!(started.replaced);
    assert!(started.precision);
    assert_eq!(manager.list_active_shares(), vec![key("s1", "s2")]);
    let nothing = ShareStopPlan { aborted_task: false, timer_releases: 0 };
    assert_eq!(manager.stop_share("s2", "s1"), Ok(nothing));
    assert_eq!(manager.list_active_shares(), vec![key("s1", "s2")]);
    assert_eq!(
        manager.stop_share("s1", "s2"),
        Ok(ShareStopPlan { aborted_task: true, timer_releases: 1 })
    );
    assert!(manager.list_active_shares().is_empty());
    assert!(manager.active_shares.is_empty());
    assert_eq!(manager.stop_share("s1", "s2"), Ok(nothing));
    assert_eq!(ManagerError::ShareNotFound.message(""), "Share task not found");

    assert!(!manager.register_share_task("share_7_abc", "s2", false).replaced);
    assert!(manager.register_share_task("share_7_abc", "s2", false).replaced);
    assert_eq!(manager.list_active_shares(), vec![key("share_7_abc", "s2")]);
    assert_eq!(
        manager.stop_share_to_connection("share_7_abc", "s1"),
        Err(ManagerError::ShareNotFound)
    );
    assert_eq!(
        manager.stop_share_to_connection("share_7_abc", "s2"),
        Ok(ShareStopPlan { aborted_task: true, timer_releases: 0 })
    );
    assert_eq!(
        manager.stop_share_to_connection("share_7_abc", "s2"),
        Err(ManagerError::ShareNotFound)
    );
}

#[test]
fn simulation_stream_is_stopped_without_stopping_the_transport() {
    let mut manager = Manager::new();
    manager.start_connection("s1".to_string(), "COM3".to_string(), 115200).unwrap();
    assert_eq!(
        manager.start_simulation_stream("sim_udp_x".to_string(), addr(5001), text(5001), addr(6000)),
        Ok(())
    );
    assert_eq!(
        manager.start_simulation_stream("sim_udp_x".to_string(), addr(5002), text(5002), addr(6000)),
        Err(ManagerError::DuplicateId)
    );
    assert_eq!(
        manager.start_simulation_stream("sim_udp_y".to_string(), addr(5001), text(5001), addr(6000)),
        Err(ManagerError::AddressInUse)
    );
    manager.register_share_task("share_1_a", "sim_udp_x", true);
    manager.register_share_task("share_1_b", "s1", false);
    assert_eq!(manager.timer_users(), 1);
    let plan = manager.stop_simulation_udp_streaming("sim_udp_x").unwrap();
    assert!(plan.aborted_stream);
    assert_eq!(plan.timer_releases, 1);
    assert_eq!(manager.timer_users(), 0);
    assert_eq!(plan.aborted_shares, vec![key("share_1_a", "sim_udp_x")]);
    match plan.dropped {
        Some(Transport::Udp(udp)) => {
            assert_eq!(udp.local_addr, addr(5001));
            assert_eq!(udp.remote_addr, Some(addr(6000)));
        }
        other => panic!("unexpected transport {:?}", other),
    }
    assert_eq!(ids(&manager), vec!["s1".to_string()]);
    assert!(manager.list_active_simulation_streams().is_empty());
    assert_eq!(manager.list_active_shares(), vec![key("share_1_b", "s1")]);
    assert_eq!(
        manager.stop_simulation_udp_streaming("sim_udp_x").err(),
        Some(ManagerError::ConnectionNotFound)
    );
    // a connection without a stream can be stopped this way too
    let plan = manager.stop_simulation_udp_streaming("s1").unwrap();
    assert!(!plan.aborted_stream);
    assert!(plan.dropped.is_some());
    assert_eq!(manager.get_connection_count(), 0);
}

#[test]
fn a_stream_that_ends_by_itself_leaves_its_connection() {
    let mut manager = Manager::new();
    manager
        .start_simulation_stream("sim_udp_x".to_string(), addr(5001), text(5001), addr(6000))
        .unwrap();
    assert!(manager.finish_simulation_stream("sim_udp_x"));
    assert!(!manager.finish_simulation_stream("sim_udp_x"));
    assert!(manager.list_active_simulation_streams().is_empty());
    assert_eq!(ids(&manager), vec!["sim_udp_x".to_string()]);
}

#[test]
fn transports_count_and_stop() {
    let mut serial = SerialTransport::new("COM9".to_string(), 57600);
    assert_eq!(serial.prepare_send(), Err(TransportError::WriterNotInitialized));
    serial.start();
    assert_eq!(serial.prepare_send(), Ok(SendAction::WriteAndFlush));
    serial.confirm_sent();
    serial.confirm_sent();
    let outcome = serial.receive(&encode_frame(&header_packet(1)));
    assert_eq!(outcome.frames.len(), 1);
    assert_eq!(serial.packet_received_count, 1);
    assert_eq!(serial.packet_sent_count, 2);
    assert_eq!(serial.last_data, Some(encode_frame(&header_packet(1))));
    serial.stop();
    serial.stop();
    assert!(!serial.writer_open);
    assert_eq!(serial.prepare_send(), Err(TransportError::WriterNotInitialized));
    serial.reset_packet_counters();
    assert_eq!((serial.packet_received_count, serial.packet_sent_count), (0, 0));

    let mut udp = UdpTransport::new(addr(7000), text(7000));
    assert!(!udp.running);
    udp.start();
    assert!(udp.running);
    assert_eq!(udp.prepare_send(), Err(TransportError::RemoteAddressNotSet));
    udp.set_remote(addr(7001));
    assert_eq!(udp.prepare_send(), Ok(SendAction::SendDatagram { remote: addr(7001) }));
    udp.confirm_sent();
    udp.packet_sent_count = usize::MAX;
    udp.confirm_sent();
    assert_eq!(udp.packet_sent_count, 0);
    udp.stop();
    udp.stop();
    assert!(!udp.running);

    let mut transport = Transport::Udp(udp);
    assert_eq!(transport.name(), "Udp(127.0.0.1:7000)");
    transport.confirm_sent();
    assert_eq!(transport.get_packet_sent_count(), 1);
    assert_eq!(transport.get_packet_received_count(), 0);
    assert_eq!(transport.last_frame(), None);
    transport.reset_packet_counters();
    assert_eq!(transport.get_packet_sent_count(), 0);
    transport.stop();
    assert_eq!(transport.prepare_send(), Ok(SendAction::SendDatagram { remote: addr(7001) }));
}

#[test]
fn stopping_a_precision_share_gives_the_timer_back() {
    let mut manager = Manager::new();
    manager.start_connection("s1".to_string(), "COM3".to_string(), 115200).unwrap();
    manager.start_udp_connection("u1".to_string(), addr(5001), text(5001)).unwrap();
    assert_eq!(manager.timer_users(), 0);

    // a target share at five milliseconds takes the precision path
    let started = manager.register_share_task("udp_share_u1_7_a", "s1", true);
    assert_eq!(started, ShareStart { replaced: false, precision: true, timer_released: false });
    assert_eq!(manager.timer_users(), 1);
    assert_eq!(
        manager.stop_share_to_connection("udp_share_u1_7_a", "s1"),
        Ok(ShareStopPlan { aborted_task: true, timer_releases: 1 })
    );
    assert_eq!(manager.timer_users(), 0);
    assert!(manager.timer_shares.is_empty());

    // a share that is started again gives back what it held
    let first = manager.share_data_between_ids("u1", "s1", 10).unwrap();
    assert_eq!(first, ShareStart { replaced: false, precision: true, timer_released: false });
    let second = manager.share_data_between_ids("u1", "s1", 10).unwrap();
    assert_eq!(second, ShareStart { replaced: true, precision: true, timer_released: true });
    assert_eq!(manager.timer_users(), 1);
    let third = manager.share_data_between_ids("u1", "s1", 11).unwrap();
    assert_eq!(third, ShareStart { replaced: true, precision: false, timer_released: true });
    assert_eq!(manager.timer_users(), 0);

    // a share above ten milliseconds never holds it
    assert_eq!(
        manager.stop_share("u1", "s1"),
        Ok(ShareStopPlan { aborted_task: true, timer_releases: 0 })
    );
    assert_eq!(manager.timer_users(), 0);

    // every stop gives back what its shares held
    manager.share_data_between_ids("u1", "s1", 1).unwrap();
    manager.register_share_task("udp_share_u1_7_b", "s1", true);
    manager.register_share_task("udp_share_u1_7_c", "u1", true);
    manager.register_share_task("udp_share_u1_7_d", "u1", false);
    assert_eq!(manager.timer_users(), 3);
    assert_eq!(
        manager.stop_share("u1", "s1"),
        Ok(ShareStopPlan { aborted_task: true, timer_releases: 1 })
    );
    assert_eq!(manager.timer_users(), 2);
    let plan = manager.stop_all();
    assert_eq!(plan.timer_releases, 2);
    assert_eq!(manager.timer_users(), 0);
}

#[test]
fn a_taken_id_is_refused_before_the_address_is_looked_at() {
    let mut manager = Manager::new();
    manager.start_udp_connection("u1".to_string(), addr(5001), text(5001)).unwrap();
    let mut twin = UdpTransport::new(addr(5001), text(5001));
    twin.start();
    assert_eq!(
        manager.add_connection("u1".to_string(), Transport::Udp(twin)),
        Err(ManagerError::DuplicateId)
    );
    assert_eq!(manager.get_connection_count(), 1);
}

#[test]
fn a_stream_under_a_fresh_id_plays_every_step_of_the_longest_target() {
    let mut packets = Vec::new();
    for step in 0..3 {
        packets.push(target(1, step as f64));
    }
    for step in 0..5 {
        packets.push(target(2, step as f64));
    }
    let mut manager = Manager::new();
    let playback = manager
        .start_simulation_playback(
            "sim_udp_a".to_string(),
            addr(5001),
            text(5001),
            addr(6000),
            &packets,
        )
        .unwrap();
    assert_eq!(ids(&manager), vec!["sim_udp_a".to_string()]);
    assert_eq!(manager.list_active_simulation_streams(), vec!["sim_udp_a".to_string()]);
    assert_eq!(manager.send_to("sim_udp_a"), Ok(SendAction::SendDatagram { remote: addr(6000) }));
    assert_eq!(playback.max_steps(), 5);
    let mut due = Vec::new();
    for step in 0..5 {
        let datagram = playback.datagram_at(step).expect("a step below the number of steps");
        let list = match decode_frame(&datagram).unwrap().kind {
            Some(Kind::TargetPacketList(list)) => by_target(list.packets),
            other => panic!("unexpected kind {:?}", other),
        };
        if step < 3 {
            assert_eq!(list, vec![target(1, step as f64), target(2, step as f64)]);
        } else {
            assert_eq!(list, vec![target(2, step as f64)]);
        }
        due.push(step_deadline(1000, step, 100));
    }
    assert_eq!(due, vec![1100, 1200, 1300, 1400, 1500]);
    assert_eq!(playback.datagram_at(5), None);

    // the id and the address are taken now
    assert_eq!(
        manager
            .start_simulation_playback(
                "sim_udp_a".to_string(),
                addr(5002),
                text(5002),
                addr(6000),
                &packets
            )
            .err(),
        Some(ManagerError::DuplicateId)
    );
    assert_eq!(
        manager
            .start_simulation_playback(
                "sim_udp_b".to_string(),
                addr(5001),
                text(5001),
                addr(6000),
                &packets
            )
            .err(),
        Some(ManagerError::AddressInUse)
    );
    assert_eq!(manager.get_connection_count(), 1);
}

#[test]
fn a_stream_under_a_new_id_starts_where_no_stream_is_registered() {
    let mut manager = Manager::new();
    manager.start_connection("s1".to_string(), "COM3".to_string(), 115200).unwrap();
    manager.start_udp_connection("u1".to_string(), addr(5001), text(5001)).unwrap();
    let (id, playback) = manager
        .simulation_init_and_stream(addr(5002), text(5002), addr(6000), &vec![target(1, 0.0)])
        .unwrap();
    assert!(id.starts_with("sim_udp_"));
    assert_eq!(manager.get_connection_count(), 3);
    assert_eq!(manager.list_active_simulation_streams(), vec![id]);
    assert_eq!(playback.max_steps(), 1);
}
