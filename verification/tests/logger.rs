use packet_router::ids::{
    join_id, join_share_id, join_udp_share_id, new_connection_id, new_share_id,
    new_simulation_id, new_udp_share_id,
};
use packet_router::logger::{
    log_file_name, log_sent_data, received_record, save_packet_fast, sent_record, LogDirectory,
    LogRecord, UtcTime,
};
use packet_router::text::{append_fixed_decimal, decimal_string};

#[test]
fn sent_bytes_are_logged_as_spaced_hex() {
    let record = sent_record("s1", &[0x0a, 0xff, 0x00, 0x7b], "ts".to_string()).unwrap();
    assert_eq!(
        record,
        LogRecord {
            connection_id: "s1".to_string(),
            payload: "SENT: 0a ff 00 7b".to_string(),
            timestamp: "ts".to_string(),
        }
    );
    assert_eq!(sent_record("s1", &[], "ts".to_string()).unwrap().payload, "SENT: ");
    assert_eq!(sent_record("s1", &[0xab], "ts".to_string()).unwrap().payload, "SENT: ab");
}

#[test]
fn received_packet_is_logged_as_it_is_given() {
    let record = received_record("u1", "{\"kind\":null}", "t".to_string()).unwrap();
    assert_eq!(record.connection_id, "u1");
    assert_eq!(record.payload, "{\"kind\":null}");
    assert_eq!(record.timestamp, "t");
}

#[test]
fn connection_without_a_name_is_not_logged() {
    assert_eq!(received_record("", "{}", "t".to_string()), None);
    assert_eq!(sent_record("", &[1], "t".to_string()), None);
    assert_eq!(save_packet_fast("", "{}"), None);
    assert_eq!(log_sent_data("", &[1]), None);
}

#[test]
fn line_and_file_of_a_record() {
    let record = LogRecord {
        connection_id: "s1".to_string(),
        payload: "SENT: 0a".to_string(),
        timestamp: "2024-05-06 07:08:09.123".to_string(),
    };
    assert_eq!(record.line(), "[2024-05-06 07:08:09.123] SENT: 0a\n");
    assert_eq!(record.file_name(), "connection_s1.log");
    assert_eq!(log_file_name("sim_udp_1"), "connection_sim_udp_1.log");
}

fn looks_like_a_timestamp(text: &str) -> bool {
    let bytes = text.as_bytes();
    let shape = b"dddd-dd-dd dd:dd:dd.ddd";
    bytes.len() == shape.len()
        && bytes.iter().zip(shape.iter()).all(|(b, s)| match s {
            b'd' => b.is_ascii_digit(),
            other => b == other,
        })
}

#[test]
fn records_are_stamped_with_the_time_to_the_millisecond() {
    let received = save_packet_fast("s1", "{}").unwrap();
    assert_eq!(received.payload, "{}");
    assert!(looks_like_a_timestamp(&received.timestamp), "{}", received.timestamp);
    let sent = log_sent_data("s1", &[1, 2]).unwrap();
    assert_eq!(sent.payload, "SENT: 01 02");
    assert!(looks_like_a_timestamp(&sent.timestamp), "{}", sent.timestamp);
    assert!(received.timestamp <= sent.timestamp);
    assert!(received.timestamp.as_str() > "2020");
}

#[test]
fn log_directory_is_the_chosen_one_or_the_default() {
    let mut directory = LogDirectory::new();
    assert_eq!(directory.get_logs_directory("/opt/app/logs"), "/opt/app/logs");
    directory.set_log_directory("/tmp/logs".to_string());
    assert_eq!(directory.get_logs_directory("/opt/app/logs"), "/tmp/logs");
    directory.set_log_directory("/var/log/router".to_string());
    assert_eq!(directory.get_logs_directory("/opt/app/logs"), "/var/log/router");
}

#[test]
fn numbers_as_decimal_text() {
    assert_eq!(decimal_string(0), "0");
    assert_eq!(decimal_string(7), "7");
    assert_eq!(decimal_string(10), "10");
    assert_eq!(decimal_string(115200), "115200");
    assert_eq!(decimal_string(u64::MAX), "18446744073709551615");
}

#[test]
fn ids_are_joined_from_their_parts() {
    assert_eq!(join_id("serial", "abc"), "serial_abc");
    assert_eq!(join_id("", ""), "_");
    assert_eq!(join_share_id(7, "abc"), "share_7_abc");
    assert_eq!(join_udp_share_id("u1", 4294967295, "r"), "udp_share_u1_4294967295_r");
}

fn is_random_part(text: &str) -> bool {
    text.len() == 36
        && text.char_indices().all(|(i, c)| match i {
            8 | 13 | 18 | 23 => c == '-',
            _ => c.is_ascii_hexdigit() && !c.is_ascii_uppercase(),
        })
}

#[test]
fn new_ids_have_a_random_part() {
    let first = new_connection_id("serial");
    let second = new_connection_id("serial");
    assert!(first.starts_with("serial_"));
    assert!(is_random_part(&first[7..]), "{}", first);
    assert_ne!(first, second);
    let id = new_simulation_id();
    assert!(id.starts_with("sim_udp_"));
    assert!(is_random_part(&id[8..]), "{}", id);
    let id = new_share_id(12);
    assert!(id.starts_with("share_12_"));
    assert!(is_random_part(&id[9..]), "{}", id);
    let id = new_udp_share_id("u1", 3);
    assert!(id.starts_with("udp_share_u1_3_"));
    assert!(is_random_part(&id[15..]), "{}", id);
}

#[test]
fn timestamp_has_the_form_of_the_log() {
    let time = UtcTime {
        year: 2024,
        month: 5,
        day: 6,
        hour: 7,
        minute: 8,
        second: 9,
        millisecond: 12,
    };
    assert_eq!(time.text(), "2024-05-06 07:08:09.012");
    let first = UtcTime {
        year: 1970,
        month: 1,
        day: 1,
        hour: 0,
        minute: 0,
        second: 0,
        millisecond: 0,
    };
    assert_eq!(first.text(), "1970-01-01 00:00:00.000");
    let last = UtcTime {
        year: 9999,
        month: 12,
        day: 31,
        hour: 23,
        minute: 59,
        second: 59,
        millisecond: 999,
    };
    assert_eq!(last.text(), "9999-12-31 23:59:59.999");
    assert_eq!(UtcTime { year: 10000, ..first }.text(), "+10000-01-01 00:00:00.000");
    let record = received_record("s1", "{}", time.text()).unwrap();
    assert_eq!(record.line(), "[2024-05-06 07:08:09.012] {}\n");
}

#[test]
fn fixed_decimal_keeps_the_last_digits() {
    let mut out = String::from("x");
    append_fixed_decimal(&mut out, 7, 2);
    append_fixed_decimal(&mut out, 0, 3);
    append_fixed_decimal(&mut out, 12345, 4);
    append_fixed_decimal(&mut out, 9, 0);
    append_fixed_decimal(&mut out, 42, 1);
    assert_eq!(out, "x0700023452");
}
