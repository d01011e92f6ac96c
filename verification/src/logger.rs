//! The records of the packet log: what is written for a frame received or
//! sent, under which file name, and in which directory.

use crate::text::{
    append_decimal, append_fixed_decimal, append_hex_spaced, decimal, fixed_decimal, hex_spaced,
    lemma_fixed_decimal_len,
};
use vstd::prelude::*;
use vstd::string::{StringExecFns, StringSliceAdditionalSpecFns};

verus! {

/// One line of the log of a connection, before it is written.
#[derive(Debug, Clone, PartialEq, Eq)]
pub struct LogRecord {
    pub connection_id: String,
    pub payload: String,
    pub timestamp: String,
}

/// A moment of universal time, to the millisecond.
#[derive(Debug, Clone, Copy, PartialEq, Eq, Structural)]
pub struct UtcTime {
    pub year: u32,
    pub month: u32,
    pub day: u32,
    pub hour: u32,
    pub minute: u32,
    pub second: u32,
    pub millisecond: u32,
}

impl UtcTime {
    /// Holds of a moment of the calendar and of the clock, not before the
    /// year 1970.
    pub open spec fn wf(self) -> bool {
        &&& 1970 <= self.year
        &&& 1 <= self.month <= 12
        &&& 1 <= self.day <= 31
        &&& self.hour < 24
        &&& self.minute < 60
        &&& self.second < 60
        &&& self.millisecond < 1000
    }
}

/// `chrono::Utc::now`, taken apart by the accessors of `chrono::Datelike`
/// and `chrono::Timelike` and by `timestamp_subsec_millis`: the time of the
/// call in universal time, which is a moment of the calendar and of the
/// clock, not before 1970. Nothing is claimed of which moment it is.
#[verifier::external_body]
fn utc_now() -> (r: UtcTime)
    ensures
        r.wf(),
{
    let now = chrono::Utc::now();
    UtcTime {
        year: chrono::Datelike::year(&now) as u32,
        month: chrono::Datelike::month(&now),
        day: chrono::Datelike::day(&now),
        hour: chrono::Timelike::hour(&now),
        minute: chrono::Timelike::minute(&now),
        second: chrono::Timelike::second(&now),
        millisecond: now.timestamp_subsec_millis(),
    }
}

/// The year of a timestamp: four digits, or, past the year 9999, a plus
/// sign and the digits of the year.
pub open spec fn year_text(year: u32) -> Seq<char> {
    if year <= 9999 {
        fixed_decimal(year as nat, 4)
    } else {
        "+"@ + decimal(year as nat)
    }
}

/// The timestamp of a record: `YYYY-MM-DD HH:MM:SS.mmm`.
pub open spec fn timestamp_text(time: UtcTime) -> Seq<char> {
    year_text(time.year) + "-"@ + fixed_decimal(time.month as nat, 2) + "-"@ + fixed_decimal(
        time.day as nat,
        2,
    ) + " "@ + fixed_decimal(time.hour as nat, 2) + ":"@ + fixed_decimal(time.minute as nat, 2)
        + ":"@ + fixed_decimal(time.second as nat, 2) + "."@ + fixed_decimal(
        time.millisecond as nat,
        3,
    )
}

/// Up to the year 9999 a timestamp has 23 characters, with the marks of
/// the form `YYYY-MM-DD HH:MM:SS.mmm` at their places.
pub proof fn lemma_timestamp_shape(time: UtcTime)
    requires
        time.year <= 9999,
    ensures
        timestamp_text(time).len() == 23,
        timestamp_text(time)[4] == '-',
        timestamp_text(time)[7] == '-',
        timestamp_text(time)[10] == ' ',
        timestamp_text(time)[13] == ':',
        timestamp_text(time)[16] == ':',
        timestamp_text(time)[19] == '.',
{
    reveal_strlit("-");
    reveal_strlit(" ");
    reveal_strlit(":");
    reveal_strlit(".");
    lemma_fixed_decimal_len(time.year as nat, 4);
    lemma_fixed_decimal_len(time.month as nat, 2);
    lemma_fixed_decimal_len(time.day as nat, 2);
    lemma_fixed_decimal_len(time.hour as nat, 2);
    lemma_fixed_decimal_len(time.minute as nat, 2);
    lemma_fixed_decimal_len(time.second as nat, 2);
    lemma_fixed_decimal_len(time.millisecond as nat, 3);
}

impl UtcTime {
    /// The timestamp of the moment, as it stands in a log line.
    pub fn text(&self) -> (r: String)
        ensures
            r@ == timestamp_text(*self),
    {
        let mut out = String::new();
        if self.year <= 9999 {
            append_fixed_decimal(&mut out, self.year as u64, 4);
        } else {
            out.append("+");
            append_decimal(&mut out, self.year as u64);
        }
        assert(out@ =~= year_text(self.year));
        out.append("-");
        append_fixed_decimal(&mut out, self.month as u64, 2);
        out.append("-");
        append_fixed_decimal(&mut out, self.day as u64, 2);
        out.append(" ");
        append_fixed_decimal(&mut out, self.hour as u64, 2);
        out.append(":");
        append_fixed_decimal(&mut out, self.minute as u64, 2);
        out.append(":");
        append_fixed_decimal(&mut out, self.second as u64, 2);
        out.append(".");
        append_fixed_decimal(&mut out, self.millisecond as u64, 3);
        out
    }
}

/// Holds of the timestamps of the moments of the calendar and of the clock.
pub open spec fn is_timestamp(text: Seq<char>) -> bool {
    exists|time: UtcTime| time.wf() && text == #[trigger] timestamp_text(time)
}

/// The payload of a frame sent: the mark, then the bytes as pairs of
/// hexadecimal digits with spaces between them.
pub open spec fn sent_payload(data: Seq<u8>) -> Seq<char> {
    "SENT: "@ + hex_spaced(data)
}

/// The line of a record: the time in square brackets, a space, the
/// payload, and the end of the line.
pub open spec fn line_text(timestamp: Seq<char>, payload: Seq<char>) -> Seq<char> {
    "["@ + timestamp + "] "@ + payload + "\n"@
}

/// The name of the log file of a connection.
pub open spec fn file_name_text(connection_id: Seq<char>) -> Seq<char> {
    "connection_"@ + connection_id + ".log"@
}

/// The record of a packet received on `connection_id`, whose text form is
/// `json`, at the time `timestamp`. A connection without a name gets no
/// record.
pub fn received_record(connection_id: &str, json: &str, timestamp: String) -> (r: Option<
    LogRecord,
>)
    ensures
        connection_id@.len() == 0 <==> r is None,
        r matches Some(record) ==> record.connection_id@ == connection_id@ && record.payload@
            == json@ && record.timestamp@ == timestamp@,
{
    if connection_id.is_empty() {
        None
    } else {
        Some(
            LogRecord {
                connection_id: String::from_str(connection_id),
                payload: String::from_str(json),
                timestamp,
            },
        )
    }
}

/// The record of the bytes `data` sent on `connection_id` at the time
/// `timestamp`. A connection without a name gets no record.
pub fn sent_record(connection_id: &str, data: &[u8], timestamp: String) -> (r: Option<LogRecord>)
    ensures
        connection_id@.len() == 0 <==> r is None,
        r matches Some(record) ==> record.connection_id@ == connection_id@ && record.payload@
            == sent_payload(data@) && record.timestamp@ == timestamp@,
{
    if connection_id.is_empty() {
        None
    } else {
        let mut payload = String::from_str("SENT: ");
        append_hex_spaced(&mut payload, data);
        Some(LogRecord { connection_id: String::from_str(connection_id), payload, timestamp })
    }
}

/// The record of a packet received on `connection_id` now, whose text
/// form is `json`. A connection without a name gets no record.
pub fn save_packet_fast(connection_id: &str, json: &str) -> (r: Option<LogRecord>)
    ensures
        connection_id@.len() == 0 <==> r is None,
        r matches Some(record) ==> record.connection_id@ == connection_id@ && record.payload@
            == json@ && is_timestamp(record.timestamp@),
{
    let timestamp = utc_now().text();
    received_record(connection_id, json, timestamp)
}

/// The record of the bytes `data` sent on `connection_id` now. A connection
/// without a name gets no record.
pub fn log_sent_data(connection_id: &str, data: &[u8]) -> (r: Option<LogRecord>)
    ensures
        connection_id@.len() == 0 <==> r is None,
        r matches Some(record) ==> record.connection_id@ == connection_id@ && record.payload@
            == sent_payload(data@) && is_timestamp(record.timestamp@),
{
    let timestamp = utc_now().text();
    sent_record(connection_id, data, timestamp)
}

impl LogRecord {
    /// The line that is appended to the log file.
    pub fn line(&self) -> (r: String)
        ensures
            r@ == line_text(self.timestamp@, self.payload@),
    {
        let mut out = String::from_str("[");
        out.append(self.timestamp.as_str());
        out.append("] ");
        out.append(self.payload.as_str());
        out.append("\n");
        out
    }

    /// The name of the file that the line is appended to.
    pub fn file_name(&self) -> (r: String)
        ensures
            r@ == file_name_text(self.connection_id@),
    {
        log_file_name(self.connection_id.as_str())
    }
}

/// The name of the log file of `connection_id`.
pub fn log_file_name(connection_id: &str) -> (r: String)
    ensures
        r@ == file_name_text(connection_id@),
{
    let mut out = String::from_str("connection_");
    out.append(connection_id);
    out.append(".log");
    out
}

/// Holds of the names that end with `.log`.
pub open spec fn ends_with_log(name: Seq<u8>) -> bool {
    name.len() >= 4 && name.subrange(name.len() - 4, name.len() as int) == seq![
        0x2eu8,
        0x6cu8,
        0x6fu8,
        0x67u8,
    ]
}

/// Whether a file of the log directory is a log file: its name ends with
/// `.log`.
pub fn is_log_file(name: &str) -> (r: bool)
    ensures
        r == ends_with_log(name.spec_bytes()),
{
    let bytes = name.as_bytes();
    let n = bytes.len();
    if n < 4 {
        return false;
    }
    let found = bytes[n - 4] == 0x2e && bytes[n - 3] == 0x6c && bytes[n - 2] == 0x6f && bytes[n
        - 1] == 0x67;
    proof {
        let tail = bytes@.subrange(n - 4, n as int);
        if found {
            assert(tail =~= seq![0x2eu8, 0x6cu8, 0x6fu8, 0x67u8]);
        } else {
            assert(tail[0] == bytes@[n - 4]);
            assert(tail[1] == bytes@[n - 3]);
            assert(tail[2] == bytes@[n - 2]);
            assert(tail[3] == bytes@[n - 1]);
        }
    }
    found
}

/// Where the log files are kept: the directory that the user chose, if
/// any, and else the default.
#[derive(Debug, Clone, PartialEq, Eq)]
pub struct LogDirectory {
    pub chosen: Option<String>,
}

impl LogDirectory {
    /// No directory is chosen.
    pub fn new() -> (r: LogDirectory)
        ensures
            r.chosen is None,
    {
        LogDirectory { chosen: None }
    }

    /// Chooses `path` for the files that are opened from now on.
    pub fn set_log_directory(&mut self, path: String)
        ensures
            final(self).chosen matches Some(chosen) && chosen@ == path@,
    {
        self.chosen = Some(path);
    }

    /// The directory of the log files: the chosen one, or `default`.
    pub fn get_logs_directory(&self, default: &str) -> (r: String)
        ensures
            r@ == match self.chosen {
                Some(chosen) => chosen@,
                None => default@,
            },
    {
        match &self.chosen {
            Some(chosen) => chosen.clone(),
            None => String::from_str(default),
        }
    }
}

} // verus!
