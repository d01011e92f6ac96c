//! Streaming the states of a simulation to serial connections, one header
//! for each state: the data, the requests, and what makes a request valid.

use crate::messages::{PacketChecksum, PacketHeader, PacketPayload};
use crate::ieee::truncated_u32;
use crate::manager::Manager;
use crate::packet::{Kind, KindView, Packet, PacketView};
use crate::registry::ConnectionInfo;
use crate::schema::{Double, WireMessage};
use crate::shares::string_views;
use vstd::prelude::*;
use vstd::string::StringExecFns;

verus! {

/// The state of one target at one step of a simulation.
#[derive(Debug, Clone, Copy, PartialEq, Eq, Structural)]
pub struct SimulationState {
    pub lat: Double,
    pub lon: Double,
    pub alt: Double,
    pub time: Option<Double>,
    pub alpha: Double,
    pub psi: Double,
}

/// The states of one target, step by step.
#[derive(Debug, Clone, PartialEq, Eq)]
pub struct SimulationResult {
    pub target_id: u32,
    pub final_state: Vec<SimulationState>,
}

/// The results of a simulation, one for each target.
#[derive(Debug, Clone, PartialEq, Eq)]
pub struct SimulationResultList {
    pub results: Vec<SimulationResult>,
}

/// Which target is streamed to which connection, and how often.
#[derive(Debug, Clone, PartialEq, Eq)]
pub struct SimulationStreamConfig {
    pub target_id: u32,
    pub serial_connection_id: String,
    pub stream_interval_ms: u64,
}

/// Where the streamed data comes from.
#[derive(Debug, Clone, Copy, PartialEq, Eq, Structural)]
pub enum DataSourceType {
    Simulation,
    Sensor,
}

/// A request to stream the states of a simulation.
#[derive(Debug, Clone, PartialEq, Eq)]
pub struct SimulationStreamRequest {
    pub simulation_data: SimulationResultList,
    pub stream_configs: Vec<SimulationStreamConfig>,
    pub stream_interval_ms: u64,
    pub data_source: DataSourceType,
}

/// Which sensor is streamed to which connection.
#[derive(Debug, Clone, PartialEq, Eq)]
pub struct SensorStreamConfig {
    pub sensor_id: u32,
    pub serial_connection_id: String,
}

/// A request to stream sensor data.
#[derive(Debug, Clone, PartialEq, Eq)]
pub struct SensorStreamRequest {
    pub stream_configs: Vec<SensorStreamConfig>,
}

/// The id and the port of a serial connection, as they are listed.
#[derive(Debug, Clone, PartialEq, Eq)]
pub struct SerialConnectionInfo {
    pub id: String,
    pub port_name: String,
}

/// A subscription to a topic of a message bus, as it is stored.
#[derive(Debug, Clone, PartialEq, Eq)]
pub struct SubscriptionConfig {
    pub id: String,
    pub topic: String,
}

/// The connections of a manager, as they are stored.
#[derive(Debug, Clone, PartialEq, Eq)]
pub struct SerializableManager {
    pub connections: Vec<ConnectionInfo>,
}

impl SerializableManager {
    /// The ids and names of the connections of `manager`, in order.
    pub fn from_manager(manager: &Manager) -> (r: SerializableManager)
        ensures
            r.connections@.len() == manager.connections@.len(),
            forall|i: int|
                0 <= i < r.connections@.len() ==> (#[trigger] r.connections@[i]).id@
                    == manager.connections@[i].id@ && r.connections@[i].name@
                    == manager.connections@[i].transport.name_text(),
    {
        SerializableManager { connections: manager.list_connections() }
    }
}

/// A source of headers for a target.
pub trait TargetDataSource {
    /// The next header for `target_id`, or `None` where the source has no
    /// more.
    fn get_next(&mut self, target_id: u32) -> Option<PacketHeader>;
}

/// The header that stands for a state: each number is a double cut to 32
/// bits.
pub open spec fn header_of(state: SimulationState) -> PacketHeader {
    PacketHeader {
        id: truncated_u32(state.alpha.bits),
        length: truncated_u32(state.alt.bits),
        checksum: truncated_u32(state.lon.bits),
        version: truncated_u32(state.lat.bits),
        flags: truncated_u32(state.psi.bits),
    }
}

/// Holds where a result of `results` is of target `target_id`.
pub open spec fn has_result(results: Seq<SimulationResult>, target_id: u32) -> bool {
    exists|i: int| 0 <= i < results.len() && #[trigger] results[i].target_id == target_id
}

/// The place of the first result of target `target_id`, where there is one:
/// no result before it is of that target.
pub open spec fn is_first_result(results: Seq<SimulationResult>, target_id: u32, at: int) -> bool {
    &&& 0 <= at < results.len()
    &&& results[at].target_id == target_id
    &&& forall|k: int| 0 <= k < at ==> results[k].target_id != target_id
}

/// The states of one target of a simulation, handed out one by one.
#[derive(Debug, Clone, PartialEq, Eq)]
pub struct SimulationDataSource {
    pub target_result: Option<SimulationResult>,
    pub current_step: usize,
}

impl SimulationDataSource {
    /// The states that are left to hand out.
    pub open spec fn remaining(&self) -> Seq<SimulationState> {
        match self.target_result {
            Some(result) => if self.current_step <= result.final_state@.len() {
                result.final_state@.skip(self.current_step as int)
            } else {
                Seq::empty()
            },
            None => Seq::empty(),
        }
    }

    /// A source over the first result of `simulation_data` that is of
    /// target `target_id`, at its first state; an empty source where no
    /// result is of that target.
    pub fn new(simulation_data: &SimulationResultList, target_id: u32) -> (r:
        SimulationDataSource)
        ensures
            r.current_step == 0,
            !has_result(simulation_data.results@, target_id) ==> r.target_result is None,
            has_result(simulation_data.results@, target_id) ==> ({
                &&& r.target_result matches Some(found)
                &&& found.target_id == target_id
                &&& exists|at: int|
                    is_first_result(simulation_data.results@, target_id, at) && found.final_state@
                        == (#[trigger] simulation_data.results@[at]).final_state@
            }),
    {
        let mut i: usize = 0;
        while i < simulation_data.results.len()
            invariant
                i <= simulation_data.results.len(),
                forall|k: int| 0 <= k < i ==> simulation_data.results@[k].target_id != target_id,
            decreases simulation_data.results.len() - i,
        {
            if simulation_data.results[i].target_id == target_id {
                let found = SimulationResult {
                    target_id,
                    final_state: simulation_data.results[i].final_state.clone(),
                };
                assert(is_first_result(simulation_data.results@, target_id, i as int));
                return SimulationDataSource { target_result: Some(found), current_step: 0 };
            }
            i = i + 1;
        }
        SimulationDataSource { target_result: None, current_step: 0 }
    }

    /// Hands out the header of the next state, or `None` where none is
    /// left.
    pub fn next_header(&mut self) -> (r: Option<PacketHeader>)
        ensures
            old(self).remaining().len() == 0 ==> r is None && *final(self) == *old(self),
            old(self).remaining().len() > 0 ==> r == Some(header_of(old(self).remaining()[0]))
                && final(self).target_result == old(self).target_result && final(self).current_step == old(self).current_step + 1 && final(self).remaining() == old(self).remaining().skip(1),
    {
        let step = self.current_step;
        match &self.target_result {
            Some(result) => {
                if step < result.final_state.len() {
                    let state = result.final_state[step];
                    let header = PacketHeader {
                        id: state.alpha.to_u32(),
                        length: state.alt.to_u32(),
                        checksum: state.lon.to_u32(),
                        version: state.lat.to_u32(),
                        flags: state.psi.to_u32(),
                    };
                    proof {
                        assert(result.final_state@.skip(step as int)[0] == state);
                        assert(result.final_state@.skip(step as int).skip(1)
                            =~= result.final_state@.skip(step + 1));
                    }
                    self.current_step = step + 1;
                    Some(header)
                } else {
                    None
                }
            },
            None => None,
        }
    }
}

impl TargetDataSource for SimulationDataSource {
    /// Hands out the header of the next state, whatever target is asked
    /// for: the source is of one target.
    fn get_next(&mut self, _target_id: u32) -> (r: Option<PacketHeader>)
        ensures
            old(self).remaining().len() == 0 ==> r is None && *final(self) == *old(self),
            old(self).remaining().len() > 0 ==> r == Some(header_of(old(self).remaining()[0]))
                && final(self).remaining() == old(self).remaining().skip(1),
    {
        self.next_header()
    }
}

/// The text of a byte string in base64 with the standard alphabet and
/// padding.
pub uninterp spec fn base64_standard(bytes: Seq<u8>) -> Seq<char>;

/// `Engine::encode` of the `base64` crate with its `STANDARD` engine: the
/// base64 text of the bytes, which depends on the bytes alone.
#[verifier::external_body]
fn base64_encode(bytes: &[u8]) -> (r: String)
    ensures
        r@ == base64_standard(bytes@),
{
    base64::Engine::encode(&base64::engine::general_purpose::STANDARD, bytes)
}

/// What is told of one header that was streamed.
#[derive(Debug, Clone, PartialEq, Eq)]
pub struct StreamUpdate {
    pub target_id: u32,
    pub connection_id: String,
    pub header: PacketHeader,
    /// The number of headers streamed so far, this one included.
    pub step: usize,
    /// Always zero: the number of steps is not known to the stream.
    pub total_steps: usize,
    /// The bytes that were sent, as text.
    pub raw_data: String,
}

/// The update for the header `header` of target `target_id` that was sent
/// to `connection_id` as the `step`-th, with the text `raw_data` of the
/// bytes sent.
pub fn stream_update_with(
    target_id: u32,
    connection_id: &str,
    header: PacketHeader,
    step: usize,
    raw_data: String,
) -> (r: StreamUpdate)
    ensures
        r.target_id == target_id,
        r.connection_id@ == connection_id@,
        r.header == header,
        r.step == step,
        r.total_steps == 0,
        r.raw_data@ == raw_data@,
{
    StreamUpdate {
        target_id,
        connection_id: String::from_str(connection_id),
        header,
        step,
        total_steps: 0,
        raw_data,
    }
}

/// The update for the header `header` of target `target_id` that was sent
/// to `connection_id` as the `step`-th, in the bytes `sent`.
pub fn stream_update(
    target_id: u32,
    connection_id: &str,
    header: PacketHeader,
    step: usize,
    sent: &[u8],
) -> (r: StreamUpdate)
    ensures
        r.target_id == target_id,
        r.connection_id@ == connection_id@,
        r.header == header,
        r.step == step,
        r.total_steps == 0,
        r.raw_data@ == base64_standard(sent@),
{
    let raw_data = base64_encode(sent);
    stream_update_with(target_id, connection_id, header, step, raw_data)
}

/// The bytes that carry a header to a connection: the wire format of the
/// packet that holds it.
pub fn header_bytes(header: PacketHeader) -> (r: Vec<u8>)
    ensures
        r@ == (PacketView { kind: Some(KindView::Header(header)) }).bytes(),
{
    let packet = Packet { kind: Some(Kind::Header(header)) };
    packet.encode()
}

/// The targets of the results of a simulation, in order.
pub fn get_available_targets(simulation_data: &SimulationResultList) -> (r: Vec<u32>)
    ensures
        r@.len() == simulation_data.results@.len(),
        forall|i: int| 0 <= i < r@.len() ==> r@[i] == simulation_data.results@[i].target_id,
{
    let mut out: Vec<u32> = Vec::new();
    let mut i: usize = 0;
    while i < simulation_data.results.len()
        invariant
            i <= simulation_data.results.len(),
            out@.len() == i,
            forall|k: int| 0 <= k < i ==> out@[k] == simulation_data.results@[k].target_id,
        decreases simulation_data.results.len() - i,
    {
        out.push(simulation_data.results[i].target_id);
        i = i + 1;
    }
    out
}

/// The least interval of a stream, in milliseconds.
pub const MIN_STREAM_INTERVAL_MS: u64 = 10;

/// The largest interval of a stream, in milliseconds.
pub const MAX_STREAM_INTERVAL_MS: u64 = 10000;

/// Why a request to stream is refused. `config` is the place of the first
/// configuration that is at fault.
#[derive(Debug, Clone, Copy, PartialEq, Eq, Structural)]
pub enum StreamRequestError {
    /// The simulation has no results.
    NoSimulationData,
    /// The request has no configurations.
    NoStreamConfigs,
    /// The connection of a configuration is not available.
    ConnectionNotFound { config: usize },
    /// The target of a configuration has no result.
    TargetNotFound { config: usize },
    /// The interval of a configuration is below the least.
    IntervalTooFast { config: usize },
    /// The interval of a configuration is above the largest.
    IntervalTooSlow { config: usize },
}

/// Holds where the connection of the configuration is not among
/// `available`.
pub open spec fn connection_missing(config: SimulationStreamConfig, available: Seq<Seq<char>>) -> bool {
    !available.contains(config.serial_connection_id@)
}

/// Holds where the interval of the configuration is out of range.
pub open spec fn interval_out_of_range(config: SimulationStreamConfig) -> bool {
    config.stream_interval_ms < MIN_STREAM_INTERVAL_MS || config.stream_interval_ms
        > MAX_STREAM_INTERVAL_MS
}

/// The place of the first configuration whose connection is not among
/// `available`, where there is one.
pub open spec fn first_missing_connection(
    configs: Seq<SimulationStreamConfig>,
    available: Seq<Seq<char>>,
) -> int {
    choose|at: int|
        0 <= at < configs.len() && connection_missing(#[trigger] configs[at], available)
            && forall|k: int| 0 <= k < at ==> !connection_missing(#[trigger] configs[k], available)
}

/// The place of the first configuration whose target has no result, where
/// there is one.
pub open spec fn first_missing_target(
    configs: Seq<SimulationStreamConfig>,
    results: Seq<SimulationResult>,
) -> int {
    choose|at: int|
        0 <= at < configs.len() && !has_result(results, (#[trigger] configs[at]).target_id)
            && forall|k: int| 0 <= k < at ==> has_result(results, (#[trigger] configs[k]).target_id)
}

/// The place of the first configuration whose interval is out of range,
/// where there is one.
pub open spec fn first_bad_interval(configs: Seq<SimulationStreamConfig>) -> int {
    choose|at: int|
        0 <= at < configs.len() && interval_out_of_range(#[trigger] configs[at]) && forall|k: int|
            0 <= k < at ==> !interval_out_of_range(#[trigger] configs[k])
}

/// What the validation of a request gives. The checks come in this order:
/// that there are results, that there are configurations, that every
/// connection is available, that every target has a result, and that
/// every interval is in range. The first check that fails gives the error,
/// with the first configuration that fails it.
pub open spec fn validation_of(
    request: SimulationStreamRequest,
    available: Seq<Seq<char>>,
) -> Result<(), StreamRequestError> {
    let configs = request.stream_configs@;
    let results = request.simulation_data.results@;
    if results.len() == 0 {
        Err(StreamRequestError::NoSimulationData)
    } else if configs.len() == 0 {
        Err(StreamRequestError::NoStreamConfigs)
    } else if exists|i: int|
        0 <= i < configs.len() && connection_missing(#[trigger] configs[i], available) {
        Err(
            StreamRequestError::ConnectionNotFound {
                config: first_missing_connection(configs, available) as usize,
            },
        )
    } else if exists|i: int|
        0 <= i < configs.len() && !has_result(results, (#[trigger] configs[i]).target_id) {
        Err(
            StreamRequestError::TargetNotFound {
                config: first_missing_target(configs, results) as usize,
            },
        )
    } else if exists|i: int| 0 <= i < configs.len() && interval_out_of_range(#[trigger] configs[i]) {
        let at = first_bad_interval(configs);
        if configs[at].stream_interval_ms < MIN_STREAM_INTERVAL_MS {
            Err(StreamRequestError::IntervalTooFast { config: at as usize })
        } else {
            Err(StreamRequestError::IntervalTooSlow { config: at as usize })
        }
    } else {
        Ok(())
    }
}

/// Whether `item` is among `items`.
fn contains_string(items: &Vec<String>, item: &String) -> (r: bool)
    ensures
        r == string_views(items@).contains(item@),
{
    let mut i: usize = 0;
    while i < items.len()
        invariant
            i <= items.len(),
            forall|k: int| 0 <= k < i ==> items@[k]@ != item@,
        decreases items.len() - i,
    {
        if items[i] == *item {
            assert(string_views(items@)[i as int] == item@);
            return true;
        }
        i = i + 1;
    }
    assert(!string_views(items@).contains(item@)) by {
        if string_views(items@).contains(item@) {
            let k = choose|k: int|
                0 <= k < string_views(items@).len() && string_views(items@)[k] == item@;
            assert(items@[k]@ == item@);
        }
    }
    false
}

/// Whether a result of `results` is of target `target_id`.
fn contains_target(results: &Vec<SimulationResult>, target_id: u32) -> (r: bool)
    ensures
        r == has_result(results@, target_id),
{
    let mut i: usize = 0;
    while i < results.len()
        invariant
            i <= results.len(),
            forall|k: int| 0 <= k < i ==> results@[k].target_id != target_id,
        decreases results.len() - i,
    {
        if results[i].target_id == target_id {
            return true;
        }
        i = i + 1;
    }
    false
}

/// Validates a request to stream against the connections that are
/// available.
pub fn validate_stream_request(request: &SimulationStreamRequest, available: &Vec<String>) -> (r:
    Result<(), StreamRequestError>)
    ensures
        r == validation_of(*request, string_views(available@)),
{
    let ghost configs = request.stream_configs@;
    let ghost results = request.simulation_data.results@;
    let ghost names = string_views(available@);
    if request.simulation_data.results.len() == 0 {
        return Err(StreamRequestError::NoSimulationData);
    }
    if request.stream_configs.len() == 0 {
        return Err(StreamRequestError::NoStreamConfigs);
    }
    let n = request.stream_configs.len();
    let mut i: usize = 0;
    while i < n
        invariant
            i <= n,
            0 < n == request.stream_configs@.len(),
            request.simulation_data.results@.len() > 0,
            configs == request.stream_configs@,
            results == request.simulation_data.results@,
            names == string_views(available@),
            forall|k: int| 0 <= k < i ==> !connection_missing(#[trigger] configs[k], names),
        decreases n - i,
    {
        if !contains_string(available, &request.stream_configs[i].serial_connection_id) {
            proof {
                assert(connection_missing(configs[i as int], names));
                let at = first_missing_connection(configs, names);
                assert(at == i) by {
                    if at < i {
                        assert(!connection_missing(configs[at], names));
                    }
                }
            }
            return Err(StreamRequestError::ConnectionNotFound { config: i });
        }
        i = i + 1;
    }
    let mut i: usize = 0;
    while i < n
        invariant
            i <= n,
            0 < n == request.stream_configs@.len(),
            request.simulation_data.results@.len() > 0,
            configs == request.stream_configs@,
            results == request.simulation_data.results@,
            names == string_views(available@),
            forall|k: int| 0 <= k < n ==> !connection_missing(#[trigger] configs[k], names),
            forall|k: int| 0 <= k < i ==> has_result(results, (#[trigger] configs[k]).target_id),
        decreases n - i,
    {
        if !contains_target(&request.simulation_data.results, request.stream_configs[i].target_id) {
            proof {
                assert(!has_result(results, configs[i as int].target_id));
                let at = first_missing_target(configs, results);
                assert(at == i) by {
                    if at < i {
                        assert(has_result(results, configs[at].target_id));
                    }
                }
            }
            return Err(StreamRequestError::TargetNotFound { config: i });
        }
        i = i + 1;
    }
    let mut i: usize = 0;
    while i < n
        invariant
            i <= n,
            0 < n == request.stream_configs@.len(),
            request.simulation_data.results@.len() > 0,
            configs == request.stream_configs@,
            results == request.simulation_data.results@,
            names == string_views(available@),
            forall|k: int| 0 <= k < n ==> !connection_missing(#[trigger] configs[k], names),
            forall|k: int| 0 <= k < n ==> has_result(results, (#[trigger] configs[k]).target_id),
            forall|k: int| 0 <= k < i ==> !interval_out_of_range(#[trigger] configs[k]),
        decreases n - i,
    {
        let interval = request.stream_configs[i].stream_interval_ms;
        if interval < MIN_STREAM_INTERVAL_MS || interval > MAX_STREAM_INTERVAL_MS {
            proof {
                assert(interval_out_of_range(configs[i as int]));
                let at = first_bad_interval(configs);
                assert(at == i) by {
                    if at < i {
                        assert(!interval_out_of_range(configs[at]));
                    }
                }
            }
            if interval < MIN_STREAM_INTERVAL_MS {
                return Err(StreamRequestError::IntervalTooFast { config: i });
            } else {
                return Err(StreamRequestError::IntervalTooSlow { config: i });
            }
        }
        i = i + 1;
    }
    Ok(())
}

/// The key of the stream of target `target_id` to `connection`.
pub open spec fn stream_key_text(target_id: u32, connection: Seq<char>) -> Seq<char> {
    crate::text::decimal(target_id as nat) + "_"@ + connection
}

/// The key of the stream of target `target_id` to `connection_id`.
pub fn stream_key(target_id: u32, connection_id: &str) -> (r: String)
    ensures
        r@ == stream_key_text(target_id, connection_id@),
{
    let mut out = crate::text::decimal_string(target_id as u64);
    out.append("_");
    out.append(connection_id);
    out
}

/// The keys of the streams of the configurations, in order.
pub open spec fn stream_keys(configs: Seq<SimulationStreamConfig>) -> Seq<Seq<char>> {
    Seq::new(
        configs.len(),
        |i: int| stream_key_text(configs[i].target_id, configs[i].serial_connection_id@),
    )
}

/// The ids of the connections, in order.
pub open spec fn connection_ids(connections: Seq<crate::registry::Connection>) -> Seq<Seq<char>> {
    Seq::new(connections.len(), |i: int| connections[i].id@)
}

/// The streams of simulation states to serial connections that run.
#[derive(Debug, Clone, PartialEq, Eq)]
pub struct SimulationStreamer {
    /// The keys of the streams, in the order in which they were started. A
    /// key that is asked for twice stands twice, for one task each.
    pub active_streams: Vec<String>,
}

impl SimulationStreamer {
    /// A streamer without streams.
    pub fn new() -> (r: SimulationStreamer)
        ensures
            r.active_streams@.len() == 0,
    {
        SimulationStreamer { active_streams: Vec::new() }
    }

    /// The ids of the connections of `manager`, in order.
    pub fn get_available_connections(manager: &Manager) -> (r: Vec<String>)
        ensures
            string_views(r@) == connection_ids(manager.connections@),
    {
        let mut out: Vec<String> = Vec::new();
        let mut i: usize = 0;
        while i < manager.connections.len()
            invariant
                i <= manager.connections.len(),
                out@.len() == i,
                forall|k: int|
                    0 <= k < i ==> (#[trigger] out@[k])@ == manager.connections@[k].id@,
            decreases manager.connections.len() - i,
        {
            out.push(manager.connections[i].id.clone());
            i = i + 1;
        }
        assert(string_views(out@) =~= connection_ids(manager.connections@));
        out
    }

    /// The targets of the results of a simulation, in order.
    pub fn get_available_targets(simulation_data: &SimulationResultList) -> (r: Vec<u32>)
        ensures
            r@.len() == simulation_data.results@.len(),
            forall|i: int| 0 <= i < r@.len() ==> r@[i] == simulation_data.results@[i].target_id,
    {
        self::get_available_targets(simulation_data)
    }

    /// Validates a request against the connections of `manager`.
    pub fn validate_stream_request(request: &SimulationStreamRequest, manager: &Manager) -> (r:
        Result<(), StreamRequestError>)
        ensures
            r == validation_of(*request, connection_ids(manager.connections@)),
    {
        let available = Self::get_available_connections(manager);
        validate_stream_request(request, &available)
    }

    /// Starts the streams of a request: the streams that ran are stopped,
    /// and where the request is valid, one stream for each configuration
    /// runs, under its key. The keys that ran before are handed out; their
    /// tasks are to be aborted.
    pub fn start_simulation_streaming(
        &mut self,
        request: &SimulationStreamRequest,
        manager: &Manager,
    ) -> (r: (Vec<String>, Result<(), StreamRequestError>))
        ensures
            r.0 == old(self).active_streams,
            r.1 is Err ==> final(self).active_streams@.len() == 0,
            r.1 is Ok ==> string_views(final(self).active_streams@) == stream_keys(
                request.stream_configs@,
            ),
            r.1 == validation_of(*request, connection_ids(manager.connections@)),
    {
        let stopped = self.stop_all_streams();
        let valid = Self::validate_stream_request(request, manager);
        if valid.is_ok() {
            let mut i: usize = 0;
            while i < request.stream_configs.len()
                invariant
                    i <= request.stream_configs.len(),
                    self.active_streams@.len() == i,
                    forall|k: int|
                        0 <= k < i ==> (#[trigger] self.active_streams@[k])@ == stream_key_text(
                            request.stream_configs@[k].target_id,
                            request.stream_configs@[k].serial_connection_id@,
                        ),
                decreases request.stream_configs.len() - i,
            {
                let key = stream_key(
                    request.stream_configs[i].target_id,
                    request.stream_configs[i].serial_connection_id.as_str(),
                );
                self.active_streams.push(key);
                i = i + 1;
            }
            assert(string_views(self.active_streams@) =~= stream_keys(request.stream_configs@));
        }
        (stopped, valid)
    }

    /// Stops every stream; the keys are handed out, and their tasks are to
    /// be aborted.
    pub fn stop_all_streams(&mut self) -> (r: Vec<String>)
        ensures
            r == old(self).active_streams,
            final(self).active_streams@.len() == 0,
    {
        let mut stopped: Vec<String> = Vec::new();
        core::mem::swap(&mut stopped, &mut self.active_streams);
        stopped
    }

    /// Stops the stream of target `target_id` to `connection_id`; its task
    /// is to be aborted. Tells whether it ran.
    pub fn stop_stream(&mut self, target_id: u32, connection_id: &str) -> (r: bool)
        ensures
            r == string_views(old(self).active_streams@).contains(
                stream_key_text(target_id, connection_id@),
            ),
            string_views(final(self).active_streams@) == crate::shares::without(
                string_views(old(self).active_streams@),
                stream_key_text(target_id, connection_id@),
            ),
    {
        let key = stream_key(target_id, connection_id);
        crate::shares::take_string(&mut self.active_streams, key.as_str())
    }

    /// The keys of the streams that run.
    pub fn get_active_streams(&self) -> (r: Vec<String>)
        ensures
            r@ == self.active_streams@,
    {
        let mut out: Vec<String> = Vec::new();
        let mut i: usize = 0;
        while i < self.active_streams.len()
            invariant
                i <= self.active_streams.len(),
                out@ == self.active_streams@.take(i as int),
            decreases self.active_streams.len() - i,
        {
            out.push(self.active_streams[i].clone());
            assert(out@ =~= self.active_streams@.take(i + 1));
            i = i + 1;
        }
        assert(self.active_streams@.take(i as int) =~= self.active_streams@);
        out
    }
}

/// One of the three kinds of packet that a caller may build by name.
#[derive(Debug, Clone, PartialEq, Eq)]
pub enum PacketWrapper {
    Header(PacketHeader),
    Checksum(PacketChecksum),
    Payload(PacketPayload),
}

/// The text in lower case, as `str::to_lowercase` gives it.
pub uninterp spec fn lowercase_of(text: Seq<char>) -> Seq<char>;

/// `str::to_lowercase`: the text with every character in lower case,
/// which depends on the text alone.
#[verifier::external_body]
fn to_lowercase(text: &str) -> (r: String)
    ensures
        r@ == lowercase_of(text@),
{
    text.to_lowercase()
}

impl PacketWrapper {
    /// Holds where the wrapper is of the kind that `lowered` names, with
    /// every part of its message at its default.
    pub open spec fn is_default_named(self, lowered: Seq<char>) -> bool {
        match self {
            PacketWrapper::Header(m) => lowered == "header"@ && m == PacketHeader::empty(),
            PacketWrapper::Payload(m) => lowered == "payload"@ && m@ == PacketPayload::empty(),
            PacketWrapper::Checksum(m) => lowered == "checksum"@ && m@ == PacketChecksum::empty(),
        }
    }

    /// The wrapper whose name, in lower case, is `lowered`; refused with a
    /// message that holds the name as it was `given` where `lowered` names
    /// no kind.
    pub fn from_lowered(lowered: &str, given: &str) -> (r: Result<PacketWrapper, String>)
        ensures
            match r {
                Ok(wrapper) => wrapper.is_default_named(lowered@),
                Err(message) => lowered@ != "header"@ && lowered@ != "payload"@ && lowered@
                    != "checksum"@ && message@ == "Unknown packet type: "@ + given@,
            },
    {
        let name = String::from_str(lowered);
        if name == String::from_str("header") {
            Ok(PacketWrapper::Header(PacketHeader::new()))
        } else if name == String::from_str("payload") {
            Ok(PacketWrapper::Payload(PacketPayload::new()))
        } else if name == String::from_str("checksum") {
            Ok(PacketWrapper::Checksum(PacketChecksum::new()))
        } else {
            let mut message = String::from_str("Unknown packet type: ");
            message.append(given);
            Err(message)
        }
    }

    /// The wrapper that `name` stands for, whatever the case of its
    /// letters.
    pub fn from_name(name: &str) -> (r: Result<PacketWrapper, String>)
        ensures
            match r {
                Ok(wrapper) => wrapper.is_default_named(lowercase_of(name@)),
                Err(message) => lowercase_of(name@) != "header"@ && lowercase_of(name@)
                    != "payload"@ && lowercase_of(name@) != "checksum"@ && message@
                    == "Unknown packet type: "@ + name@,
            },
    {
        let lowered = to_lowercase(name);
        Self::from_lowered(lowered.as_str(), name)
    }

    /// The packet that the wrapper stands for.
    pub open spec fn packet(self) -> PacketView {
        match self {
            PacketWrapper::Header(m) => PacketView { kind: Some(KindView::Header(m)) },
            PacketWrapper::Checksum(m) => PacketView { kind: Some(KindView::Checksum(m@)) },
            PacketWrapper::Payload(m) => PacketView { kind: Some(KindView::Payload(m@)) },
        }
    }

    /// The wire format of the packet that the wrapper stands for. It is
    /// there for every wrapper.
    pub fn encode_prost(self) -> (r: Result<Vec<u8>, String>)
        ensures
            r matches Ok(bytes) && bytes@ == self.packet().bytes(),
    {
        let packet = match self {
            PacketWrapper::Header(m) => Packet { kind: Some(Kind::Header(m)) },
            PacketWrapper::Checksum(m) => Packet { kind: Some(Kind::Checksum(m)) },
            PacketWrapper::Payload(m) => Packet { kind: Some(Kind::Payload(m)) },
        };
        Ok(packet.encode())
    }
}

impl std::str::FromStr for PacketWrapper {
    type Err = String;

    /// The wrapper that `s` stands for, whatever the case of its letters:
    /// what `from_name` gives.
    fn from_str(s: &str) -> (r: Result<PacketWrapper, String>)
        ensures
            match r {
                Ok(wrapper) => wrapper.is_default_named(lowercase_of(s@)),
                Err(message) => lowercase_of(s@) != "header"@ && lowercase_of(s@) != "payload"@
                    && lowercase_of(s@) != "checksum"@ && message@ == "Unknown packet type: "@
                    + s@,
            },
    {
        PacketWrapper::from_name(s)
    }
}

} // verus!
