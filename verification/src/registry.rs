//! The connections of the router: each a transport under an id.

use crate::text::{append_decimal, decimal};
use crate::transport::{
    bytes_view, SendAction, SerialTransport, SocketAddress, TransportError, UdpTransport,
};
use vstd::prelude::*;
use vstd::string::StringExecFns;

verus! {

/// A transport of one of the two kinds.
#[derive(Debug, Clone, PartialEq, Eq)]
pub enum Transport {
    Serial(SerialTransport),
    Udp(UdpTransport),
}

impl Transport {
    /// Holds of a transport whose parts are well formed.
    pub open spec fn wf(&self) -> bool {
        match *self {
            Transport::Serial(_) => true,
            Transport::Udp(udp) => udp.wf(),
        }
    }

    /// The local address of a datagram endpoint; `None` for a serial port.
    pub open spec fn udp_local(&self) -> Option<SocketAddress> {
        match *self {
            Transport::Serial(_) => None,
            Transport::Udp(udp) => Some(udp.local_addr),
        }
    }

    /// The number of frames received.
    pub open spec fn received(&self) -> usize {
        match *self {
            Transport::Serial(serial) => serial.packet_received_count,
            Transport::Udp(udp) => udp.packet_received_count,
        }
    }

    /// The number of frames sent.
    pub open spec fn sent(&self) -> usize {
        match *self {
            Transport::Serial(serial) => serial.packet_sent_count,
            Transport::Udp(udp) => udp.packet_sent_count,
        }
    }

    /// The name of the transport: the port and the baud rate, or the local
    /// address.
    pub open spec fn name_text(&self) -> Seq<char> {
        match *self {
            Transport::Serial(serial) => "Serial("@ + serial.port_name@ + ":"@ + decimal(
                serial.baud_rate as nat,
            ) + ")"@,
            Transport::Udp(udp) => "Udp("@ + udp.local_text@ + ")"@,
        }
    }

    /// What a send through the transport has to do, or why it cannot be
    /// done.
    pub open spec fn send_plan(&self) -> Result<SendAction, TransportError> {
        match *self {
            Transport::Serial(serial) => if serial.writer_open {
                Ok(SendAction::WriteAndFlush)
            } else {
                Err(TransportError::WriterNotInitialized)
            },
            Transport::Udp(udp) => match udp.remote_addr {
                Some(remote) => Ok(SendAction::SendDatagram { remote }),
                None => Err(TransportError::RemoteAddressNotSet),
            },
        }
    }

    /// The transport with both counters at zero.
    pub open spec fn with_counters_reset(&self) -> Transport {
        match *self {
            Transport::Serial(serial) => Transport::Serial(
                SerialTransport { packet_received_count: 0, packet_sent_count: 0, ..serial },
            ),
            Transport::Udp(udp) => Transport::Udp(
                UdpTransport { packet_received_count: 0, packet_sent_count: 0, ..udp },
            ),
        }
    }

    /// The transport with one more frame sent.
    pub open spec fn with_one_sent(&self) -> Transport {
        match *self {
            Transport::Serial(serial) => Transport::Serial(
                SerialTransport {
                    packet_sent_count: serial.packet_sent_count.wrapping_add(1),
                    ..serial
                },
            ),
            Transport::Udp(udp) => Transport::Udp(
                UdpTransport { packet_sent_count: udp.packet_sent_count.wrapping_add(1), ..udp },
            ),
        }
    }

    /// The transport after it was stopped: the serial writer is dropped,
    /// the datagram receive loop ended.
    pub open spec fn stopped(&self) -> Transport {
        match *self {
            Transport::Serial(serial) => Transport::Serial(
                SerialTransport { writer_open: false, ..serial },
            ),
            Transport::Udp(udp) => Transport::Udp(UdpTransport { running: false, ..udp }),
        }
    }

    /// The name of the transport.
    pub fn name(&self) -> (r: String)
        ensures
            r@ == self.name_text(),
    {
        match self {
            Transport::Serial(serial) => {
                let mut out = String::from_str("Serial(");
                out.append(serial.port_name.as_str());
                out.append(":");
                append_decimal(&mut out, serial.baud_rate as u64);
                out.append(")");
                out
            },
            Transport::Udp(udp) => {
                let mut out = String::from_str("Udp(");
                out.append(udp.local_text.as_str());
                out.append(")");
                out
            },
        }
    }

    /// The number of frames received.
    pub fn get_packet_received_count(&self) -> (r: usize)
        ensures
            r == self.received(),
    {
        match self {
            Transport::Serial(serial) => serial.packet_received_count,
            Transport::Udp(udp) => udp.packet_received_count,
        }
    }

    /// The number of frames sent.
    pub fn get_packet_sent_count(&self) -> (r: usize)
        ensures
            r == self.sent(),
    {
        match self {
            Transport::Serial(serial) => serial.packet_sent_count,
            Transport::Udp(udp) => udp.packet_sent_count,
        }
    }

    /// Sets both counters to zero.
    pub fn reset_packet_counters(&mut self)
        ensures
            *final(self) == old(self).with_counters_reset(),
    {
        match self {
            Transport::Serial(serial) => {
                serial.packet_received_count = 0;
                serial.packet_sent_count = 0;
            },
            Transport::Udp(udp) => {
                udp.packet_received_count = 0;
                udp.packet_sent_count = 0;
            },
        }
    }

    /// Stops the transport. Stopping a stopped transport changes nothing.
    pub fn stop(&mut self)
        ensures
            *final(self) == old(self).stopped(),
    {
        match self {
            Transport::Serial(serial) => {
                serial.writer_open = false;
            },
            Transport::Udp(udp) => {
                udp.running = false;
            },
        }
    }

    /// What to do to send through the transport, or why it cannot be done.
    pub fn prepare_send(&self) -> (r: Result<SendAction, TransportError>)
        ensures
            r == self.send_plan(),
    {
        match self {
            Transport::Serial(serial) => serial.prepare_send(),
            Transport::Udp(udp) => udp.prepare_send(),
        }
    }

    /// Counts one frame as sent, after the send succeeded.
    pub fn confirm_sent(&mut self)
        ensures
            *final(self) == old(self).with_one_sent(),
    {
        match self {
            Transport::Serial(serial) => {
                serial.packet_sent_count = serial.packet_sent_count.wrapping_add(1);
            },
            Transport::Udp(udp) => {
                udp.packet_sent_count = udp.packet_sent_count.wrapping_add(1);
            },
        }
    }

    /// The bytes of the last frame that a serial port received; a datagram
    /// endpoint keeps none.
    pub fn last_frame(&self) -> (r: Option<Vec<u8>>)
        ensures
            bytes_view(r) == match *self {
                Transport::Serial(serial) => bytes_view(serial.last_data),
                Transport::Udp(_) => None,
            },
    {
        match self {
            Transport::Serial(serial) => match &serial.last_data {
                Some(data) => Some(data.clone()),
                None => None,
            },
            Transport::Udp(_) => None,
        }
    }
}

/// A transport under its id.
#[derive(Debug, Clone, PartialEq, Eq)]
pub struct Connection {
    pub id: String,
    pub transport: Transport,
}

/// The id and the name of a connection, as they are listed.
#[derive(Debug, Clone, PartialEq, Eq)]
pub struct ConnectionInfo {
    pub id: String,
    pub name: String,
}

/// Holds where a connection of `connections` has the id `id`.
pub open spec fn has_id(connections: Seq<Connection>, id: Seq<char>) -> bool {
    exists|i: int| 0 <= i < connections.len() && #[trigger] connections[i].id@ == id
}

/// The place of the connection with the id `id`, where there is one.
pub open spec fn place_of_id(connections: Seq<Connection>, id: Seq<char>) -> int {
    choose|i: int| 0 <= i < connections.len() && #[trigger] connections[i].id@ == id
}

/// Holds where no two connections have the same id.
pub open spec fn distinct_ids(connections: Seq<Connection>) -> bool {
    forall|i: int, j: int|
        0 <= i < connections.len() && 0 <= j < connections.len() && i != j
            ==> connections[i].id@ != connections[j].id@
}

/// Holds where a datagram endpoint of `connections` is bound to `addr`.
pub open spec fn address_in_use(connections: Seq<Connection>, addr: SocketAddress) -> bool {
    exists|i: int|
        0 <= i < connections.len() && #[trigger] connections[i].transport.udp_local() == Some(
            addr,
        )
}

/// Holds where no two datagram endpoints are bound to the same address.
pub open spec fn distinct_addresses(connections: Seq<Connection>) -> bool {
    forall|i: int, j: int|
        0 <= i < connections.len() && 0 <= j < connections.len() && i != j
            && connections[i].transport.udp_local() is Some
            ==> connections[i].transport.udp_local() != connections[j].transport.udp_local()
}

/// Holds where every transport is well formed.
pub open spec fn transports_wf(connections: Seq<Connection>) -> bool {
    forall|i: int| 0 <= i < connections.len() ==> (#[trigger] connections[i]).transport.wf()
}

/// Holds of the connections that a registry may hold: ids and bound
/// addresses are distinct, and every transport is well formed.
pub open spec fn registry_wf(connections: Seq<Connection>) -> bool {
    distinct_ids(connections) && distinct_addresses(connections) && transports_wf(connections)
}

/// The place of the connection with the id `id`, if there is one.
pub fn find_connection(connections: &Vec<Connection>, id: &str) -> (r: Option<usize>)
    ensures
        match r {
            Some(i) => i < connections.len() && connections@[i as int].id@ == id@,
            None => !has_id(connections@, id@),
        },
{
    let key = String::from_str(id);
    let mut i: usize = 0;
    while i < connections.len()
        invariant
            i <= connections.len(),
            key@ == id@,
            forall|k: int| 0 <= k < i ==> connections@[k].id@ != id@,
        decreases connections.len() - i,
    {
        if connections[i].id == key {
            return Some(i);
        }
        i = i + 1;
    }
    None
}

/// Whether a datagram endpoint of `connections` is bound to `addr`.
pub fn find_address(connections: &Vec<Connection>, addr: SocketAddress) -> (r: bool)
    ensures
        r == address_in_use(connections@, addr),
{
    let mut i: usize = 0;
    while i < connections.len()
        invariant
            i <= connections.len(),
            forall|k: int| 0 <= k < i ==> connections@[k].transport.udp_local() != Some(addr),
        decreases connections.len() - i,
    {
        match &connections[i].transport {
            Transport::Udp(udp) => {
                if udp.local_addr == addr {
                    assert(connections@[i as int].transport.udp_local() == Some(addr));
                    return true;
                }
            },
            Transport::Serial(_) => {},
        }
        i = i + 1;
    }
    false
}

/// Adding a connection with a new id, and with an address that is not in
/// use, keeps a registry well formed.
pub proof fn lemma_push_keeps_wf(connections: Seq<Connection>, added: Connection)
    requires
        registry_wf(connections),
        added.transport.wf(),
        !has_id(connections, added.id@),
        added.transport.udp_local() matches Some(addr) ==> !address_in_use(connections, addr),
    ensures
        registry_wf(connections.push(added)),
{
    let after = connections.push(added);
    assert forall|i: int, j: int|
        0 <= i < after.len() && 0 <= j < after.len() && i != j implies after[i].id@
        != after[j].id@ by {
        if i < connections.len() && j < connections.len() {
        } else if i < connections.len() {
            assert(connections[i].id@ != added.id@);
        } else {
            assert(connections[j].id@ != added.id@);
        }
    }
    assert forall|i: int, j: int|
        0 <= i < after.len() && 0 <= j < after.len() && i != j
            && after[i].transport.udp_local() is Some implies after[i].transport.udp_local()
        != after[j].transport.udp_local() by {
        if i < connections.len() && j < connections.len() {
        } else if i < connections.len() {
            assert(connections[i].transport.udp_local() == after[i].transport.udp_local());
        } else {
            assert(connections[j].transport.udp_local() == after[j].transport.udp_local());
        }
    }
}

/// Removing a connection keeps a registry well formed, and takes its id
/// out of it.
pub proof fn lemma_remove_keeps_wf(connections: Seq<Connection>, at: int)
    requires
        registry_wf(connections),
        0 <= at < connections.len(),
    ensures
        registry_wf(connections.remove(at)),
        !has_id(connections.remove(at), connections[at].id@),
        forall|id: Seq<char>|
            id != connections[at].id@ ==> has_id(connections.remove(at), id) == has_id(
                connections,
                id,
            ),
        connections[at].transport.udp_local() matches Some(addr) ==> !address_in_use(
            connections.remove(at),
            addr,
        ),
{
    let after = connections.remove(at);
    assert forall|k: int| 0 <= k < after.len() implies after[k] == connections[if k < at {
        k
    } else {
        k + 1
    }] by {}
    assert forall|id: Seq<char>| id != connections[at].id@ implies has_id(after, id) == has_id(
        connections,
        id,
    ) by {
        if has_id(connections, id) {
            let i = place_of_id(connections, id);
            let k = if i < at {
                i
            } else {
                i - 1
            };
            assert(after[k].id@ == id);
        }
        if has_id(after, id) {
            let k = place_of_id(after, id);
            let i = if k < at {
                k
            } else {
                k + 1
            };
            assert(connections[i].id@ == id);
        }
    }
    if has_id(after, connections[at].id@) {
        let k = place_of_id(after, connections[at].id@);
        let i = if k < at {
            k
        } else {
            k + 1
        };
        assert(connections[i].id@ == connections[at].id@);
    }
    if let Some(addr) = connections[at].transport.udp_local() {
        if address_in_use(after, addr) {
            let k = choose|k: int|
                0 <= k < after.len() && #[trigger] after[k].transport.udp_local() == Some(addr);
            let i = if k < at {
                k
            } else {
                k + 1
            };
            assert(connections[i].transport.udp_local() == Some(addr));
        }
    }
}

} // verus!
