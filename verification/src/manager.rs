//! The manager: the registry of connections, with the keys of the shares
//! and simulation streams that run on them.

use crate::registry::{
    address_in_use, distinct_ids, find_address, find_connection, has_id, lemma_push_keeps_wf,
    lemma_remove_keeps_wf, place_of_id, registry_wf, Connection, ConnectionInfo, Transport,
};
use crate::shares::{
    distinct, key_views, keys_not_to, keys_to, lemma_keys_split, lemma_without, string_views,
    take_keys_to, take_string, without, ShareKey,
};
use crate::transport::{SendAction, SerialTransport, SocketAddress, TransportError, UdpTransport};
use vstd::prelude::*;
use vstd::string::StringExecFns;

verus! {

/// Why the manager refuses an operation.
#[derive(Debug, Clone, Copy, PartialEq, Eq, Structural)]
pub enum ManagerError {
    /// A connection with the id is registered already.
    DuplicateId,
    /// No connection with the id is registered, so none can be stopped.
    ConnectionNotFound,
    /// No connection with the id is registered, so no bytes can be sent or
    /// shared to it.
    NoTransport,
    /// No connection with the id is registered, so it has no remote address
    /// to set.
    NoConnection,
    /// The connection is not a datagram endpoint.
    NotUdp,
    /// A registered datagram endpoint is bound to the address.
    AddressInUse,
    /// No share with the key is registered.
    ShareNotFound,
    /// The transport cannot send.
    Transport(TransportError),
}

impl ManagerError {
    /// The message of the error about `subject`, which is the id or the
    /// address that the operation was about.
    pub open spec fn text(self, subject: Seq<char>) -> Seq<char> {
        match self {
            ManagerError::DuplicateId => "Connection ID '"@ + subject + "' already exists"@,
            ManagerError::ConnectionNotFound => "Connection ID '"@ + subject + "' not found"@,
            ManagerError::NoTransport => "No transport found for ID: "@ + subject,
            ManagerError::NoConnection => "No connection found for id "@ + subject,
            ManagerError::NotUdp => "Connection is not a UdpTransport or is shared"@,
            ManagerError::AddressInUse => "Socket address "@ + subject
                + " is already in use. Please stop any existing connections or simulation streaming using this address first."@,
            ManagerError::ShareNotFound => "Share task not found"@,
            ManagerError::Transport(e) => e.text(),
        }
    }

    /// The message of the error about `subject`.
    pub fn message(&self, subject: &str) -> (r: String)
        ensures
            r@ == self.text(subject@),
    {
        match self {
            ManagerError::DuplicateId => {
                let mut out = String::from_str("Connection ID '");
                out.append(subject);
                out.append("' already exists");
                out
            },
            ManagerError::ConnectionNotFound => {
                let mut out = String::from_str("Connection ID '");
                out.append(subject);
                out.append("' not found");
                out
            },
            ManagerError::NoTransport => {
                let mut out = String::from_str("No transport found for ID: ");
                out.append(subject);
                out
            },
            ManagerError::NoConnection => {
                let mut out = String::from_str("No connection found for id ");
                out.append(subject);
                out
            },
            ManagerError::NotUdp => String::from_str(
                "Connection is not a UdpTransport or is shared",
            ),
            ManagerError::AddressInUse => {
                let mut out = String::from_str("Socket address ");
                out.append(subject);
                out.append(
                    " is already in use. Please stop any existing connections or simulation streaming using this address first.",
                );
                out
            },
            ManagerError::ShareNotFound => String::from_str("Share task not found"),
            ManagerError::Transport(e) => e.message(),
        }
    }
}

/// The registry of connections and of the tasks that run on them.
#[derive(Debug, Clone, PartialEq, Eq)]
pub struct Manager {
    /// The connections, in the order in which they were added.
    pub connections: Vec<Connection>,
    /// The shares between two connections that hold a channel.
    pub active_shares: Vec<ShareKey>,
    /// The shares that hold a task.
    pub share_tasks: Vec<ShareKey>,
    /// The connections on which a simulation stream plays.
    pub simulation_stream_tasks: Vec<String>,
    /// The shares that hold the raised timer resolution: those of
    /// `share_tasks` that take the precision path.
    pub timer_shares: Vec<ShareKey>,
}

/// What is left to do after a connection was taken out of the registry.
#[derive(Debug, Clone, PartialEq, Eq)]
pub struct StopPlan {
    /// The transport that was registered, marked as stopped; its port or
    /// socket is to be closed.
    pub transport: Transport,
    /// The shares whose task is to be aborted: those that went to the
    /// connection.
    pub aborted_shares: Vec<ShareKey>,
    /// Whether a simulation stream played on the connection and is to be
    /// aborted.
    pub aborted_stream: bool,
    /// How often the raised timer resolution is to be released: once for
    /// each aborted share that held it.
    pub timer_releases: usize,
}

/// Replacing a connection by one with the same id and the same bound
/// address keeps a registry well formed and its ids and addresses as they
/// are.
pub proof fn lemma_update_keeps_wf(connections: Seq<Connection>, at: int, next: Connection)
    requires
        registry_wf(connections),
        0 <= at < connections.len(),
        next.id@ == connections[at].id@,
        next.transport.udp_local() == connections[at].transport.udp_local(),
        next.transport.wf(),
    ensures
        registry_wf(connections.update(at, next)),
        forall|id: Seq<char>| has_id(connections.update(at, next), id) == has_id(connections, id),
        forall|addr: SocketAddress|
            address_in_use(connections.update(at, next), addr) == address_in_use(
                connections,
                addr,
            ),
{
    let after = connections.update(at, next);
    assert forall|k: int| 0 <= k < after.len() implies (#[trigger] after[k]).id@
        == connections[k].id@ && after[k].transport.udp_local()
        == connections[k].transport.udp_local() by {}
    assert forall|id: Seq<char>| has_id(after, id) == has_id(connections, id) by {
        if has_id(connections, id) {
            let i = place_of_id(connections, id);
            assert(after[i].id@ == id);
        }
        if has_id(after, id) {
            let i = place_of_id(after, id);
            assert(connections[i].id@ == id);
        }
    }
    assert forall|addr: SocketAddress|
        address_in_use(after, addr) == address_in_use(connections, addr) by {
        if address_in_use(connections, addr) {
            let i = choose|i: int|
                0 <= i < connections.len() && #[trigger] connections[i].transport.udp_local()
                    == Some(addr);
            assert(after[i].transport.udp_local() == Some(addr));
        }
        if address_in_use(after, addr) {
            let i = choose|i: int|
                0 <= i < after.len() && #[trigger] after[i].transport.udp_local() == Some(addr);
            assert(connections[i].transport.udp_local() == Some(addr));
        }
    }
    assert forall|i: int, j: int|
        0 <= i < after.len() && 0 <= j < after.len() && i != j implies after[i].id@
        != after[j].id@ by {
        assert(connections[i].id@ != connections[j].id@);
    }
    assert forall|i: int, j: int|
        0 <= i < after.len() && 0 <= j < after.len() && i != j
            && after[i].transport.udp_local() is Some implies after[i].transport.udp_local()
        != after[j].transport.udp_local() by {
        assert(connections[i].transport.udp_local() != connections[j].transport.udp_local());
    }
}

/// In a well-formed registry an id stands at one place only.
pub proof fn lemma_id_stands_once(connections: Seq<Connection>, id: Seq<char>)
    requires
        registry_wf(connections),
        has_id(connections, id),
    ensures
        forall|i: int|
            0 <= i < connections.len() ==> ((#[trigger] connections[i]).id@ == id <==> i
                == place_of_id(connections, id)),
{
}

/// A connection that is registered is listed exactly once: where `listed`
/// gives the ids of a well-formed registry in order, one place of it, and
/// no other, holds the id.
pub proof fn lemma_listed_exactly_once(
    connections: Seq<Connection>,
    listed: Seq<ConnectionInfo>,
    id: Seq<char>,
)
    requires
        registry_wf(connections),
        has_id(connections, id),
        listed.len() == connections.len(),
        forall|i: int| 0 <= i < listed.len() ==> (#[trigger] listed[i]).id@ == connections[i].id@,
    ensures
        exists|at: int|
            0 <= at < listed.len() && (#[trigger] listed[at]).id@ == id && forall|other: int|
                0 <= other < listed.len() && (#[trigger] listed[other]).id@ == id ==> other == at,
{
    let at = place_of_id(connections, id);
    assert(listed[at].id@ == id);
    assert forall|other: int|
        0 <= other < listed.len() && (#[trigger] listed[other]).id@ == id implies other == at by {
        assert(connections[other].id@ == id);
    }
}

/// The datagram endpoints of a well-formed registry are bound to
/// addresses that differ from one another.
pub proof fn lemma_addresses_differ(connections: Seq<Connection>, i: int, j: int)
    requires
        registry_wf(connections),
        0 <= i < connections.len(),
        0 <= j < connections.len(),
        i != j,
        connections[i].transport is Udp,
        connections[j].transport is Udp,
    ensures
        connections[i].transport->Udp_0.local_addr != connections[j].transport->Udp_0.local_addr,
{
    assert(connections[i].transport.udp_local() is Some);
    assert(connections[i].transport.udp_local() != connections[j].transport.udp_local());
}

/// Adding a connection keeps the connections that were registered.
pub proof fn lemma_push_keeps_ids(connections: Seq<Connection>, added: Connection, id: Seq<char>)
    ensures
        has_id(connections, id) ==> has_id(connections.push(added), id),
        has_id(connections.push(added), added.id@),
{
    let after = connections.push(added);
    if has_id(connections, id) {
        let at = place_of_id(connections, id);
        assert(after[at].id@ == id);
    }
    assert(after[connections.len() as int].id@ == added.id@);
}

impl Manager {
    /// Holds of a manager whose registry is well formed and whose lists of
    /// keys hold no key twice, as the functions of this type make and keep
    /// it.
    pub open spec fn wf(&self) -> bool {
        &&& registry_wf(self.connections@)
        &&& distinct(key_views(self.active_shares@))
        &&& distinct(key_views(self.share_tasks@))
        &&& distinct(string_views(self.simulation_stream_tasks@))
        &&& distinct(key_views(self.timer_shares@))
        &&& forall|key: (Seq<char>, Seq<char>)| #[trigger]
            key_views(self.timer_shares@).contains(key) ==> key_views(self.share_tasks@).contains(
                key,
            )
    }

    /// How many shares hold the raised timer resolution.
    pub open spec fn timer_holds(&self) -> nat {
        self.timer_shares@.len()
    }

    /// How many shares hold the raised timer resolution; it is at its
    /// baseline where none does.
    pub fn timer_users(&self) -> (r: usize)
        ensures
            r == self.timer_holds(),
    {
        self.timer_shares.len()
    }

    /// A manager without connections and tasks.
    pub fn new() -> (r: Manager)
        ensures
            r.wf(),
            r.connections@.len() == 0,
            r.active_shares@.len() == 0,
            r.share_tasks@.len() == 0,
            r.simulation_stream_tasks@.len() == 0,
            r.timer_shares@.len() == 0,
    {
        Manager {
            connections: Vec::new(),
            active_shares: Vec::new(),
            share_tasks: Vec::new(),
            simulation_stream_tasks: Vec::new(),
            timer_shares: Vec::new(),
        }
    }

    /// Whether a registered datagram endpoint is bound to `addr`.
    pub fn is_socket_address_in_use(&self, addr: SocketAddress) -> (r: bool)
        ensures
            r == address_in_use(self.connections@, addr),
    {
        find_address(&self.connections, addr)
    }

    /// Registers `transport` under `id`, unless the id is taken.
    pub fn add_connection(&mut self, id: String, transport: Transport) -> (r: Result<
        (),
        ManagerError,
    >)
        requires
            old(self).wf(),
            transport.wf(),
            has_id(old(self).connections@, id@) || (transport.udp_local() matches Some(addr)
                ==> !address_in_use(old(self).connections@, addr)),
        ensures
            final(self).wf(),
            final(self).active_shares == old(self).active_shares,
            final(self).share_tasks == old(self).share_tasks,
            final(self).simulation_stream_tasks == old(self).simulation_stream_tasks,
            final(self).timer_shares == old(self).timer_shares,
            has_id(old(self).connections@, id@) ==> r == Err::<(), ManagerError>(
                ManagerError::DuplicateId,
            ) && final(self).connections@ == old(self).connections@,
            !has_id(old(self).connections@, id@) ==> r == Ok::<(), ManagerError>(())
                && final(self).connections@ == old(self).connections@.push(
                Connection { id, transport },
            ) && has_id(final(self).connections@, id@),
    {
        match find_connection(&self.connections, id.as_str()) {
            Some(_) => Err(ManagerError::DuplicateId),
            None => {
                let added = Connection { id, transport };
                proof {
                    lemma_push_keeps_wf(self.connections@, added);
                }
                self.connections.push(added);
                assert(self.connections@[self.connections@.len() - 1].id@ == id@);
                Ok(())
            },
        }
    }

    /// Registers a started serial transport for `port_name` at `baud_rate`
    /// under `id`, unless the id is taken.
    pub fn start_connection(&mut self, id: String, port_name: String, baud_rate: u32) -> (r:
        Result<(), ManagerError>)
        requires
            old(self).wf(),
        ensures
            final(self).wf(),
            final(self).active_shares == old(self).active_shares,
            final(self).share_tasks == old(self).share_tasks,
            final(self).simulation_stream_tasks == old(self).simulation_stream_tasks,
            final(self).timer_shares == old(self).timer_shares,
            has_id(old(self).connections@, id@) ==> r == Err::<(), ManagerError>(
                ManagerError::DuplicateId,
            ) && final(self).connections@ == old(self).connections@,
            !has_id(old(self).connections@, id@) ==> {
                &&& r == Ok::<(), ManagerError>(())
                &&& final(self).connections@.len() == old(self).connections@.len() + 1
                &&& final(self).connections@.drop_last() == old(self).connections@
                &&& final(self).connections@.last().id@ == id@
                &&& final(self).connections@.last().transport matches Transport::Serial(serial)
                &&& serial.port_name@ == port_name@
                &&& serial.baud_rate == baud_rate
                &&& serial.writer_open
                &&& serial.last_data is None
                &&& serial.packet_received_count == 0
                &&& serial.packet_sent_count == 0
                &&& has_id(final(self).connections@, id@)
            },
    {
        let mut serial = SerialTransport::new(port_name, baud_rate);
        serial.start();
        let r = self.add_connection(id, Transport::Serial(serial));
        proof {
            if r is Ok {
                assert(self.connections@.drop_last() =~= old(self).connections@);
            }
        }
        r
    }

    /// Registers a started datagram endpoint bound to `local_addr` under
    /// `id`. Refused where the address is in use, and else where the id is
    /// taken; nothing is registered then.
    pub fn start_udp_connection(
        &mut self,
        id: String,
        local_addr: SocketAddress,
        local_text: String,
    ) -> (r: Result<(), ManagerError>)
        requires
            old(self).wf(),
        ensures
            final(self).wf(),
            final(self).active_shares == old(self).active_shares,
            final(self).share_tasks == old(self).share_tasks,
            final(self).simulation_stream_tasks == old(self).simulation_stream_tasks,
            final(self).timer_shares == old(self).timer_shares,
            address_in_use(old(self).connections@, local_addr) ==> r == Err::<(), ManagerError>(
                ManagerError::AddressInUse,
            ) && final(self).connections@ == old(self).connections@,
            !address_in_use(old(self).connections@, local_addr) && has_id(
                old(self).connections@,
                id@,
            ) ==> r == Err::<(), ManagerError>(ManagerError::DuplicateId)
                && final(self).connections@ == old(self).connections@,
            !address_in_use(old(self).connections@, local_addr) && !has_id(
                old(self).connections@,
                id@,
            ) ==> {
                &&& r == Ok::<(), ManagerError>(())
                &&& final(self).connections@.len() == old(self).connections@.len() + 1
                &&& final(self).connections@.drop_last() == old(self).connections@
                &&& final(self).connections@.last().id@ == id@
                &&& final(self).connections@.last().transport matches Transport::Udp(udp)
                &&& udp.local_addr == local_addr
                &&& udp.local_text@ == local_text@
                &&& udp.remote_addr is None
                &&& udp.running
                &&& udp.target_data@ == Map::<u32, crate::target::TargetPacket>::empty()
                &&& udp.packet_received_count == 0
                &&& udp.packet_sent_count == 0
                &&& has_id(final(self).connections@, id@)
            },
    {
        if self.is_socket_address_in_use(local_addr) {
            return Err(ManagerError::AddressInUse);
        }
        let mut udp = UdpTransport::new(local_addr, local_text);
        udp.start();
        let r = self.add_connection(id, Transport::Udp(udp));
        proof {
            if r is Ok {
                assert(self.connections@.drop_last() =~= old(self).connections@);
            }
        }
        r
    }

    /// Takes the connection `id` out of the registry, with the shares that
    /// go to it and the simulation stream that plays on it. The shares
    /// that held the raised timer resolution give it back: the plan tells
    /// how many they are. Refused where no connection has the id; nothing
    /// changes then.
    pub fn stop(&mut self, id: &str) -> (r: Result<StopPlan, ManagerError>)
        requires
            old(self).wf(),
        ensures
            final(self).wf(),
            !has_id(old(self).connections@, id@) ==> r is Err && r->Err_0
                == ManagerError::ConnectionNotFound && *final(self) == *old(self),
            has_id(old(self).connections@, id@) ==> {
                &&& r matches Ok(plan)
                &&& final(self).connections@ == old(self).connections@.remove(
                    place_of_id(old(self).connections@, id@),
                )
                &&& plan.transport == old(self).connections@[place_of_id(
                    old(self).connections@,
                    id@,
                )].transport.stopped()
                &&& key_views(final(self).share_tasks@) == keys_not_to(
                    key_views(old(self).share_tasks@),
                    id@,
                )
                &&& key_views(plan.aborted_shares@) == keys_to(
                    key_views(old(self).share_tasks@),
                    id@,
                )
                &&& key_views(final(self).active_shares@) == keys_not_to(
                    key_views(old(self).active_shares@),
                    id@,
                )
                &&& string_views(final(self).simulation_stream_tasks@) == without(
                    string_views(old(self).simulation_stream_tasks@),
                    id@,
                )
                &&& plan.aborted_stream == string_views(
                    old(self).simulation_stream_tasks@,
                ).contains(id@)
                &&& !has_id(final(self).connections@, id@)
                &&& forall|other: Seq<char>|
                    other != id@ ==> has_id(final(self).connections@, other) == has_id(
                        old(self).connections@,
                        other,
                    )
                &&& forall|source: Seq<char>|
                    !key_views(final(self).share_tasks@).contains((source, id@))
                &&& key_views(final(self).timer_shares@) == keys_not_to(
                    key_views(old(self).timer_shares@),
                    id@,
                )
                &&& plan.timer_releases == keys_to(key_views(old(self).timer_shares@), id@).len()
                &&& final(self).timer_holds() + plan.timer_releases == old(self).timer_holds()
            },
    {
        match find_connection(&self.connections, id) {
            None => Err(ManagerError::ConnectionNotFound),
            Some(at) => {
                proof {
                    lemma_remove_keeps_wf(self.connections@, at as int);
                    lemma_keys_split(key_views(self.share_tasks@), id@);
                    lemma_keys_split(key_views(self.active_shares@), id@);
                    lemma_keys_split(key_views(self.timer_shares@), id@);
                    lemma_without(string_views(self.simulation_stream_tasks@), id@);
                    assert(at == place_of_id(self.connections@, id@));
                }
                let removed = self.connections.remove(at);
                let mut transport = removed.transport;
                transport.stop();
                let aborted_shares = take_keys_to(&mut self.share_tasks, id);
                let _ = take_keys_to(&mut self.active_shares, id);
                let aborted_stream = take_string(&mut self.simulation_stream_tasks, id);
                let released = take_keys_to(&mut self.timer_shares, id);
                Ok(
                    StopPlan {
                        transport,
                        aborted_shares,
                        aborted_stream,
                        timer_releases: released.len(),
                    },
                )
            },
        }
    }

    /// The ids and names of the connections, in the order in which they
    /// were added.
    pub fn list_connections(&self) -> (r: Vec<ConnectionInfo>)
        ensures
            r@.len() == self.connections@.len(),
            forall|i: int|
                0 <= i < r@.len() ==> (#[trigger] r@[i]).id@ == self.connections@[i].id@
                    && r@[i].name@ == self.connections@[i].transport.name_text(),
    {
        let mut out: Vec<ConnectionInfo> = Vec::new();
        let mut i: usize = 0;
        while i < self.connections.len()
            invariant
                i <= self.connections.len(),
                out@.len() == i,
                forall|k: int|
                    0 <= k < i ==> (#[trigger] out@[k]).id@ == self.connections@[k].id@
                        && out@[k].name@ == self.connections@[k].transport.name_text(),
            decreases self.connections.len() - i,
        {
            let info = ConnectionInfo {
                id: self.connections[i].id.clone(),
                name: self.connections[i].transport.name(),
            };
            out.push(info);
            i = i + 1;
        }
        out
    }

    /// The number of connections.
    pub fn get_connection_count(&self) -> (r: usize)
        ensures
            r == self.connections@.len(),
    {
        self.connections.len()
    }

    /// What to do to send through the connection `id`. Refused where no
    /// connection has the id, and where its transport cannot send.
    pub fn send_to(&self, id: &str) -> (r: Result<SendAction, ManagerError>)
        requires
            self.wf(),
        ensures
            !has_id(self.connections@, id@) ==> r == Err::<SendAction, ManagerError>(
                ManagerError::NoTransport,
            ),
            has_id(self.connections@, id@) ==> r == match self.connections@[place_of_id(
                self.connections@,
                id@,
            )].transport.send_plan() {
                Ok(action) => Ok::<SendAction, ManagerError>(action),
                Err(e) => Err::<SendAction, ManagerError>(ManagerError::Transport(e)),
            },
    {
        match find_connection(&self.connections, id) {
            None => Err(ManagerError::NoTransport),
            Some(at) => {
                proof {
                    self.lemma_found(at as int, id@);
                }
                match self.connections[at].transport.prepare_send() {
                    Ok(action) => Ok(action),
                    Err(e) => Err(ManagerError::Transport(e)),
                }
            },
        }
    }

    /// The place at which an id was found is the place of the id.
    pub proof fn lemma_found(&self, at: int, id: Seq<char>)
        requires
            0 <= at < self.connections@.len(),
            self.connections@[at].id@ == id,
        ensures
            has_id(self.connections@, id),
            distinct_ids(self.connections@) ==> at == place_of_id(self.connections@, id),
    {
    }
}

} // verus!
