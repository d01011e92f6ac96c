//! The traffic through the manager: bytes received and frames sent, per
//! connection and in total.

use crate::manager::{lemma_update_keeps_wf, Manager, ManagerError};
use crate::reader::{after_push, frame_views, DecodedFrameView, ReadOutcome};
use crate::registry::{find_connection, has_id, place_of_id, Connection, Transport};
use crate::shares::{key_views, string_views, ShareKey};
use crate::transport::{bytes_view, cache_after, last_raw, SocketAddress, UdpTransport};
use vstd::prelude::*;

verus! {

/// Holds where `after` is `before` after the bytes `chunk` were received
/// and gave `frames`: the frames are those that the bytes complete, each is
/// counted, a serial port keeps the last one, and a datagram endpoint
/// takes the target packets in.
pub open spec fn received_by(
    before: Transport,
    after: Transport,
    chunk: Seq<u8>,
    frames: Seq<DecodedFrameView>,
) -> bool {
    match (before, after) {
        (Transport::Serial(b), Transport::Serial(a)) => {
            &&& a.reader@ == after_push(b.reader@, chunk).buffer
            &&& frames == after_push(b.reader@, chunk).frames
            &&& a.packet_received_count as int == b.packet_received_count.wrapping_add(
                frames.len() as usize,
            )
            &&& bytes_view(a.last_data) == last_raw(bytes_view(b.last_data), frames)
            &&& a.port_name == b.port_name
            &&& a.baud_rate == b.baud_rate
            &&& a.writer_open == b.writer_open
            &&& a.packet_sent_count == b.packet_sent_count
        },
        (Transport::Udp(b), Transport::Udp(a)) => {
            &&& a.reader@ == after_push(b.reader@, chunk).buffer
            &&& frames == after_push(b.reader@, chunk).frames
            &&& a.packet_received_count as int == b.packet_received_count.wrapping_add(
                frames.len() as usize,
            )
            &&& a.target_data@ == cache_after(b.target_data@, frames)
            &&& a.local_addr == b.local_addr
            &&& a.local_text == b.local_text
            &&& a.remote_addr == b.remote_addr
            &&& a.running == b.running
            &&& a.packet_sent_count == b.packet_sent_count
        },
        _ => false,
    }
}

/// The frames received over all connections.
pub open spec fn total_received(connections: Seq<Connection>) -> nat
    decreases connections.len(),
{
    if connections.len() == 0 {
        0
    } else {
        total_received(connections.drop_last()) + connections.last().transport.received() as nat
    }
}

/// The frames sent over all connections.
pub open spec fn total_sent(connections: Seq<Connection>) -> nat
    decreases connections.len(),
{
    if connections.len() == 0 {
        0
    } else {
        total_sent(connections.drop_last()) + connections.last().transport.sent() as nat
    }
}

/// The counters of one connection.
#[derive(Debug, Clone, PartialEq, Eq)]
pub struct ConnectionCounts {
    pub id: String,
    pub received: usize,
    pub sent: usize,
}

/// Holds where `counts` lists the counters of `connections`, one entry for
/// each connection, in order.
pub open spec fn counts_of(counts: Seq<ConnectionCounts>, connections: Seq<Connection>) -> bool {
    &&& counts.len() == connections.len()
    &&& forall|i: int|
        0 <= i < counts.len() ==> {
            &&& (#[trigger] counts[i]).id@ == connections[i].id@
            &&& counts[i].received == connections[i].transport.received()
            &&& counts[i].sent == connections[i].transport.sent()
        }
}

/// The sum of the received counters of a list.
pub open spec fn sum_received(counts: Seq<ConnectionCounts>) -> nat
    decreases counts.len(),
{
    if counts.len() == 0 {
        0
    } else {
        sum_received(counts.drop_last()) + counts.last().received as nat
    }
}

/// The sum of the sent counters of a list.
pub open spec fn sum_sent(counts: Seq<ConnectionCounts>) -> nat
    decreases counts.len(),
{
    if counts.len() == 0 {
        0
    } else {
        sum_sent(counts.drop_last()) + counts.last().sent as nat
    }
}

/// The totals are the sums of the counters of the connections.
pub proof fn lemma_totals_are_sums(counts: Seq<ConnectionCounts>, connections: Seq<Connection>)
    requires
        counts_of(counts, connections),
    ensures
        total_received(connections) == sum_received(counts),
        total_sent(connections) == sum_sent(counts),
    decreases connections.len(),
{
    if connections.len() > 0 {
        assert(counts_of(counts.drop_last(), connections.drop_last())) by {
            assert forall|i: int| 0 <= i < counts.drop_last().len() implies {
                &&& (#[trigger] counts.drop_last()[i]).id@ == connections.drop_last()[i].id@
                &&& counts.drop_last()[i].received == connections.drop_last()[i].transport.received()
                &&& counts.drop_last()[i].sent == connections.drop_last()[i].transport.sent()
            } by {
                assert(counts.drop_last()[i] == counts[i]);
            }
        }
        lemma_totals_are_sums(counts.drop_last(), connections.drop_last());
        assert(counts.last() == counts[counts.len() - 1]);
    }
}

/// The totals are bounded by the number of connections.
pub proof fn lemma_total_bound(connections: Seq<Connection>)
    ensures
        total_received(connections) <= connections.len() * 0xffff_ffff_ffff_ffff,
        total_sent(connections) <= connections.len() * 0xffff_ffff_ffff_ffff,
    decreases connections.len(),
{
    if connections.len() > 0 {
        lemma_total_bound(connections.drop_last());
    }
}

/// Where every counter is zero, the totals are zero.
pub proof fn lemma_total_of_zeros(connections: Seq<Connection>)
    requires
        forall|i: int|
            0 <= i < connections.len() ==> (#[trigger] connections[i]).transport.received() == 0
                && connections[i].transport.sent() == 0,
    ensures
        total_received(connections) == 0,
        total_sent(connections) == 0,
    decreases connections.len(),
{
    if connections.len() > 0 {
        assert forall|i: int| 0 <= i < connections.drop_last().len() implies (
        #[trigger] connections.drop_last()[i]).transport.received() == 0
            && connections.drop_last()[i].transport.sent() == 0 by {
            assert(connections.drop_last()[i] == connections[i]);
        }
        lemma_total_of_zeros(connections.drop_last());
        assert(connections.last() == connections[connections.len() - 1]);
    }
}

impl Transport {
    /// Takes in the bytes of one read or datagram.
    pub fn receive(&mut self, chunk: &[u8]) -> (r: ReadOutcome)
        requires
            old(self).wf(),
        ensures
            final(self).wf(),
            received_by(*old(self), *final(self), chunk@, frame_views(r.frames@)),
            r.overflow == after_push(old(self).buffered(), chunk@).overflow,
            r.decode_error == after_push(old(self).buffered(), chunk@).decode_error,
            final(self).udp_local() == old(self).udp_local(),
    {
        match self {
            Transport::Serial(serial) => serial.receive(chunk),
            Transport::Udp(udp) => udp.receive(chunk),
        }
    }

    /// The bytes that wait for a frame.
    pub open spec fn buffered(&self) -> Seq<u8> {
        match *self {
            Transport::Serial(serial) => serial.reader@,
            Transport::Udp(udp) => udp.reader@,
        }
    }
}

/// What is left to do after every connection was taken out of the
/// registry.
#[derive(Debug, Clone, PartialEq, Eq)]
pub struct StopAllPlan {
    /// The connections that were registered, in order, each marked as
    /// stopped; their ports and sockets are to be closed.
    pub connections: Vec<Connection>,
    /// The shares whose task is to be aborted.
    pub aborted_shares: Vec<ShareKey>,
    /// The connections whose simulation stream is to be aborted.
    pub aborted_streams: Vec<String>,
    /// How often the raised timer resolution is to be released: once for
    /// each aborted share that held it.
    pub timer_releases: usize,
}

impl Manager {
    /// Takes the bytes of one read or datagram of the connection `id` in.
    /// Refused where no connection has the id; nothing changes then.
    pub fn receive(&mut self, id: &str, chunk: &[u8]) -> (r: Result<ReadOutcome, ManagerError>)
        requires
            old(self).wf(),
        ensures
            final(self).wf(),
            final(self).active_shares == old(self).active_shares,
            final(self).share_tasks == old(self).share_tasks,
            final(self).simulation_stream_tasks == old(self).simulation_stream_tasks,
            final(self).timer_shares == old(self).timer_shares,
            !has_id(old(self).connections@, id@) ==> r is Err && r->Err_0
                == ManagerError::NoTransport && final(self).connections@ == old(self).connections@,
            has_id(old(self).connections@, id@) ==> {
                let at = place_of_id(old(self).connections@, id@);
                &&& r matches Ok(outcome)
                &&& final(self).connections@.len() == old(self).connections@.len()
                &&& forall|k: int|
                    0 <= k < final(self).connections@.len() && k != at ==> final(self).connections@[k] == old(self).connections@[k]
                &&& final(self).connections@[at].id == old(self).connections@[at].id
                &&& received_by(
                    old(self).connections@[at].transport,
                    final(self).connections@[at].transport,
                    chunk@,
                    frame_views(outcome.frames@),
                )
                &&& outcome.overflow == after_push(
                    old(self).connections@[at].transport.buffered(),
                    chunk@,
                ).overflow
                &&& outcome.decode_error == after_push(
                    old(self).connections@[at].transport.buffered(),
                    chunk@,
                ).decode_error
            },
    {
        match find_connection(&self.connections, id) {
            None => Err(ManagerError::NoTransport),
            Some(at) => {
                proof {
                    self.lemma_found(at as int, id@);
                }
                let mut connection = self.connections.remove(at);
                let outcome = connection.transport.receive(chunk);
                proof {
                    lemma_update_keeps_wf(old(self).connections@, at as int, connection);
                }
                self.connections.insert(at, connection);
                assert(self.connections@ =~= old(self).connections@.update(at as int, connection));
                Ok(outcome)
            },
        }
    }

    /// Counts one frame as sent through the connection `id`, after the
    /// send succeeded. Tells whether a connection has the id; nothing
    /// changes where none has.
    pub fn confirm_sent(&mut self, id: &str) -> (r: bool)
        requires
            old(self).wf(),
        ensures
            final(self).wf(),
            final(self).active_shares == old(self).active_shares,
            final(self).share_tasks == old(self).share_tasks,
            final(self).simulation_stream_tasks == old(self).simulation_stream_tasks,
            final(self).timer_shares == old(self).timer_shares,
            r == has_id(old(self).connections@, id@),
            !r ==> final(self).connections@ == old(self).connections@,
            r ==> final(self).connections@ == old(self).connections@.update(
                place_of_id(old(self).connections@, id@),
                Connection {
                    id: old(self).connections@[place_of_id(old(self).connections@, id@)].id,
                    transport: old(self).connections@[place_of_id(
                        old(self).connections@,
                        id@,
                    )].transport.with_one_sent(),
                },
            ),
    {
        match find_connection(&self.connections, id) {
            None => false,
            Some(at) => {
                proof {
                    self.lemma_found(at as int, id@);
                }
                let mut connection = self.connections.remove(at);
                connection.transport.confirm_sent();
                proof {
                    lemma_update_keeps_wf(old(self).connections@, at as int, connection);
                }
                self.connections.insert(at, connection);
                assert(self.connections@ =~= old(self).connections@.update(at as int, connection));
                true
            },
        }
    }

    /// Sets the remote address of the datagram endpoint `id`. Refused where
    /// no connection has the id, and where the connection is a serial
    /// port; nothing changes then.
    pub fn set_udp_remote_addr(&mut self, id: &str, remote_addr: SocketAddress) -> (r: Result<
        (),
        ManagerError,
    >)
        requires
            old(self).wf(),
        ensures
            final(self).wf(),
            final(self).active_shares == old(self).active_shares,
            final(self).share_tasks == old(self).share_tasks,
            final(self).simulation_stream_tasks == old(self).simulation_stream_tasks,
            final(self).timer_shares == old(self).timer_shares,
            !has_id(old(self).connections@, id@) ==> r == Err::<(), ManagerError>(
                ManagerError::NoConnection,
            ) && final(self).connections@ == old(self).connections@,
            has_id(old(self).connections@, id@) ==> {
                let at = place_of_id(old(self).connections@, id@);
                match old(self).connections@[at].transport {
                    Transport::Serial(_) => r == Err::<(), ManagerError>(ManagerError::NotUdp)
                        && final(self).connections@ == old(self).connections@,
                    Transport::Udp(udp) => r == Ok::<(), ManagerError>(()) && final(self).connections@ == old(self).connections@.update(
                        at,
                        Connection {
                            id: old(self).connections@[at].id,
                            transport: Transport::Udp(
                                UdpTransport { remote_addr: Some(remote_addr), ..udp },
                            ),
                        },
                    ),
                }
            },
    {
        match find_connection(&self.connections, id) {
            None => Err(ManagerError::NoConnection),
            Some(at) => {
                proof {
                    self.lemma_found(at as int, id@);
                }
                let connection = self.connections.remove(at);
                let Connection { id: found_id, transport } = connection;
                match transport {
                    Transport::Serial(serial) => {
                        let same = Connection { id: found_id, transport: Transport::Serial(serial) };
                        self.connections.insert(at, same);
                        assert(self.connections@ =~= old(self).connections@);
                        Err(ManagerError::NotUdp)
                    },
                    Transport::Udp(udp) => {
                        let mut udp = udp;
                        udp.set_remote(remote_addr);
                        let next = Connection { id: found_id, transport: Transport::Udp(udp) };
                        proof {
                            lemma_update_keeps_wf(old(self).connections@, at as int, next);
                        }
                        self.connections.insert(at, next);
                        assert(self.connections@ =~= old(self).connections@.update(
                            at as int,
                            next,
                        ));
                        Ok(())
                    },
                }
            },
        }
    }

    /// The frames received over all connections.
    pub fn get_total_packets_received(&self) -> (r: u128)
        ensures
            r == total_received(self.connections@),
    {
        let mut total: u128 = 0;
        let mut i: usize = 0;
        assert(self.connections@.take(0) =~= Seq::<Connection>::empty());
        while i < self.connections.len()
            invariant
                i <= self.connections.len(),
                total == total_received(self.connections@.take(i as int)),
            decreases self.connections.len() - i,
        {
            proof {
                let next = self.connections@.take(i + 1);
                assert(next.drop_last() =~= self.connections@.take(i as int));
                assert(next.last() == self.connections@[i as int]);
                lemma_total_bound(self.connections@.take(i as int));
            }
            total = total + self.connections[i].transport.get_packet_received_count() as u128;
            i = i + 1;
        }
        assert(self.connections@.take(i as int) =~= self.connections@);
        total
    }

    /// The frames sent over all connections.
    pub fn get_total_packets_sent(&self) -> (r: u128)
        ensures
            r == total_sent(self.connections@),
    {
        let mut total: u128 = 0;
        let mut i: usize = 0;
        assert(self.connections@.take(0) =~= Seq::<Connection>::empty());
        while i < self.connections.len()
            invariant
                i <= self.connections.len(),
                total == total_sent(self.connections@.take(i as int)),
            decreases self.connections.len() - i,
        {
            proof {
                let next = self.connections@.take(i + 1);
                assert(next.drop_last() =~= self.connections@.take(i as int));
                assert(next.last() == self.connections@[i as int]);
                lemma_total_bound(self.connections@.take(i as int));
            }
            total = total + self.connections[i].transport.get_packet_sent_count() as u128;
            i = i + 1;
        }
        assert(self.connections@.take(i as int) =~= self.connections@);
        total
    }

    /// The counters of every connection, in the order of the registry.
    /// Their sums are the totals.
    pub fn get_connection_packet_counts(&self) -> (r: Vec<ConnectionCounts>)
        ensures
            counts_of(r@, self.connections@),
            sum_received(r@) == total_received(self.connections@),
            sum_sent(r@) == total_sent(self.connections@),
    {
        let mut out: Vec<ConnectionCounts> = Vec::new();
        let mut i: usize = 0;
        while i < self.connections.len()
            invariant
                i <= self.connections.len(),
                out@.len() == i,
                forall|k: int|
                    0 <= k < i ==> {
                        &&& (#[trigger] out@[k]).id@ == self.connections@[k].id@
                        &&& out@[k].received == self.connections@[k].transport.received()
                        &&& out@[k].sent == self.connections@[k].transport.sent()
                    },
            decreases self.connections.len() - i,
        {
            let counts = ConnectionCounts {
                id: self.connections[i].id.clone(),
                received: self.connections[i].transport.get_packet_received_count(),
                sent: self.connections[i].transport.get_packet_sent_count(),
            };
            out.push(counts);
            i = i + 1;
        }
        proof {
            lemma_totals_are_sums(out@, self.connections@);
        }
        out
    }

    /// Sets the counters of every connection to zero.
    pub fn reset_packet_counters(&mut self)
        requires
            old(self).wf(),
        ensures
            final(self).wf(),
            final(self).active_shares == old(self).active_shares,
            final(self).share_tasks == old(self).share_tasks,
            final(self).simulation_stream_tasks == old(self).simulation_stream_tasks,
            final(self).timer_shares == old(self).timer_shares,
            final(self).connections@.len() == old(self).connections@.len(),
            forall|k: int|
                0 <= k < final(self).connections@.len() ==> (#[trigger] final(self).connections@[k]).id == old(self).connections@[k].id && final(self).connections@[k].transport == old(self).connections@[k].transport.with_counters_reset(),
            total_received(final(self).connections@) == 0,
            total_sent(final(self).connections@) == 0,
    {
        let n = self.connections.len();
        let mut i: usize = 0;
        while i < n
            invariant
                i <= n,
                n == self.connections@.len(),
                n == old(self).connections@.len(),
                self.wf(),
                self.active_shares == old(self).active_shares,
                self.share_tasks == old(self).share_tasks,
                self.simulation_stream_tasks == old(self).simulation_stream_tasks,
                self.timer_shares == old(self).timer_shares,
                forall|k: int|
                    0 <= k < i ==> (#[trigger] self.connections@[k]).id == old(self).connections@[k].id && self.connections@[k].transport == old(self).connections@[k].transport.with_counters_reset(),
                forall|k: int|
                    i <= k < n ==> (#[trigger] self.connections@[k]) == old(self).connections@[k],
            decreases n - i,
        {
            let ghost before = self.connections@;
            let mut connection = self.connections.remove(i);
            connection.transport.reset_packet_counters();
            proof {
                lemma_update_keeps_wf(before, i as int, connection);
            }
            self.connections.insert(i, connection);
            assert(self.connections@ =~= before.update(i as int, connection));
            i = i + 1;
        }
        proof {
            lemma_total_of_zeros(self.connections@);
        }
    }

    /// Takes every connection out of the registry, with every share and
    /// every simulation stream. No share holds the raised timer resolution
    /// afterwards: the plan tells how many did.
    pub fn stop_all(&mut self) -> (r: StopAllPlan)
        requires
            old(self).wf(),
        ensures
            final(self).wf(),
            final(self).connections@.len() == 0,
            final(self).active_shares@.len() == 0,
            final(self).share_tasks@.len() == 0,
            final(self).simulation_stream_tasks@.len() == 0,
            final(self).timer_holds() == 0,
            r.timer_releases == old(self).timer_holds(),
            r.connections@.len() == old(self).connections@.len(),
            forall|k: int|
                0 <= k < r.connections@.len() ==> (#[trigger] r.connections@[k]).id == old(self).connections@[k].id && r.connections@[k].transport == old(self).connections@[k].transport.stopped(),
            r.aborted_shares == old(self).share_tasks,
            r.aborted_streams == old(self).simulation_stream_tasks,
    {
        let mut stopped: Vec<Connection> = Vec::new();
        while self.connections.len() > 0
            invariant
                stopped@.len() + self.connections@.len() == old(self).connections@.len(),
                self.connections@ == old(self).connections@.skip(stopped@.len() as int),
                self.active_shares == old(self).active_shares,
                self.share_tasks == old(self).share_tasks,
                self.simulation_stream_tasks == old(self).simulation_stream_tasks,
                self.timer_shares == old(self).timer_shares,
                forall|k: int|
                    0 <= k < stopped@.len() ==> (#[trigger] stopped@[k]).id == old(self).connections@[k].id && stopped@[k].transport == old(self).connections@[k].transport.stopped(),
            decreases self.connections@.len(),
        {
            let ghost done = stopped@.len() as int;
            let mut connection = self.connections.remove(0);
            assert(self.connections@ =~= old(self).connections@.skip(done + 1));
            connection.transport.stop();
            stopped.push(connection);
        }
        let mut aborted_shares: Vec<ShareKey> = Vec::new();
        core::mem::swap(&mut aborted_shares, &mut self.share_tasks);
        let mut aborted_streams: Vec<String> = Vec::new();
        core::mem::swap(&mut aborted_streams, &mut self.simulation_stream_tasks);
        self.active_shares = Vec::new();
        let timer_releases = self.timer_shares.len();
        self.timer_shares = Vec::new();
        assert(key_views(self.timer_shares@) =~= Seq::<(Seq<char>, Seq<char>)>::empty());
        assert(key_views(self.active_shares@) =~= Seq::<(Seq<char>, Seq<char>)>::empty());
        assert(key_views(self.share_tasks@) =~= Seq::<(Seq<char>, Seq<char>)>::empty());
        assert(string_views(self.simulation_stream_tasks@) =~= Seq::<Seq<char>>::empty());
        StopAllPlan { connections: stopped, aborted_shares, aborted_streams, timer_releases }
    }
}

} // verus!
