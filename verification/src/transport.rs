//! The two transports, as the state that their read and write sides keep:
//! what was opened, the bytes that wait for a frame, the last frame, the
//! latest packet of each target, and the counters.

use crate::cache::{upserted_all, TargetCache};
use crate::packet::{Kind, KindView, Packet, PacketView};
use crate::reader::{after_push, frame_views, DecodedFrameView, FrameReader, ReadOutcome};
use crate::target::TargetPacket;
use vstd::prelude::*;
use vstd::string::StringExecFns;

verus! {

/// An internet address: the 32 bits of version four or the 128 bits of
/// version six.
#[derive(Debug, Clone, Copy, PartialEq, Eq, Structural, Hash)]
pub enum IpAddress {
    V4(u32),
    V6(u128),
}

/// A socket address. Flow information and scope are zero for version four.
#[derive(Debug, Clone, Copy, PartialEq, Eq, Structural, Hash)]
pub struct SocketAddress {
    pub ip: IpAddress,
    pub port: u16,
    pub flowinfo: u32,
    pub scope_id: u32,
}

/// Why a transport cannot send.
#[derive(Debug, Clone, Copy, PartialEq, Eq, Structural)]
pub enum TransportError {
    /// The serial writer is absent: the transport was never started, or was
    /// stopped.
    WriterNotInitialized,
    /// The datagram endpoint has no remote address yet.
    RemoteAddressNotSet,
}

impl TransportError {
    /// The message of the error.
    pub open spec fn text(self) -> Seq<char> {
        match self {
            TransportError::WriterNotInitialized => "Writer not initialized."@,
            TransportError::RemoteAddressNotSet => "Remote address not set"@,
        }
    }

    /// The message of the error.
    pub fn message(&self) -> (r: String)
        ensures
            r@ == self.text(),
    {
        match self {
            TransportError::WriterNotInitialized => String::from_str("Writer not initialized."),
            TransportError::RemoteAddressNotSet => String::from_str("Remote address not set"),
        }
    }
}

/// What the caller has to do to send bytes through a transport.
#[derive(Debug, Clone, Copy, PartialEq, Eq, Structural)]
pub enum SendAction {
    /// Write the bytes to the serial writer and flush it.
    WriteAndFlush,
    /// Send the bytes as one datagram to `remote`.
    SendDatagram { remote: SocketAddress },
}

/// The raw bytes of the last frame of `frames`, or `before` where there is
/// none.
pub open spec fn last_raw(before: Option<Seq<u8>>, frames: Seq<DecodedFrameView>) -> Option<
    Seq<u8>,
> {
    if frames.len() == 0 {
        before
    } else {
        Some(frames.last().raw)
    }
}

/// The view of an optional byte string.
pub open spec fn bytes_view(bytes: Option<Vec<u8>>) -> Option<Seq<u8>> {
    match bytes {
        Some(b) => Some(b@),
        None => None,
    }
}

/// A serial port, as the router sees it.
#[derive(Debug, Clone, PartialEq, Eq)]
pub struct SerialTransport {
    pub port_name: String,
    pub baud_rate: u32,
    /// Whether the writer is there: from `start` to `stop`.
    pub writer_open: bool,
    /// The bytes read that have not yet made a frame.
    pub reader: FrameReader,
    /// The bytes of the last frame received.
    pub last_data: Option<Vec<u8>>,
    pub packet_received_count: usize,
    pub packet_sent_count: usize,
}

impl SerialTransport {
    /// A transport for `port_name` at `baud_rate`, not yet started.
    pub fn new(port_name: String, baud_rate: u32) -> (r: SerialTransport)
        ensures
            r.port_name@ == port_name@,
            r.baud_rate == baud_rate,
            !r.writer_open,
            r.reader@ == Seq::<u8>::empty(),
            r.last_data is None,
            r.packet_received_count == 0,
            r.packet_sent_count == 0,
    {
        SerialTransport {
            port_name,
            baud_rate,
            writer_open: false,
            reader: FrameReader::new(),
            last_data: None,
            packet_received_count: 0,
            packet_sent_count: 0,
        }
    }

    /// The port was opened: the writer is there.
    pub fn start(&mut self)
        ensures
            final(self).writer_open,
            final(self).port_name == old(self).port_name,
            final(self).baud_rate == old(self).baud_rate,
            final(self).reader == old(self).reader,
            final(self).last_data == old(self).last_data,
            final(self).packet_received_count == old(self).packet_received_count,
            final(self).packet_sent_count == old(self).packet_sent_count,
    {
        self.writer_open = true;
    }

    /// Drops the writer. Stopping a stopped transport changes nothing.
    pub fn stop(&mut self)
        ensures
            !final(self).writer_open,
            final(self).port_name == old(self).port_name,
            final(self).baud_rate == old(self).baud_rate,
            final(self).reader == old(self).reader,
            final(self).last_data == old(self).last_data,
            final(self).packet_received_count == old(self).packet_received_count,
            final(self).packet_sent_count == old(self).packet_sent_count,
    {
        self.writer_open = false;
    }

    /// Takes in the bytes of one read. Every frame found is counted, and
    /// the last one is kept as the last frame.
    pub fn receive(&mut self, chunk: &[u8]) -> (r: ReadOutcome)
        ensures
            final(self).reader@ == after_push(old(self).reader@, chunk@).buffer,
            frame_views(r.frames@) == after_push(old(self).reader@, chunk@).frames,
            r.overflow == after_push(old(self).reader@, chunk@).overflow,
            r.decode_error == after_push(old(self).reader@, chunk@).decode_error,
            final(self).packet_received_count == old(self).packet_received_count.wrapping_add(
                r.frames.len(),
            ),
            bytes_view(final(self).last_data) == last_raw(
                bytes_view(old(self).last_data),
                frame_views(r.frames@),
            ),
            final(self).port_name == old(self).port_name,
            final(self).baud_rate == old(self).baud_rate,
            final(self).writer_open == old(self).writer_open,
            final(self).packet_sent_count == old(self).packet_sent_count,
    {
        let outcome = self.reader.push(chunk);
        let n = outcome.frames.len();
        self.packet_received_count = self.packet_received_count.wrapping_add(n);
        if n > 0 {
            let raw = outcome.frames[n - 1].raw.clone();
            assert(raw@ == frame_views(outcome.frames@).last().raw);
            self.last_data = Some(raw);
        }
        outcome
    }

    /// What to do to send: write and flush, or the error where the writer
    /// is absent.
    pub fn prepare_send(&self) -> (r: Result<SendAction, TransportError>)
        ensures
            r == if self.writer_open {
                Ok::<SendAction, TransportError>(SendAction::WriteAndFlush)
            } else {
                Err::<SendAction, TransportError>(TransportError::WriterNotInitialized)
            },
    {
        if self.writer_open {
            Ok(SendAction::WriteAndFlush)
        } else {
            Err(TransportError::WriterNotInitialized)
        }
    }

    /// Counts one frame as sent, after the write and the flush succeeded.
    pub fn confirm_sent(&mut self)
        ensures
            final(self).packet_sent_count == old(self).packet_sent_count.wrapping_add(1),
            final(self).port_name == old(self).port_name,
            final(self).baud_rate == old(self).baud_rate,
            final(self).writer_open == old(self).writer_open,
            final(self).reader == old(self).reader,
            final(self).last_data == old(self).last_data,
            final(self).packet_received_count == old(self).packet_received_count,
    {
        self.packet_sent_count = self.packet_sent_count.wrapping_add(1);
    }

    /// Sets both counters to zero.
    pub fn reset_packet_counters(&mut self)
        ensures
            final(self).packet_received_count == 0,
            final(self).packet_sent_count == 0,
            final(self).port_name == old(self).port_name,
            final(self).baud_rate == old(self).baud_rate,
            final(self).writer_open == old(self).writer_open,
            final(self).reader == old(self).reader,
            final(self).last_data == old(self).last_data,
    {
        self.packet_received_count = 0;
        self.packet_sent_count = 0;
    }
}

/// The target packets that a packet carries: one, a list, or none.
pub open spec fn packet_targets(packet: PacketView) -> Seq<TargetPacket> {
    match packet.kind {
        Some(KindView::TargetPacket(target)) => seq![target],
        Some(KindView::TargetPacketList(list)) => list,
        _ => Seq::empty(),
    }
}

/// The cache after the target packets of `frames` came, frame by frame.
pub open spec fn cache_after(entries: Map<u32, TargetPacket>, frames: Seq<DecodedFrameView>) -> Map<
    u32,
    TargetPacket,
>
    decreases frames.len(),
{
    if frames.len() == 0 {
        entries
    } else {
        cache_after(upserted_all(entries, packet_targets(frames[0].packet)), frames.skip(1))
    }
}

/// A datagram endpoint, as the router sees it.
#[derive(Debug, Clone, PartialEq, Eq)]
pub struct UdpTransport {
    pub local_addr: SocketAddress,
    /// The local address in the form in which it is shown.
    pub local_text: String,
    pub remote_addr: Option<SocketAddress>,
    /// Whether the receive loop runs: from `start` to `stop`.
    pub running: bool,
    /// The latest packet of each target received.
    pub target_data: TargetCache,
    /// The bytes received that have not yet made a frame.
    pub reader: FrameReader,
    pub packet_received_count: usize,
    pub packet_sent_count: usize,
}

impl UdpTransport {
    /// Holds of an endpoint whose cache is well formed, as the functions of
    /// this type make and keep it.
    pub open spec fn wf(&self) -> bool {
        self.target_data.wf()
    }

    /// An endpoint bound to `local_addr`, shown as `local_text`, without a
    /// remote address and not yet started.
    pub fn new(local_addr: SocketAddress, local_text: String) -> (r: UdpTransport)
        ensures
            r.wf(),
            r.local_addr == local_addr,
            r.local_text@ == local_text@,
            r.remote_addr is None,
            !r.running,
            r.target_data@ == Map::<u32, TargetPacket>::empty(),
            r.reader@ == Seq::<u8>::empty(),
            r.packet_received_count == 0,
            r.packet_sent_count == 0,
    {
        UdpTransport {
            local_addr,
            local_text,
            remote_addr: None,
            running: false,
            target_data: TargetCache::new(),
            reader: FrameReader::new(),
            packet_received_count: 0,
            packet_sent_count: 0,
        }
    }

    /// The receive loop was started.
    pub fn start(&mut self)
        ensures
            final(self).running,
            final(self).local_addr == old(self).local_addr,
            final(self).local_text == old(self).local_text,
            final(self).remote_addr == old(self).remote_addr,
            final(self).target_data == old(self).target_data,
            final(self).reader == old(self).reader,
            final(self).packet_received_count == old(self).packet_received_count,
            final(self).packet_sent_count == old(self).packet_sent_count,
    {
        self.running = true;
    }

    /// Ends the receive loop. Stopping a stopped endpoint changes nothing.
    pub fn stop(&mut self)
        ensures
            !final(self).running,
            final(self).local_addr == old(self).local_addr,
            final(self).local_text == old(self).local_text,
            final(self).remote_addr == old(self).remote_addr,
            final(self).target_data == old(self).target_data,
            final(self).reader == old(self).reader,
            final(self).packet_received_count == old(self).packet_received_count,
            final(self).packet_sent_count == old(self).packet_sent_count,
    {
        self.running = false;
    }

    /// Sets where datagrams are sent to.
    pub fn set_remote(&mut self, remote: SocketAddress)
        ensures
            final(self).remote_addr == Some(remote),
            final(self).local_addr == old(self).local_addr,
            final(self).local_text == old(self).local_text,
            final(self).running == old(self).running,
            final(self).target_data == old(self).target_data,
            final(self).reader == old(self).reader,
            final(self).packet_received_count == old(self).packet_received_count,
            final(self).packet_sent_count == old(self).packet_sent_count,
    {
        self.remote_addr = Some(remote);
    }

    /// Takes in the target packets of one frame.
    fn note_targets(cache: &mut TargetCache, packet: &Packet)
        requires
            old(cache).wf(),
        ensures
            final(cache).wf(),
            final(cache)@ == upserted_all(old(cache)@, packet_targets(packet@)),
    {
        match &packet.kind {
            Some(Kind::TargetPacket(target)) => {
                proof {
                    reveal_with_fuel(upserted_all, 2);
                    assert(seq![*target].skip(1) =~= Seq::<TargetPacket>::empty());
                }
                cache.upsert(*target);
            },
            Some(Kind::TargetPacketList(list)) => {
                cache.upsert_all(&list.packets);
            },
            _ => {},
        }
    }

    /// Takes in the bytes of one datagram. Every frame found is counted,
    /// and the target packets it carries become the latest of their
    /// targets.
    pub fn receive(&mut self, chunk: &[u8]) -> (r: ReadOutcome)
        requires
            old(self).wf(),
        ensures
            final(self).wf(),
            final(self).reader@ == after_push(old(self).reader@, chunk@).buffer,
            frame_views(r.frames@) == after_push(old(self).reader@, chunk@).frames,
            r.overflow == after_push(old(self).reader@, chunk@).overflow,
            r.decode_error == after_push(old(self).reader@, chunk@).decode_error,
            final(self).packet_received_count == old(self).packet_received_count.wrapping_add(
                r.frames.len(),
            ),
            final(self).target_data@ == cache_after(old(self).target_data@, frame_views(r.frames@)),
            final(self).local_addr == old(self).local_addr,
            final(self).local_text == old(self).local_text,
            final(self).remote_addr == old(self).remote_addr,
            final(self).running == old(self).running,
            final(self).packet_sent_count == old(self).packet_sent_count,
    {
        let outcome = self.reader.push(chunk);
        let n = outcome.frames.len();
        self.packet_received_count = self.packet_received_count.wrapping_add(n);
        let ghost views = frame_views(outcome.frames@);
        let mut i: usize = 0;
        assert(views.skip(0) =~= views);
        while i < n
            invariant
                i <= n,
                n == outcome.frames.len(),
                views == frame_views(outcome.frames@),
                self.target_data.wf(),
                cache_after(old(self).target_data@, views) == cache_after(
                    self.target_data@,
                    views.skip(i as int),
                ),
                self.reader@ == after_push(old(self).reader@, chunk@).buffer,
                self.packet_received_count == old(self).packet_received_count.wrapping_add(n),
                self.local_addr == old(self).local_addr,
                self.local_text == old(self).local_text,
                self.remote_addr == old(self).remote_addr,
                self.running == old(self).running,
                self.packet_sent_count == old(self).packet_sent_count,
            decreases n - i,
        {
            assert(views.skip(i as int).skip(1) =~= views.skip(i + 1));
            assert(views.skip(i as int)[0].packet == outcome.frames[i as int].packet@);
            Self::note_targets(&mut self.target_data, &outcome.frames[i].packet);
            i = i + 1;
        }
        outcome
    }

    /// What to do to send: one datagram to the remote address, or the error
    /// where none is set.
    pub fn prepare_send(&self) -> (r: Result<SendAction, TransportError>)
        ensures
            r == match self.remote_addr {
                Some(remote) => Ok::<SendAction, TransportError>(
                    SendAction::SendDatagram { remote },
                ),
                None => Err::<SendAction, TransportError>(TransportError::RemoteAddressNotSet),
            },
    {
        match self.remote_addr {
            Some(remote) => Ok(SendAction::SendDatagram { remote }),
            None => Err(TransportError::RemoteAddressNotSet),
        }
    }

    /// Counts one datagram as sent, after the send succeeded.
    pub fn confirm_sent(&mut self)
        ensures
            final(self).packet_sent_count == old(self).packet_sent_count.wrapping_add(1),
            final(self).local_addr == old(self).local_addr,
            final(self).local_text == old(self).local_text,
            final(self).remote_addr == old(self).remote_addr,
            final(self).running == old(self).running,
            final(self).target_data == old(self).target_data,
            final(self).reader == old(self).reader,
            final(self).packet_received_count == old(self).packet_received_count,
    {
        self.packet_sent_count = self.packet_sent_count.wrapping_add(1);
    }

    /// Sets both counters to zero.
    pub fn reset_packet_counters(&mut self)
        ensures
            final(self).packet_received_count == 0,
            final(self).packet_sent_count == 0,
            final(self).local_addr == old(self).local_addr,
            final(self).local_text == old(self).local_text,
            final(self).remote_addr == old(self).remote_addr,
            final(self).running == old(self).running,
            final(self).target_data == old(self).target_data,
            final(self).reader == old(self).reader,
    {
        self.packet_received_count = 0;
        self.packet_sent_count = 0;
    }
}

} // verus!
