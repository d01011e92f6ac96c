//! The read side of a transport: bytes are gathered in a buffer until it
//! ends with the delimiter, and the frames found before it are handed out.

use crate::frame::{
    ends_with_delimiter, frame, frame_bytes, has_delimiter, strip_delimiter, DELIMITER_LEN,
};
use crate::packet::{Packet, PacketView};
use crate::resync::{
    fitting, lemma_first_fit, lemma_resync, resync, resync_from, window, Resync, ResyncView,
};
use vstd::prelude::*;
use vstd::slice::slice_subrange;

verus! {

/// The most bytes that a reader keeps while it waits for a delimiter.
pub const MAX_BUFFER_SIZE: usize = 1024 * 1024;

/// The size of the scratch that a serial read fills.
pub const SERIAL_READ_SIZE: usize = 1024;

/// The size of the buffer that a datagram is received into.
pub const DATAGRAM_READ_SIZE: usize = 65535;

/// A packet together with the bytes of its frame.
#[derive(Debug, Clone, PartialEq, Eq)]
pub struct DecodedFrame {
    pub packet: Packet,
    pub raw: Vec<u8>,
}

/// Mathematical form of a [`DecodedFrame`].
pub ghost struct DecodedFrameView {
    pub packet: PacketView,
    pub raw: Seq<u8>,
}

impl View for DecodedFrame {
    type V = DecodedFrameView;

    open spec fn view(&self) -> DecodedFrameView {
        DecodedFrameView { packet: self.packet@, raw: self.raw@ }
    }
}

/// The views of a sequence of frames, in order.
pub open spec fn frame_views(frames: Seq<DecodedFrame>) -> Seq<DecodedFrameView> {
    Seq::new(frames.len(), |i: int| frames[i]@)
}

/// What one push of bytes gave.
#[derive(Debug, Clone, PartialEq, Eq)]
pub struct ReadOutcome {
    /// The frames found, in the order of their bytes.
    pub frames: Vec<DecodedFrame>,
    /// The buffer grew past its limit and was dropped whole.
    pub overflow: bool,
    /// The buffer ended with the delimiter, and the bytes before it did not
    /// decode from their start.
    pub decode_error: bool,
}

/// Mathematical form of the state after a push and of its outcome.
pub ghost struct PushView {
    pub buffer: Seq<u8>,
    pub frames: Seq<DecodedFrameView>,
    pub overflow: bool,
    pub decode_error: bool,
}

/// The frames in `body` from position `pos` on: the next packet that fits
/// is searched for, taken with the delimiter as its frame, and the search
/// goes on behind it until nothing is left.
pub open spec fn extract(body: Seq<u8>, pos: nat) -> Seq<DecodedFrameView>
    decreases body.len() - pos,
{
    match resync_from(body, pos) {
        ResyncView::Frame { start, len, packet } => if pos <= start && 1 <= len && start + len
            <= body.len() {
            seq![
                DecodedFrameView {
                    packet,
                    raw: frame_bytes(body.subrange(start as int, (start + len) as int)),
                },
            ] + extract(body, start + len)
        } else {
            Seq::empty()
        },
        ResyncView::Drained => Seq::empty(),
    }
}

/// The buffer and the outcome after `chunk` is pushed onto `buffer`.
/// Past the limit the bytes are dropped. Without the delimiter at the end
/// the bytes wait. With it, the frames before it are handed out and
/// nothing stays: what is no frame is garbage.
pub open spec fn after_push(buffer: Seq<u8>, chunk: Seq<u8>) -> PushView {
    let all = buffer + chunk;
    if all.len() > MAX_BUFFER_SIZE {
        PushView { buffer: Seq::empty(), frames: Seq::empty(), overflow: true, decode_error: false }
    } else {
        match strip_delimiter(all) {
            None => PushView {
                buffer: all,
                frames: Seq::empty(),
                overflow: false,
                decode_error: false,
            },
            Some(body) => PushView {
                buffer: Seq::empty(),
                frames: extract(body, 0),
                overflow: false,
                decode_error: body.len() > 0 && fitting(body) is None,
            },
        }
    }
}

/// The search from the very start finds a frame at position zero exactly
/// where a packet fits at the start of the bytes.
pub proof fn lemma_resync_at_zero(body: Seq<u8>)
    requires
        body.len() > 0,
    ensures
        (fitting(body) is None) <==> !(resync_from(body, 0) matches ResyncView::Frame {
            start,
            ..
        } && start == 0),
{
    assert(body.skip(0) =~= body);
    if fitting(body) is None {
        lemma_first_fit(body, 1, window(body.len()));
        lemma_resync(body, 1);
    }
}

/// Bytes that do not end with the delimiter wait: nothing is handed out
/// and nothing is dropped, as long as the buffer stays within its limit.
pub proof fn lemma_waits_for_delimiter(buffer: Seq<u8>, chunk: Seq<u8>)
    requires
        (buffer + chunk).len() <= MAX_BUFFER_SIZE,
        !ends_with_delimiter(buffer + chunk),
    ensures
        after_push(buffer, chunk) == (PushView {
            buffer: buffer + chunk,
            frames: Seq::empty(),
            overflow: false,
            decode_error: false,
        }),
{
}

/// A frame of which only a part of the delimiter has come waits for the
/// rest.
pub proof fn lemma_waits_for_rest_of_delimiter(body: Seq<u8>, kept: int)
    requires
        0 <= kept <= 3,
        body.len() + kept <= MAX_BUFFER_SIZE,
        kept == 0 ==> !ends_with_delimiter(body),
    ensures
        after_push(Seq::empty(), body + crate::frame::delimiter_bytes().take(kept)) == (PushView {
            buffer: body + crate::frame::delimiter_bytes().take(kept),
            frames: Seq::empty(),
            overflow: false,
            decode_error: false,
        }),
{
    let cut = body + crate::frame::delimiter_bytes().take(kept);
    assert(Seq::<u8>::empty() + cut =~= cut);
    if kept == 0 {
        assert(cut =~= body);
    } else {
        crate::frame::lemma_cut_delimiter(body, kept);
    }
}

/// The buffer is dropped, and the overflow told, exactly where the bytes
/// grow past the limit; nothing is handed out then. What is kept after a
/// push is always within the limit, so that one overflow is told once.
pub proof fn lemma_overflow(buffer: Seq<u8>, chunk: Seq<u8>)
    ensures
        after_push(buffer, chunk).overflow <==> (buffer + chunk).len() > MAX_BUFFER_SIZE,
        after_push(buffer, chunk).overflow ==> after_push(buffer, chunk).buffer.len() == 0
            && after_push(buffer, chunk).frames.len() == 0,
        after_push(buffer, chunk).buffer.len() <= MAX_BUFFER_SIZE,
{
}

/// The frame of a canonical packet that comes whole into an empty buffer
/// is handed out as it is, and nothing stays.
pub proof fn lemma_whole_frame(packet: PacketView)
    requires
        packet.canonical(),
        1 <= packet.bytes().len(),
        packet.bytes().len() + 4 <= MAX_BUFFER_SIZE,
    ensures
        after_push(Seq::empty(), frame_bytes(packet.bytes())) == (PushView {
            buffer: Seq::empty(),
            frames: seq![DecodedFrameView { packet, raw: frame_bytes(packet.bytes()) }],
            overflow: false,
            decode_error: false,
        }),
{
    let body = packet.bytes();
    let framed = frame_bytes(body);
    assert(Seq::<u8>::empty() + framed =~= framed);
    crate::frame::lemma_frame_round_trip(packet);
    assert(body.skip(0) =~= body);
    assert(fitting(body) == Some((packet, body.len()))) by {
        reveal(fitting);
    }
    assert(body.subrange(0, body.len() as int) =~= body);
    assert(resync_from(body, body.len()) == ResyncView::Drained);
    assert(extract(body, body.len()) =~= Seq::<DecodedFrameView>::empty());
    assert(extract(body, 0) =~= seq![DecodedFrameView { packet, raw: framed }]);
}

/// A buffer of received bytes that have not yet made a frame.
#[derive(Debug, Clone, PartialEq, Eq)]
pub struct FrameReader {
    buffer: Vec<u8>,
}

impl View for FrameReader {
    type V = Seq<u8>;

    closed spec fn view(&self) -> Seq<u8> {
        self.buffer@
    }
}

impl FrameReader {
    /// A reader that holds no bytes.
    pub fn new() -> (r: FrameReader)
        ensures
            r@ == Seq::<u8>::empty(),
    {
        FrameReader { buffer: Vec::new() }
    }

    /// The bytes that wait for more.
    pub fn buffered(&self) -> (r: &[u8])
        ensures
            r@ == self@,
    {
        self.buffer.as_slice()
    }

    /// The number of bytes that wait for more.
    pub fn len(&self) -> (r: usize)
        ensures
            r == self@.len(),
    {
        self.buffer.len()
    }

    /// Drops the bytes that wait.
    pub fn clear(&mut self)
        ensures
            final(self)@ == Seq::<u8>::empty(),
    {
        self.buffer.clear();
    }

    /// Takes in the bytes of one read and hands out the frames that are
    /// complete with them.
    pub fn push(&mut self, chunk: &[u8]) -> (r: ReadOutcome)
        ensures
            final(self)@ == after_push(old(self)@, chunk@).buffer,
            frame_views(r.frames@) == after_push(old(self)@, chunk@).frames,
            r.overflow == after_push(old(self)@, chunk@).overflow,
            r.decode_error == after_push(old(self)@, chunk@).decode_error,
    {
        let ghost all = old(self)@ + chunk@;
        self.buffer.extend_from_slice(chunk);
        assert(self.buffer@ == all);
        let mut frames: Vec<DecodedFrame> = Vec::new();
        assert(frame_views(frames@) =~= Seq::<DecodedFrameView>::empty());
        if self.buffer.len() > MAX_BUFFER_SIZE {
            self.buffer.clear();
            return ReadOutcome { frames, overflow: true, decode_error: false };
        }
        if !has_delimiter(self.buffer.as_slice()) {
            return ReadOutcome { frames, overflow: false, decode_error: false };
        }
        let body_len = self.buffer.len() - DELIMITER_LEN;
        let body = slice_subrange(self.buffer.as_slice(), 0, body_len);
        assert(body@ =~= all.take(all.len() - 4));
        let mut pos: usize = 0;
        let mut searching = true;
        let mut decode_error = false;
        assert(frame_views(frames@) + extract(body@, 0) =~= extract(body@, 0));
        while searching && pos < body_len
            invariant
                pos <= body_len,
                body_len == body@.len(),
                searching ==> extract(body@, 0) == frame_views(frames@) + extract(
                    body@,
                    pos as nat,
                ),
                !searching ==> extract(body@, 0) == frame_views(frames@),
                (pos == 0 && searching) ==> !decode_error,
                (pos > 0 || !searching) ==> body_len > 0,
                (pos > 0 || !searching) ==> decode_error == (fitting(body@) is None),
            decreases (if searching { 1int } else { 0int }), body_len - pos,
        {
            proof {
                lemma_resync(body@, pos as nat);
                if pos == 0 {
                    lemma_resync_at_zero(body@);
                }
            }
            let ghost before = frame_views(frames@);
            match resync(body, pos) {
                Resync::Frame { start, len, packet } => {
                    if pos == 0 {
                        decode_error = start != 0;
                    }
                    let raw = frame(slice_subrange(body, start, start + len));
                    let found = DecodedFrame { packet, raw };
                    frames.push(found);
                    proof {
                        let rest = extract(body@, (start + len) as nat);
                        assert(frame_views(frames@) =~= before.push(found@));
                        assert(before + (seq![found@] + rest) =~= frame_views(frames@) + rest);
                    }
                    pos = start + len;
                },
                Resync::Drained => {
                    if pos == 0 {
                        decode_error = true;
                    }
                    searching = false;
                    assert(before + Seq::<DecodedFrameView>::empty() =~= before);
                },
            }
        }
        proof {
            if searching {
                assert(frame_views(frames@) + Seq::<DecodedFrameView>::empty() =~= frame_views(
                    frames@,
                ));
            }
        }
        self.buffer.clear();
        ReadOutcome { frames, overflow: false, decode_error }
    }
}

} // verus!
