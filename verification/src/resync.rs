//! Finding the next packet in a byte stream that may hold garbage.
//!
//! A packet fits at a position when the bytes from there on decode to a
//! packet whose wire format takes at least one byte and no more than are
//! there. Where no packet fits at the current start, the positions up to a
//! hundred bytes on are tried; where none of them fits either, one byte is
//! dropped and the search starts again. The search ends with the first
//! position at which a packet fits, or with nothing left.

use crate::packet::{parse_packet, Packet, PacketView};
use vstd::prelude::*;
use vstd::slice::slice_subrange;

verus! {

/// How many positions from a start at which no packet fits are tried, the
/// start included.
pub const RESYNC_WINDOW: usize = 100;

/// The packet that fits at the start of `bytes`, and the number of bytes
/// that its wire format takes: at least one and no more than there are.
/// `None` where the bytes do not decode, and where they decode to a packet
/// whose wire format is empty or longer than the bytes.
#[verifier::opaque]
pub open spec fn fitting(bytes: Seq<u8>) -> Option<(PacketView, nat)> {
    match parse_packet(bytes) {
        Some(packet) => {
            let len = packet.bytes().len();
            if 1 <= len <= bytes.len() {
                Some((packet, len))
            } else {
                None
            }
        },
        None => None,
    }
}

/// Holds where a packet fits at position `at` of `bytes`.
pub open spec fn fits_at(bytes: Seq<u8>, at: int) -> bool {
    fitting(bytes.skip(at)) is Some
}

/// The first offset from `from` up to, not including, `limit` at which a
/// packet fits.
pub open spec fn first_fit(bytes: Seq<u8>, from: nat, limit: nat) -> Option<nat>
    decreases limit - from,
{
    if from >= limit {
        None
    } else if fits_at(bytes, from as int) {
        Some(from)
    } else {
        first_fit(bytes, from + 1, limit)
    }
}

/// The outcome of a search.
#[derive(Debug, Clone, PartialEq, Eq)]
pub enum Resync {
    /// A packet fits at `start` and takes `len` bytes; the bytes before
    /// `start` are garbage.
    Frame { start: usize, len: usize, packet: Packet },
    /// No packet fits anywhere: every byte is garbage.
    Drained,
}

/// Mathematical form of a [`Resync`].
pub ghost enum ResyncView {
    Frame { start: nat, len: nat, packet: PacketView },
    Drained,
}

impl View for Resync {
    type V = ResyncView;

    open spec fn view(&self) -> ResyncView {
        match *self {
            Resync::Frame { start, len, packet } => ResyncView::Frame {
                start: start as nat,
                len: len as nat,
                packet: packet@,
            },
            Resync::Drained => ResyncView::Drained,
        }
    }
}

/// The number of offsets tried from a start with `remaining` bytes.
pub open spec fn window(remaining: nat) -> nat {
    if remaining < RESYNC_WINDOW {
        remaining
    } else {
        RESYNC_WINDOW as nat
    }
}

/// The frame at position `at`, where a packet fits there.
pub open spec fn frame_at(bytes: Seq<u8>, at: nat) -> ResyncView {
    match fitting(bytes.skip(at as int)) {
        Some((packet, len)) => ResyncView::Frame { start: at, len, packet },
        None => ResyncView::Drained,
    }
}

/// The outcome of the search in `bytes` from position `start`.
pub open spec fn resync_from(bytes: Seq<u8>, start: nat) -> ResyncView
    decreases bytes.len() - start,
{
    if start >= bytes.len() {
        ResyncView::Drained
    } else {
        let rest = bytes.skip(start as int);
        if fitting(rest) is Some {
            frame_at(bytes, start)
        } else {
            match first_fit(rest, 1, window(rest.len())) {
                Some(offset) => frame_at(bytes, start + offset),
                None => resync_from(bytes, start + 1),
            }
        }
    }
}

/// Where `first_fit` finds an offset, a packet fits there and at no offset
/// before it; where it finds none, no packet fits at any offset tried.
pub proof fn lemma_first_fit(bytes: Seq<u8>, from: nat, limit: nat)
    ensures
        match first_fit(bytes, from, limit) {
            Some(offset) => from <= offset < limit && fits_at(bytes, offset as int) && forall|
                k: int,
            |
                from <= k < offset ==> !fits_at(bytes, k),
            None => forall|k: int| from <= k < limit ==> !fits_at(bytes, k),
        },
    decreases limit - from,
{
    if from < limit && !fits_at(bytes, from as int) {
        lemma_first_fit(bytes, from + 1, limit);
    }
}

/// A packet that fits takes at least one byte and no more than there are,
/// and is the packet that the bytes decode to.
pub proof fn lemma_fitting(bytes: Seq<u8>)
    ensures
        fitting(bytes) matches Some((packet, len)) ==> 1 <= len <= bytes.len() && parse_packet(
            bytes,
        ) == Some(packet) && len == packet.bytes().len(),
{
    reveal(fitting);
}

/// Skipping twice is skipping once.
proof fn lemma_skip_skip(bytes: Seq<u8>, a: int, b: int)
    requires
        0 <= a,
        0 <= b,
        a + b <= bytes.len(),
    ensures
        bytes.skip(a).skip(b) == bytes.skip(a + b),
{
    assert(bytes.skip(a).skip(b) =~= bytes.skip(a + b));
}

/// The search always ends, and in one of two ways: with a frame that lies
/// inside the bytes, at the first position from `start` on at which a
/// packet fits, so after fewer dropped bytes than there are; or, where no
/// packet fits at any position from `start` on, with the bytes drained.
pub proof fn lemma_resync(bytes: Seq<u8>, start: nat)
    ensures
        match resync_from(bytes, start) {
            ResyncView::Frame { start: at, len, packet } => {
                &&& start <= at < bytes.len()
                &&& 1 <= len
                &&& at + len <= bytes.len()
                &&& fitting(bytes.skip(at as int)) == Some((packet, len))
                &&& forall|k: int| start <= k < at ==> !fits_at(bytes, k)
            },
            ResyncView::Drained => forall|k: int| start <= k < bytes.len() ==> !fits_at(bytes, k),
        },
    decreases bytes.len() - start,
{
    if start < bytes.len() {
        let rest = bytes.skip(start as int);
        lemma_fitting(rest);
        if fitting(rest) is None {
            let limit = window(rest.len());
            lemma_first_fit(rest, 1, limit);
            assert forall|k: int| start < k < start + limit implies fits_at(bytes, k) == fits_at(
                rest,
                k - start,
            ) by {
                lemma_skip_skip(bytes, start as int, k - start);
            }
            match first_fit(rest, 1, limit) {
                Some(offset) => {
                    lemma_skip_skip(bytes, start as int, offset as int);
                    lemma_fitting(bytes.skip((start + offset) as int));
                },
                None => {
                    lemma_resync(bytes, start + 1);
                },
            }
        }
    }
}

/// The packet that fits at the start of `data`, with the number of bytes
/// that it takes.
pub fn probe(data: &[u8]) -> (r: Option<(Packet, usize)>)
    ensures
        match r {
            Some((packet, len)) => fitting(data@) == Some((packet@, len as nat)),
            None => fitting(data@) is None,
        },
{
    reveal(fitting);
    match Packet::decode(data) {
        Ok(packet) => {
            let len = packet.encoded_len();
            if 1 <= len && len <= data.len() {
                Some((packet, len))
            } else {
                None
            }
        },
        Err(_) => None,
    }
}

/// Searches `data` from position `from` for the next packet.
pub fn resync(data: &[u8], from: usize) -> (r: Resync)
    requires
        from <= data.len(),
    ensures
        r@ == resync_from(data@, from as nat),
{
    let mut start = from;
    while start < data.len()
        invariant
            from <= start <= data.len(),
            resync_from(data@, from as nat) == resync_from(data@, start as nat),
        decreases data.len() - start,
    {
        let rest = slice_subrange(data, start, data.len());
        assert(rest@ =~= data@.skip(start as int));
        match probe(rest) {
            Some((packet, len)) => {
                return Resync::Frame { start, len, packet };
            },
            None => {
                let limit = if rest.len() < RESYNC_WINDOW {
                    rest.len()
                } else {
                    RESYNC_WINDOW
                };
                let mut offset: usize = 1;
                while offset < limit
                    invariant
                        1 <= offset,
                        limit <= rest.len(),
                        limit == window(rest@.len()),
                        from <= start,
                        resync_from(data@, from as nat) == resync_from(data@, start as nat),
                        fitting(rest@) is None,
                        rest@ == data@.skip(start as int),
                        start < data.len(),
                        rest.len() == data.len() - start,
                        first_fit(rest@, 1, limit as nat) == first_fit(
                            rest@,
                            offset as nat,
                            limit as nat,
                        ),
                    decreases limit - offset,
                {
                    let tail = slice_subrange(rest, offset, rest.len());
                    assert(tail@ =~= data@.skip(start + offset));
                    assert(tail@ =~= rest@.skip(offset as int));
                    match probe(tail) {
                        Some((packet, len)) => {
                            return Resync::Frame { start: start + offset, len, packet };
                        },
                        None => {},
                    }
                    offset = offset + 1;
                }
                start = start + 1;
            },
        }
    }
    Resync::Drained
}

} // verus!
