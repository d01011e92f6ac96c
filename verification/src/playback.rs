//! Playback of a simulation to a datagram endpoint: the target packets are
//! grouped by target in a hash map, the targets are put in the order in
//! which the map is walked once, and step `k` sends the `k`-th packet of
//! every target that has one, in that order, as one frame.

use crate::frame::{frame_bytes, lemma_frame_round_trip, parse_frame, put_delimiter, FrameError};
use crate::packet::{Kind, KindView, Packet, PacketView, TargetPacketList};
use crate::target::TargetPacket;
use std::collections::HashMap;
use vstd::prelude::*;

verus! {

broadcast use vstd::std_specs::hash::group_hash_axioms;

/// The packets of target `target_id`, in order.
pub open spec fn packets_of(packets: Seq<TargetPacket>, target_id: u32) -> Seq<TargetPacket>
    decreases packets.len(),
{
    if packets.len() == 0 {
        Seq::empty()
    } else if packets.last().target_id == target_id {
        packets_of(packets.drop_last(), target_id).push(packets.last())
    } else {
        packets_of(packets.drop_last(), target_id)
    }
}

/// Holds where `groups` are the packets grouped by target: one group for
/// each target that has a packet, with the packets of the target in the
/// order in which they were given.
pub open spec fn grouped(groups: Map<u32, Vec<TargetPacket>>, packets: Seq<TargetPacket>) -> bool {
    forall|target_id: u32|
        (#[trigger] groups.contains_key(target_id) <==> packets_of(packets, target_id).len() > 0)
            && (groups.contains_key(target_id) ==> groups[target_id]@ == packets_of(
            packets,
            target_id,
        ))
}

/// Holds where `order` names the targets of `groups`, each once.
pub open spec fn walks(order: Seq<u32>, groups: Map<u32, Vec<TargetPacket>>) -> bool {
    &&& order.no_duplicates()
    &&& order.to_set() == groups.dom()
}

/// The largest number of packets that one of the targets `order` has in
/// `groups`.
pub open spec fn longest(groups: Map<u32, Vec<TargetPacket>>, order: Seq<u32>) -> nat
    decreases order.len(),
{
    if order.len() == 0 {
        0
    } else {
        let rest = longest(groups, order.drop_last());
        if groups.contains_key(order.last()) && groups[order.last()]@.len() > rest {
            groups[order.last()]@.len()
        } else {
            rest
        }
    }
}

/// The packets of step `step`: the packet at that place of the group of
/// every target of `order` that has one, in that order.
pub open spec fn step_packets(
    groups: Map<u32, Vec<TargetPacket>>,
    order: Seq<u32>,
    step: nat,
) -> Seq<TargetPacket>
    decreases order.len(),
{
    if order.len() == 0 {
        Seq::empty()
    } else if groups.contains_key(order.last()) && step < groups[order.last()]@.len() {
        step_packets(groups, order.drop_last(), step).push(groups[order.last()]@[step as int])
    } else {
        step_packets(groups, order.drop_last(), step)
    }
}

/// The frame of step `step`: the packets of the step as one list, or
/// `None` where the step has no packet.
pub open spec fn step_frame(
    groups: Map<u32, Vec<TargetPacket>>,
    order: Seq<u32>,
    step: nat,
) -> Option<Seq<u8>> {
    let packets = step_packets(groups, order, step);
    if packets.len() == 0 {
        None
    } else {
        Some(
            frame_bytes(
                (PacketView { kind: Some(KindView::TargetPacketList(packets)) }).bytes(),
            ),
        )
    }
}

/// The packet at place `step` of each of the targets `order` that has one,
/// in the order of the targets.
pub open spec fn samples_at(packets: Seq<TargetPacket>, order: Seq<u32>, step: nat) -> Seq<
    TargetPacket,
>
    decreases order.len(),
{
    if order.len() == 0 {
        Seq::empty()
    } else if step < packets_of(packets, order.last()).len() {
        samples_at(packets, order.drop_last(), step).push(
            packets_of(packets, order.last())[step as int],
        )
    } else {
        samples_at(packets, order.drop_last(), step)
    }
}

/// The largest number of packets that one of the targets `order` has.
pub open spec fn most_samples(packets: Seq<TargetPacket>, order: Seq<u32>) -> nat
    decreases order.len(),
{
    if order.len() == 0 {
        0
    } else {
        let rest = most_samples(packets, order.drop_last());
        if packets_of(packets, order.last()).len() > rest {
            packets_of(packets, order.last()).len()
        } else {
            rest
        }
    }
}

/// Holds where the steps of `groups`, walked in `order`, are those of
/// `packets`: there are as many as the target of `order` with the most
/// packets has packets, and each holds the packet at its place of every
/// target of `order` that has one.
pub open spec fn aligned(
    groups: Map<u32, Vec<TargetPacket>>,
    order: Seq<u32>,
    packets: Seq<TargetPacket>,
) -> bool {
    &&& longest(groups, order) == most_samples(packets, order)
    &&& forall|step: nat| #[trigger]
        step_packets(groups, order, step) == samples_at(packets, order, step)
}

/// Holds where `groups`, walked in `order`, play `packets`: every target
/// that has a packet is walked once, there are as many steps as the target
/// with the most packets has packets, each of them has a frame and no step
/// past them has one, and each step holds the packet at its place of every
/// target that has one.
pub open spec fn plays(
    groups: Map<u32, Vec<TargetPacket>>,
    order: Seq<u32>,
    packets: Seq<TargetPacket>,
) -> bool {
    &&& grouped(groups, packets)
    &&& walks(order, groups)
    &&& aligned(groups, order, packets)
    &&& forall|target_id: u32| #[trigger]
        order.contains(target_id) <==> packets_of(packets, target_id).len() > 0
    &&& forall|target_id: u32| #[trigger]
        packets_of(packets, target_id).len() <= most_samples(packets, order)
    &&& forall|step: nat|
        step < most_samples(packets, order) <==> (#[trigger] step_frame(groups, order, step))
            is Some
}

/// A step at or past the longest group has no packet, and a step before it
/// has one.
pub proof fn lemma_steps(groups: Map<u32, Vec<TargetPacket>>, order: Seq<u32>, step: nat)
    ensures
        step >= longest(groups, order) <==> step_packets(groups, order, step).len() == 0,
        step_packets(groups, order, step).len() <= order.len(),
    decreases order.len(),
{
    if order.len() > 0 {
        lemma_steps(groups, order.drop_last(), step);
    }
}

/// Groups of `packets` have, in whatever order they are walked, the steps
/// and the length of the targets of that order, and no target of the
/// order has more packets than the longest.
pub proof fn lemma_groups_align(
    groups: Map<u32, Vec<TargetPacket>>,
    packets: Seq<TargetPacket>,
    order: Seq<u32>,
    step: nat,
)
    requires
        grouped(groups, packets),
    ensures
        step_packets(groups, order, step) == samples_at(packets, order, step),
        longest(groups, order) == most_samples(packets, order),
        forall|i: int|
            0 <= i < order.len() ==> packets_of(packets, #[trigger] order[i]).len() <= longest(
                groups,
                order,
            ),
    decreases order.len(),
{
    if order.len() > 0 {
        let front = order.drop_last();
        lemma_groups_align(groups, packets, front, step);
        assert(groups.contains_key(order.last()) <==> packets_of(packets, order.last()).len() > 0);
        assert forall|i: int| 0 <= i < order.len() implies packets_of(
            packets,
            #[trigger] order[i],
        ).len() <= longest(groups, order) by {
            if i < front.len() {
                assert(front[i] == order[i]);
            }
        }
    }
}

/// A playback sends, at each step, the packet at that place of every target
/// that has one, in the order of its targets, as one list in one frame. It
/// has as many steps as the target with the most packets has packets: each
/// step below that number has a frame, and no step from it on. The frame of
/// a step reads back to the list of its packets where that list is
/// canonical, and the step after step `step` is due one interval after
/// each step up to and with it.
pub proof fn lemma_playback_alignment(
    groups: Map<u32, Vec<TargetPacket>>,
    order: Seq<u32>,
    packets: Seq<TargetPacket>,
    step: nat,
    start_ms: u64,
    interval_ms: u64,
)
    requires
        grouped(groups, packets),
        walks(order, groups),
    ensures
        longest(groups, order) == most_samples(packets, order),
        forall|target_id: u32| #[trigger]
            packets_of(packets, target_id).len() <= longest(groups, order),
        forall|target_id: u32| #[trigger]
            order.contains(target_id) <==> packets_of(packets, target_id).len() > 0,
        step_packets(groups, order, step) == samples_at(packets, order, step),
        step < longest(groups, order) <==> step_frame(groups, order, step) is Some,
        step_frame(groups, order, step) matches Some(bytes) ==> {
            let list = PacketView {
                kind: Some(KindView::TargetPacketList(samples_at(packets, order, step))),
            };
            bytes == frame_bytes(list.bytes()) && (list.canonical() ==> parse_frame(bytes) == Ok::<
                PacketView,
                FrameError,
            >(list))
        },
        start_ms + (step + 1) * interval_ms <= u64::MAX ==> deadline_after(
            start_ms,
            step,
            interval_ms,
        ) == start_ms + (step + 1) * interval_ms,
{
    lemma_groups_align(groups, packets, order, step);
    lemma_steps(groups, order, step);
    assert forall|target_id: u32| #[trigger]
        order.contains(target_id) <==> packets_of(packets, target_id).len() > 0 by {
        assert(order.to_set().contains(target_id) <==> order.contains(target_id));
        assert(groups.dom().contains(target_id) <==> groups.contains_key(target_id));
    }
    assert forall|target_id: u32| #[trigger]
        packets_of(packets, target_id).len() <= longest(groups, order) by {
        if order.contains(target_id) {
            let i = choose|i: int| 0 <= i < order.len() && order[i] == target_id;
            assert(packets_of(packets, order[i]).len() <= longest(groups, order));
        }
    }
    if let Some(bytes) = step_frame(groups, order, step) {
        let list = PacketView {
            kind: Some(KindView::TargetPacketList(samples_at(packets, order, step))),
        };
        if list.canonical() {
            lemma_frame_round_trip(list);
        }
    }
}

/// The schedule of a playback.
#[derive(Debug, Clone, PartialEq, Eq)]
pub struct Playback {
    /// The packets of each target, in the order in which they were given.
    pub groups: HashMap<u32, Vec<TargetPacket>>,
    /// The targets, each once, in the order in which the groups were walked
    /// when the playback was made. Every step follows this order.
    pub order: Vec<u32>,
}

impl Playback {
    /// Groups `packets` by target.
    fn group(packets: &Vec<TargetPacket>) -> (r: HashMap<u32, Vec<TargetPacket>>)
        ensures
            grouped(r@, packets@),
    {
        let mut groups: HashMap<u32, Vec<TargetPacket>> = HashMap::new();
        let mut i: usize = 0;
        assert(packets@.take(0) =~= Seq::<TargetPacket>::empty());
        while i < packets.len()
            invariant
                i <= packets.len(),
                grouped(groups@, packets@.take(i as int)),
            decreases packets.len() - i,
        {
            let packet = packets[i];
            let ghost seen = packets@.take(i as int);
            let ghost next = packets@.take(i + 1);
            let ghost before = groups@;
            proof {
                assert(next.drop_last() =~= seen);
                assert(next.last() == packet);
                assert(before.contains_key(packet.target_id) <==> packets_of(
                    seen,
                    packet.target_id,
                ).len() > 0);
            }
            let mut group = match groups.remove(&packet.target_id) {
                Some(group) => group,
                None => Vec::new(),
            };
            assert(group@ =~= packets_of(seen, packet.target_id));
            group.push(packet);
            let _ = groups.insert(packet.target_id, group);
            proof {
                assert forall|target_id: u32|
                    (#[trigger] groups@.contains_key(target_id) <==> packets_of(
                        next,
                        target_id,
                    ).len() > 0) && (groups@.contains_key(target_id) ==> groups@[target_id]@
                        == packets_of(next, target_id)) by {
                    assert(before.contains_key(target_id) <==> packets_of(seen, target_id).len()
                        > 0);
                }
            }
            i = i + 1;
        }
        assert(packets@.take(i as int) =~= packets@);
        groups
    }

    /// The targets of `groups`, each once, in the order in which the map
    /// is walked.
    fn walk(groups: &HashMap<u32, Vec<TargetPacket>>) -> (r: Vec<u32>)
        ensures
            walks(r@, groups@),
    {
        let mut out: Vec<u32> = Vec::new();
        proof {
            if groups@.dom().len() == 0 {
                assert(groups@.dom() =~= Set::empty());
            }
            assert(out@.to_set() =~= Set::empty());
        }
        for target_id in walk: groups.keys()
            invariant
                out@.len() == walk.index(),
                forall|j: int| 0 <= j < out@.len() ==> out@[j] == *walk.seq()[j],
                walk.seq().no_duplicates(),
                walk.seq().unref().to_set() == groups@.dom(),
                walk.seq().len() == groups@.dom().len(),
                walk.index() == walk.seq().len() ==> out@.to_set() == groups@.dom(),
        {
            out.push(*target_id);
            assert(walk.index() + 1 == walk.seq().len() ==> out@ =~= walk.seq().unref());
        }
        out
    }

    /// Groups `packets` by target, and puts the targets in the order in
    /// which the groups are walked, which is not told beforehand. The
    /// playback has as many steps as the target with the most packets has
    /// packets, and each step holds the packet at that place of every
    /// target that has one.
    pub fn new(packets: &Vec<TargetPacket>) -> (r: Playback)
        ensures
            plays(r.groups@, r.order@, packets@),
    {
        let groups = Self::group(packets);
        let order = Self::walk(&groups);
        proof {
            assert forall|step: nat|
                step < most_samples(packets@, order@) <==> (#[trigger] step_frame(
                    groups@,
                    order@,
                    step,
                )) is Some by {
                lemma_playback_alignment(groups@, order@, packets@, step, 0, 0);
            }
            lemma_playback_alignment(groups@, order@, packets@, 0, 0, 0);
            assert forall|step: nat| #[trigger]
                step_packets(groups@, order@, step) == samples_at(packets@, order@, step) by {
                lemma_groups_align(groups@, packets@, order@, step);
            }
            lemma_groups_align(groups@, packets@, order@, 0);
        }
        Playback { groups, order }
    }

    /// The number of steps: the largest number of packets of one target.
    pub fn max_steps(&self) -> (r: usize)
        ensures
            r == longest(self.groups@, self.order@),
    {
        let mut most: usize = 0;
        let mut i: usize = 0;
        assert(self.order@.take(0) =~= Seq::<u32>::empty());
        while i < self.order.len()
            invariant
                i <= self.order.len(),
                most == longest(self.groups@, self.order@.take(i as int)),
            decreases self.order.len() - i,
        {
            proof {
                let next = self.order@.take(i + 1);
                assert(next.drop_last() =~= self.order@.take(i as int));
                assert(next.last() == self.order@[i as int]);
            }
            match self.groups.get(&self.order[i]) {
                Some(group) => {
                    if group.len() > most {
                        most = group.len();
                    }
                },
                None => {},
            }
            i = i + 1;
        }
        assert(self.order@.take(i as int) =~= self.order@);
        most
    }

    /// The packets of step `step`, in the order of the targets.
    pub fn packets_at(&self, step: usize) -> (r: Vec<TargetPacket>)
        ensures
            r@ == step_packets(self.groups@, self.order@, step as nat),
    {
        let mut out: Vec<TargetPacket> = Vec::new();
        let mut i: usize = 0;
        assert(self.order@.take(0) =~= Seq::<u32>::empty());
        while i < self.order.len()
            invariant
                i <= self.order.len(),
                out@ == step_packets(self.groups@, self.order@.take(i as int), step as nat),
            decreases self.order.len() - i,
        {
            proof {
                let next = self.order@.take(i + 1);
                assert(next.drop_last() =~= self.order@.take(i as int));
                assert(next.last() == self.order@[i as int]);
            }
            match self.groups.get(&self.order[i]) {
                Some(group) => {
                    if step < group.len() {
                        out.push(group[step]);
                    }
                },
                None => {},
            }
            i = i + 1;
        }
        assert(self.order@.take(i as int) =~= self.order@);
        out
    }

    /// The datagram of step `step`: one frame that holds the packets of the
    /// step as a list, or `None` where the step has no packet, which is so
    /// exactly from the number of steps on.
    pub fn datagram_at(&self, step: usize) -> (r: Option<Vec<u8>>)
        ensures
            match r {
                Some(bytes) => step_frame(self.groups@, self.order@, step as nat) == Some(bytes@),
                None => step_frame(self.groups@, self.order@, step as nat) is None,
            },
            r is None <==> step >= longest(self.groups@, self.order@),
    {
        proof {
            lemma_steps(self.groups@, self.order@, step as nat);
        }
        let packets = self.packets_at(step);
        if packets.len() == 0 {
            None
        } else {
            let packet = Packet { kind: Some(Kind::TargetPacketList(TargetPacketList { packets })) };
            let mut bytes = packet.encode();
            put_delimiter(&mut bytes);
            Some(bytes)
        }
    }
}

/// The time at which the step after step `step` is due, in milliseconds:
/// the start and one interval for each step up to and with `step`,
/// or the largest time where that is past it.
pub open spec fn deadline_after(start_ms: u64, step: nat, interval_ms: u64) -> u64 {
    let due = start_ms + (step + 1) * interval_ms;
    if due > u64::MAX {
        u64::MAX
    } else {
        due as u64
    }
}

/// The time until which the playback sleeps after step `step`.
pub fn step_deadline(start_ms: u64, step: usize, interval_ms: u64) -> (r: u64)
    ensures
        r == deadline_after(start_ms, step as nat, interval_ms),
{
    let steps: u128 = step as u128 + 1;
    assert(steps * (interval_ms as u128) <= 0x1_0000_0000_0000_0000 * 0xffff_ffff_ffff_ffff)
        by (nonlinear_arith)
        requires
            steps <= 0x1_0000_0000_0000_0000,
            interval_ms <= 0xffff_ffff_ffff_ffff,
    ;
    let due: u128 = start_ms as u128 + steps * (interval_ms as u128);
    if due > u64::MAX as u128 {
        u64::MAX
    } else {
        due as u64
    }
}

} // verus!
