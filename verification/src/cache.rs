//! The latest target packet of each target that a datagram endpoint has
//! seen, kept in a hash map under the number of the target.

use crate::target::TargetPacket;
use std::collections::HashMap;
use vstd::prelude::*;

verus! {

broadcast use vstd::std_specs::hash::group_hash_axioms;

/// The entry of target `target_id`, if there is one.
pub open spec fn latest(entries: Map<u32, TargetPacket>, target_id: u32) -> Option<TargetPacket> {
    if entries.contains_key(target_id) {
        Some(entries[target_id])
    } else {
        None
    }
}

/// The entries after `packet` came: it is the entry of its target, and
/// every other target keeps its entry.
pub open spec fn upserted(entries: Map<u32, TargetPacket>, packet: TargetPacket) -> Map<
    u32,
    TargetPacket,
> {
    entries.insert(packet.target_id, packet)
}

/// The entries after the packets of `packets` came, one after the other.
pub open spec fn upserted_all(entries: Map<u32, TargetPacket>, packets: Seq<TargetPacket>) -> Map<
    u32,
    TargetPacket,
>
    decreases packets.len(),
{
    if packets.len() == 0 {
        entries
    } else {
        upserted_all(upserted(entries, packets[0]), packets.skip(1))
    }
}

/// Holds where every entry stands under the number of its own target.
pub open spec fn keyed_by_target(entries: Map<u32, TargetPacket>) -> bool {
    forall|target_id: u32| #[trigger]
        entries.contains_key(target_id) ==> entries[target_id].target_id == target_id
}

/// Holds where `listed` are the entries, each once, in some order.
pub open spec fn lists(listed: Seq<TargetPacket>, entries: Map<u32, TargetPacket>) -> bool {
    &&& listed.len() == entries.dom().len()
    &&& listed.to_set() == entries.values()
}

/// Upserting makes the packet the latest of its target, while every other
/// target keeps its entry, and keeps every entry under the number of its
/// own target.
pub proof fn lemma_upserted(entries: Map<u32, TargetPacket>, packet: TargetPacket)
    ensures
        latest(upserted(entries, packet), packet.target_id) == Some(packet),
        forall|other: u32|
            other != packet.target_id ==> latest(upserted(entries, packet), other) == latest(
                entries,
                other,
            ),
        keyed_by_target(entries) ==> keyed_by_target(upserted(entries, packet)),
{
}

/// Upserting a sequence of packets keeps every entry under the number of
/// its own target.
pub proof fn lemma_upserted_all(entries: Map<u32, TargetPacket>, packets: Seq<TargetPacket>)
    requires
        keyed_by_target(entries),
    ensures
        keyed_by_target(upserted_all(entries, packets)),
    decreases packets.len(),
{
    if packets.len() > 0 {
        lemma_upserted(entries, packets[0]);
        lemma_upserted_all(upserted(entries, packets[0]), packets.skip(1));
    }
}

/// Every packet of a list of the entries is the latest of its target, and
/// every target that has an entry is listed.
pub proof fn lemma_lists(listed: Seq<TargetPacket>, entries: Map<u32, TargetPacket>)
    requires
        lists(listed, entries),
        keyed_by_target(entries),
    ensures
        forall|i: int|
            0 <= i < listed.len() ==> latest(entries, (#[trigger] listed[i]).target_id) == Some(
                listed[i],
            ),
        forall|target_id: u32| #[trigger]
            entries.contains_key(target_id) ==> listed.contains(entries[target_id]),
{
    assert forall|i: int| 0 <= i < listed.len() implies latest(
        entries,
        (#[trigger] listed[i]).target_id,
    ) == Some(listed[i]) by {
        assert(listed.to_set().contains(listed[i]));
        assert(entries.values().contains(listed[i]));
        let key = choose|key: u32| entries.contains_key(key) && entries[key] == listed[i];
        assert(entries.contains_key(key));
    }
    assert forall|target_id: u32| #[trigger] entries.contains_key(target_id) implies listed.contains(
        entries[target_id],
    ) by {
        assert(entries.values().contains(entries[target_id]));
        assert(listed.to_set().contains(entries[target_id]));
    }
}

/// The latest target packets, one for each target.
#[derive(Debug, Clone, PartialEq, Eq)]
pub struct TargetCache {
    entries: HashMap<u32, TargetPacket>,
}

impl View for TargetCache {
    type V = Map<u32, TargetPacket>;

    closed spec fn view(&self) -> Map<u32, TargetPacket> {
        self.entries@
    }
}

impl TargetCache {
    /// Holds of a cache in which every entry stands under the number of
    /// its own target, as the functions of this type make and keep it.
    pub closed spec fn wf(&self) -> bool {
        keyed_by_target(self.entries@)
    }

    /// Every entry of a cache stands under the number of its own target,
    /// and there are finitely many.
    pub proof fn lemma_keyed(&self)
        requires
            self.wf(),
        ensures
            keyed_by_target(self@),
            self@.dom().finite(),
    {
    }

    /// A cache without entries.
    pub fn new() -> (r: TargetCache)
        ensures
            r@ == Map::<u32, TargetPacket>::empty(),
            r.wf(),
    {
        TargetCache { entries: HashMap::new() }
    }

    /// The number of targets seen.
    pub fn len(&self) -> (r: usize)
        ensures
            r == self@.dom().len(),
    {
        self.entries.len()
    }

    /// The latest packet of `target_id`, if the target was seen.
    pub fn get(&self, target_id: u32) -> (r: Option<TargetPacket>)
        ensures
            r == latest(self@, target_id),
    {
        match self.entries.get(&target_id) {
            Some(packet) => Some(*packet),
            None => None,
        }
    }

    /// Takes in `packet` as the latest of its target.
    pub fn upsert(&mut self, packet: TargetPacket)
        requires
            old(self).wf(),
        ensures
            final(self).wf(),
            final(self)@ == upserted(old(self)@, packet),
    {
        let _ = self.entries.insert(packet.target_id, packet);
    }

    /// Takes in `packets`, one after the other.
    pub fn upsert_all(&mut self, packets: &Vec<TargetPacket>)
        requires
            old(self).wf(),
        ensures
            final(self).wf(),
            final(self)@ == upserted_all(old(self)@, packets@),
    {
        let mut i: usize = 0;
        assert(packets@.skip(0) =~= packets@);
        while i < packets.len()
            invariant
                i <= packets.len(),
                self.wf(),
                upserted_all(old(self)@, packets@) == upserted_all(self@, packets@.skip(i as int)),
            decreases packets.len() - i,
        {
            assert(packets@.skip(i as int).skip(1) =~= packets@.skip(i + 1));
            self.upsert(packets[i]);
            i = i + 1;
        }
    }

    /// The entries, each once, in the order in which the map is walked.
    pub fn list(&self) -> (r: Vec<TargetPacket>)
        ensures
            lists(r@, self@),
    {
        let mut out: Vec<TargetPacket> = Vec::new();
        proof {
            if self.entries@.dom().len() == 0 {
                assert(self.entries@.dom() =~= Set::empty());
                assert(self.entries@.values() =~= Set::empty());
            }
            assert(out@.to_set() =~= Set::empty());
        }
        for packet in walk: self.entries.values()
            invariant
                out@.len() == walk.index(),
                forall|j: int| 0 <= j < out@.len() ==> out@[j] == *walk.seq()[j],
                walk.seq().unref().to_set() == self.entries@.values(),
                walk.seq().len() == self.entries@.dom().len(),
                walk.index() == walk.seq().len() ==> out@.to_set() == self.entries@.values(),
        {
            out.push(*packet);
            assert(walk.index() + 1 == walk.seq().len() ==> out@ =~= walk.seq().unref());
        }
        out
    }

    /// The numbers of the targets seen, each once, in the order in which
    /// the map is walked.
    pub fn targets(&self) -> (r: Vec<u32>)
        ensures
            r@.len() == self@.dom().len(),
            r@.to_set() == self@.dom(),
    {
        let mut out: Vec<u32> = Vec::new();
        proof {
            if self.entries@.dom().len() == 0 {
                assert(self.entries@.dom() =~= Set::empty());
            }
            assert(out@.to_set() =~= Set::empty());
        }
        for target_id in walk: self.entries.keys()
            invariant
                out@.len() == walk.index(),
                forall|j: int| 0 <= j < out@.len() ==> out@[j] == *walk.seq()[j],
                walk.seq().unref().to_set() == self.entries@.dom(),
                walk.seq().len() == self.entries@.dom().len(),
                walk.index() == walk.seq().len() ==> out@.to_set() == self.entries@.dom(),
        {
            out.push(*target_id);
            assert(walk.index() + 1 == walk.seq().len() ==> out@ =~= walk.seq().unref());
        }
        out
    }

    /// Drops every entry.
    pub fn clear(&mut self)
        ensures
            final(self).wf(),
            final(self)@ == Map::<u32, TargetPacket>::empty(),
    {
        self.entries.clear();
    }
}

} // verus!
