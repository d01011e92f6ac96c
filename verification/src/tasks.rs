//! The tasks that run on the connections of the manager: shares between
//! connections, shares of single targets, and simulation streams.

use crate::cache::{latest, lemma_lists, lists};
use crate::frame::{frame_bytes, put_delimiter};
use crate::ids::{new_simulation_id, prefixed, RANDOM_PART_LEN};
use crate::manager::{Manager, ManagerError};
use crate::packet::{Kind, KindView, Packet, PacketView};
use crate::playback::{plays, Playback};
use crate::registry::{
    address_in_use, find_connection, has_id, lemma_remove_keeps_wf, place_of_id, Connection,
    Transport,
};
use crate::share::PRECISION_INTERVAL_MS;
use crate::shares::{
    copy_key, distinct, find_key, find_string, key_views, keys_not_to, keys_to, lemma_keys_split,
    lemma_push_contains, lemma_push_distinct, lemma_without, string_views, take_keys_to,
    take_string, without, ShareKey,
};
use crate::target::TargetPacket;
use crate::transport::{bytes_view, SocketAddress, UdpTransport};
use std::collections::HashSet;
use vstd::prelude::*;
use vstd::string::StringExecFns;

verus! {

broadcast use vstd::std_specs::hash::group_hash_axioms;

/// What the start of a share found.
#[derive(Debug, Clone, Copy, PartialEq, Eq, Structural)]
pub struct ShareStart {
    /// A share with the same key ran already; its tasks are to be aborted
    /// before the new ones start.
    pub replaced: bool,
    /// The share takes the precision path, and holds the raised timer
    /// resolution from now on.
    pub precision: bool,
    /// The share that ran already held the raised timer resolution, which
    /// is to be released once for it.
    pub timer_released: bool,
}

/// What one cycle of a share does.
#[derive(Debug, Clone, PartialEq, Eq)]
pub enum ShareCycle {
    /// Nothing is sent in this cycle.
    Skip,
    /// The frame is sent to the destination.
    Forward { frame: Vec<u8> },
}

impl View for ShareCycle {
    type V = Option<Seq<u8>>;

    open spec fn view(&self) -> Option<Seq<u8>> {
        match *self {
            ShareCycle::Skip => None,
            ShareCycle::Forward { frame } => Some(frame@),
        }
    }
}

/// What is left to do after a share was stopped.
#[derive(Debug, Clone, Copy, PartialEq, Eq, Structural)]
pub struct ShareStopPlan {
    /// Whether a task of the share ran and is to be aborted.
    pub aborted_task: bool,
    /// How often the raised timer resolution is to be released: once where
    /// the share held it, and else not at all.
    pub timer_releases: usize,
}

/// What is left to do after a simulation stream was stopped.
#[derive(Debug, Clone, PartialEq, Eq)]
pub struct SimulationStopPlan {
    /// Whether a playback task ran and is to be aborted, before anything
    /// else.
    pub aborted_stream: bool,
    /// The transport that was registered, as it was; it is to be dropped
    /// without waiting for it to stop.
    pub dropped: Option<Transport>,
    /// The shares whose task is to be aborted: those that went to the
    /// connection.
    pub aborted_shares: Vec<ShareKey>,
    /// How often the raised timer resolution is to be released: once for
    /// each aborted share that held it.
    pub timer_releases: usize,
}

/// The keys with `key` added at the end, unless it is there.
pub open spec fn with_key(keys: Seq<(Seq<char>, Seq<char>)>, key: (Seq<char>, Seq<char>)) -> Seq<
    (Seq<char>, Seq<char>),
> {
    if keys.contains(key) {
        keys
    } else {
        keys.push(key)
    }
}

/// The keys that hold the raised timer resolution after a share with `key`
/// started: the key is among them where the share takes the precision path,
/// and only then.
pub open spec fn holders_after(
    holders: Seq<(Seq<char>, Seq<char>)>,
    key: (Seq<char>, Seq<char>),
    precision: bool,
) -> Seq<(Seq<char>, Seq<char>)> {
    if precision {
        with_key(holders, key)
    } else {
        without(holders, key)
    }
}

/// What the start of a share with `key` finds in a manager, where the share
/// takes the precision path or not.
pub open spec fn share_start(
    manager: Manager,
    key: (Seq<char>, Seq<char>),
    precision: bool,
) -> ShareStart {
    ShareStart {
        replaced: key_views(manager.share_tasks@).contains(key),
        precision,
        timer_released: key_views(manager.timer_shares@).contains(key),
    }
}

/// What stopping the share with `key` leaves to do in a manager.
pub open spec fn share_stop(manager: Manager, key: (Seq<char>, Seq<char>)) -> ShareStopPlan {
    ShareStopPlan {
        aborted_task: key_views(manager.share_tasks@).contains(key),
        timer_releases: if key_views(manager.timer_shares@).contains(key) {
            1
        } else {
            0
        },
    }
}

/// Holds where a connection has an id of the form of those of simulation
/// streams.
pub open spec fn simulation_id_taken(connections: Seq<Connection>) -> bool {
    exists|random: Seq<char>|
        random.len() == RANDOM_PART_LEN && has_id(
            connections,
            #[trigger] prefixed("sim_udp"@, random),
        )
}

/// A share that takes the precision path and is then stopped leaves the
/// holders of the raised timer resolution as they were before it started:
/// the resolution is back where it was.
pub proof fn lemma_stopped_share_restores_timer(
    holders: Seq<(Seq<char>, Seq<char>)>,
    key: (Seq<char>, Seq<char>),
)
    requires
        !holders.contains(key),
    ensures
        without(holders_after(holders, key, true), key) == holders,
        without(holders_after(holders, key, true), key).len() == holders.len(),
{
    assert(holders.push(key).drop_last() =~= holders);
    lemma_without(holders, key);
}

/// The last frame that the connection `id` keeps for sharing, if it is a
/// serial port that has received one.
pub open spec fn shared_frame(connections: Seq<Connection>, id: Seq<char>) -> Option<Seq<u8>> {
    if has_id(connections, id) {
        match connections[place_of_id(connections, id)].transport {
            Transport::Serial(serial) => bytes_view(serial.last_data),
            Transport::Udp(_) => None,
        }
    } else {
        None
    }
}

/// The frame of the latest packet of target `target_id` that the datagram
/// endpoint `source` has cached, if `source` is a registered datagram
/// endpoint that has seen the target and `dest` is registered.
pub open spec fn shared_target(
    connections: Seq<Connection>,
    source: Seq<char>,
    target_id: u32,
    dest: Seq<char>,
) -> Option<Seq<u8>> {
    if has_id(connections, source) && has_id(connections, dest) {
        match connections[place_of_id(connections, source)].transport {
            Transport::Udp(udp) => match latest(udp.target_data@, target_id) {
                Some(target) => Some(
                    frame_bytes(
                        (PacketView { kind: Some(KindView::TargetPacket(target)) }).bytes(),
                    ),
                ),
                None => None,
            },
            Transport::Serial(_) => None,
        }
    } else {
        None
    }
}

/// Adds the key of `source` and `dest` at the end of `keys`, unless it is
/// there; tells whether it was.
fn add_key(keys: &mut Vec<ShareKey>, source: &str, dest: &str) -> (r: bool)
    requires
        distinct(key_views(old(keys)@)),
    ensures
        distinct(key_views(final(keys)@)),
        r == key_views(old(keys)@).contains((source@, dest@)),
        key_views(final(keys)@) == with_key(key_views(old(keys)@), (source@, dest@)),
        forall|key: (Seq<char>, Seq<char>)| #[trigger]
            key_views(final(keys)@).contains(key) <==> key_views(old(keys)@).contains(key) || key
                == (source@, dest@),
{
    match find_key(keys, source, dest) {
        Some(at) => {
            assert(key_views(keys@)[at as int] == (source@, dest@));
            true
        },
        None => {
            let ghost before = key_views(keys@);
            let key = ShareKey { source: String::from_str(source), dest: String::from_str(dest) };
            keys.push(key);
            proof {
                assert(key_views(keys@) =~= before.push((source@, dest@)));
                lemma_push_distinct(before, (source@, dest@));
                assert forall|key: (Seq<char>, Seq<char>)| #[trigger]
                    key_views(keys@).contains(key) <==> before.contains(key) || key == (
                        source@,
                        dest@,
                    ) by {
                    lemma_push_contains(before, (source@, dest@), key);
                }
            }
            false
        },
    }
}

/// Takes the key of `source` and `dest` out of `keys`; tells whether it
/// was there.
fn remove_key(keys: &mut Vec<ShareKey>, source: &str, dest: &str) -> (r: bool)
    requires
        distinct(key_views(old(keys)@)),
    ensures
        distinct(key_views(final(keys)@)),
        r == key_views(old(keys)@).contains((source@, dest@)),
        key_views(final(keys)@) == without(key_views(old(keys)@), (source@, dest@)),
        forall|key: (Seq<char>, Seq<char>)| #[trigger]
            key_views(final(keys)@).contains(key) <==> key_views(old(keys)@).contains(key) && key
                != (source@, dest@),
        final(keys)@.len() + (if r {
            1nat
        } else {
            0nat
        }) == old(keys)@.len(),
{
    let ghost before = key_views(keys@);
    proof {
        lemma_without(before, (source@, dest@));
    }
    match find_key(keys, source, dest) {
        Some(at) => {
            assert(before[at as int] == (source@, dest@));
            let _ = keys.remove(at);
            proof {
                let after = key_views(keys@);
                assert(after =~= before.remove(at as int));
                lemma_without_one(before, at as int);
            }
            true
        },
        None => false,
    }
}

/// In a sequence without repeats, what is left without an item is the
/// sequence with the place of the item taken out.
pub proof fn lemma_without_one<T>(items: Seq<T>, at: int)
    requires
        distinct(items),
        0 <= at < items.len(),
    ensures
        without(items, items[at]) == items.remove(at),
    decreases items.len(),
{
    let front = items.drop_last();
    let last = items.last();
    assert(items =~= front.push(last));
    if at == items.len() - 1 {
        assert(!front.contains(last)) by {
            if front.contains(last) {
                let k = choose|k: int| 0 <= k < front.len() && front[k] == last;
                assert(items[k] == items[at]);
            }
        }
        lemma_without(front, last);
        assert(items.remove(at) =~= front);
    } else {
        assert forall|i: int, j: int|
            0 <= i < front.len() && 0 <= j < front.len() && i != j implies front[i]
            != front[j] by {
            assert(items[i] != items[j]);
        }
        lemma_without_one(front, at);
        assert(last != items[at]) by {
            assert(items[items.len() - 1] != items[at]);
        }
        assert(front[at] == items[at]);
        assert(items.remove(at) =~= front.remove(at).push(last));
    }
}

/// The targets that the datagram endpoints of `connections` have seen.
pub open spec fn seen_targets(connections: Seq<Connection>) -> Set<u32>
    decreases connections.len(),
{
    if connections.len() == 0 {
        Set::empty()
    } else {
        seen_targets(connections.drop_last()).union(
            match connections.last().transport {
                Transport::Udp(udp) => udp.target_data@.dom(),
                Transport::Serial(_) => Set::empty(),
            },
        )
    }
}

/// The latest target packets that the connection `id` has cached: those of
/// its cache where it is a datagram endpoint, and none else.
pub open spec fn cached_targets(connections: Seq<Connection>, id: Seq<char>) -> Map<
    u32,
    TargetPacket,
> {
    if has_id(connections, id) {
        match connections[place_of_id(connections, id)].transport {
            Transport::Udp(udp) => udp.target_data@,
            Transport::Serial(_) => Map::empty(),
        }
    } else {
        Map::empty()
    }
}

/// Puts the numbers of `ids` into `seen`.
fn note_seen(seen: &mut HashSet<u32>, ids: &Vec<u32>)
    ensures
        final(seen)@ == old(seen)@.union(ids@.to_set()),
{
    let mut j: usize = 0;
    assert(seen@ =~= old(seen)@.union(ids@.take(0).to_set()));
    while j < ids.len()
        invariant
            j <= ids.len(),
            seen@ == old(seen)@.union(ids@.take(j as int).to_set()),
        decreases ids.len() - j,
    {
        let ghost before = ids@.take(j as int);
        let _ = seen.insert(ids[j]);
        proof {
            let after = ids@.take(j + 1);
            assert(after =~= before.push(ids@[j as int]));
            assert forall|x: u32| after.to_set().contains(x) <==> before.to_set().contains(x) || x
                == ids@[j as int] by {
                lemma_push_contains(before, ids@[j as int], x);
            }
            assert(seen@ =~= old(seen)@.union(after.to_set()));
        }
        j = j + 1;
    }
    assert(ids@.take(j as int) =~= ids@);
}

impl Manager {
    /// The number of targets that the datagram endpoints have seen, each
    /// target counted once, cut to 32 bits.
    pub fn get_total_udp_targets(&self) -> (r: u32)
        ensures
            r == crate::schema::low32(seen_targets(self.connections@).len() as u64),
    {
        let mut seen: HashSet<u32> = HashSet::new();
        let mut i: usize = 0;
        assert(self.connections@.take(0) =~= Seq::<Connection>::empty());
        while i < self.connections.len()
            invariant
                i <= self.connections.len(),
                seen@ == seen_targets(self.connections@.take(i as int)),
            decreases self.connections.len() - i,
        {
            proof {
                let next = self.connections@.take(i + 1);
                assert(next.drop_last() =~= self.connections@.take(i as int));
                assert(next.last() == self.connections@[i as int]);
            }
            match &self.connections[i].transport {
                Transport::Udp(udp) => {
                    let ids = udp.target_data.targets();
                    note_seen(&mut seen, &ids);
                },
                Transport::Serial(_) => {
                    assert(seen@.union(Set::<u32>::empty()) =~= seen@);
                },
            }
            i = i + 1;
        }
        assert(self.connections@.take(i as int) =~= self.connections@);
        crate::schema::truncate32(seen.len() as u64)
    }

    /// Registers a share from `from_id` to `to_id` at `interval_ms`. At
    /// ten milliseconds or less the share takes the precision path and
    /// holds the raised timer resolution until it is stopped. Refused
    /// where no connection has the id `to_id`; nothing changes then.
    pub fn share_data_between_ids(&mut self, from_id: &str, to_id: &str, interval_ms: u64) -> (r:
        Result<ShareStart, ManagerError>)
        requires
            old(self).wf(),
        ensures
            final(self).wf(),
            final(self).connections == old(self).connections,
            final(self).simulation_stream_tasks == old(self).simulation_stream_tasks,
            !has_id(old(self).connections@, to_id@) ==> r == Err::<ShareStart, ManagerError>(
                ManagerError::NoTransport,
            ) && final(self).share_tasks == old(self).share_tasks && final(self).active_shares
                == old(self).active_shares && final(self).timer_shares == old(self).timer_shares,
            has_id(old(self).connections@, to_id@) ==> {
                &&& r == Ok::<ShareStart, ManagerError>(
                    share_start(
                        *old(self),
                        (from_id@, to_id@),
                        interval_ms <= PRECISION_INTERVAL_MS,
                    ),
                )
                &&& key_views(final(self).timer_shares@) == holders_after(
                    key_views(old(self).timer_shares@),
                    (from_id@, to_id@),
                    interval_ms <= PRECISION_INTERVAL_MS,
                )
                &&& final(self).timer_holds() + (if r->Ok_0.timer_released {
                    1nat
                } else {
                    0nat
                }) == old(self).timer_holds() + (if r->Ok_0.precision {
                    1nat
                } else {
                    0nat
                })
                &&& key_views(final(self).share_tasks@) == with_key(
                    key_views(old(self).share_tasks@),
                    (from_id@, to_id@),
                )
                &&& key_views(final(self).active_shares@) == with_key(
                    key_views(old(self).active_shares@),
                    (from_id@, to_id@),
                )
            },
    {
        match find_connection(&self.connections, to_id) {
            None => Err(ManagerError::NoTransport),
            Some(_) => {
                let _ = add_key(&mut self.active_shares, from_id, to_id);
                let replaced = add_key(&mut self.share_tasks, from_id, to_id);
                let precision = interval_ms <= PRECISION_INTERVAL_MS;
                let timer_released = self.hold_timer(from_id, to_id, precision);
                Ok(ShareStart { replaced, precision, timer_released })
            },
        }
    }

    /// Takes the share from `from_id` to `to_id` out of the registry; its
    /// tasks are to be aborted, and the raised timer resolution is to be
    /// released once where the share held it. Nothing changes where no
    /// such share is registered.
    pub fn stop_share(&mut self, from_id: &str, to_id: &str) -> (r: Result<
        ShareStopPlan,
        ManagerError,
    >)
        requires
            old(self).wf(),
        ensures
            final(self).wf(),
            final(self).connections == old(self).connections,
            final(self).simulation_stream_tasks == old(self).simulation_stream_tasks,
            key_views(final(self).share_tasks@) == without(
                key_views(old(self).share_tasks@),
                (from_id@, to_id@),
            ),
            key_views(final(self).active_shares@) == without(
                key_views(old(self).active_shares@),
                (from_id@, to_id@),
            ),
            key_views(final(self).timer_shares@) == without(
                key_views(old(self).timer_shares@),
                (from_id@, to_id@),
            ),
            final(self).timer_holds() + (if key_views(old(self).timer_shares@).contains(
                (from_id@, to_id@),
            ) {
                1nat
            } else {
                0nat
            }) == old(self).timer_holds(),
            r == Ok::<ShareStopPlan, ManagerError>(share_stop(*old(self), (from_id@, to_id@))),
            final(self).timer_holds() + r->Ok_0.timer_releases == old(self).timer_holds(),
            !key_views(final(self).share_tasks@).contains((from_id@, to_id@)),
    {
        let aborted_task = remove_key(&mut self.share_tasks, from_id, to_id);
        let _ = remove_key(&mut self.active_shares, from_id, to_id);
        let held = remove_key(&mut self.timer_shares, from_id, to_id);
        let timer_releases: usize = if held {
            1
        } else {
            0
        };
        Ok(ShareStopPlan { aborted_task, timer_releases })
    }

    /// Records whether the share from `source` to `dest` holds the raised
    /// timer resolution from now on; tells whether it held it before.
    fn hold_timer(&mut self, source: &str, dest: &str, precision: bool) -> (r: bool)
        requires
            distinct(key_views(old(self).timer_shares@)),
        ensures
            final(self).connections == old(self).connections,
            final(self).active_shares == old(self).active_shares,
            final(self).share_tasks == old(self).share_tasks,
            final(self).simulation_stream_tasks == old(self).simulation_stream_tasks,
            distinct(key_views(final(self).timer_shares@)),
            r == key_views(old(self).timer_shares@).contains((source@, dest@)),
            key_views(final(self).timer_shares@) == holders_after(
                key_views(old(self).timer_shares@),
                (source@, dest@),
                precision,
            ),
            forall|key: (Seq<char>, Seq<char>)| #[trigger]
                key_views(final(self).timer_shares@).contains(key) ==> key_views(
                    old(self).timer_shares@,
                ).contains(key) || key == (source@, dest@),
            final(self).timer_holds() + (if r {
                1nat
            } else {
                0nat
            }) == old(self).timer_holds() + (if precision {
                1nat
            } else {
                0nat
            }),
    {
        if precision {
            let ghost before = self.timer_shares@.len();
            let held = add_key(&mut self.timer_shares, source, dest);
            proof {
                assert(key_views(self.timer_shares@).len() == self.timer_shares@.len());
                assert(key_views(old(self).timer_shares@).len() == before);
            }
            held
        } else {
            remove_key(&mut self.timer_shares, source, dest)
        }
    }

    /// Registers the task of a share under `share_id` and the connection
    /// `dest` that it sends to; with `precision` the share holds the raised
    /// timer resolution from now on. Tells whether a task with that key
    /// ran already, which is then to be aborted.
    pub fn register_share_task(&mut self, share_id: &str, dest: &str, precision: bool) -> (r:
        ShareStart)
        requires
            old(self).wf(),
        ensures
            final(self).wf(),
            final(self).connections == old(self).connections,
            final(self).active_shares == old(self).active_shares,
            final(self).simulation_stream_tasks == old(self).simulation_stream_tasks,
            r == share_start(*old(self), (share_id@, dest@), precision),
            key_views(final(self).share_tasks@) == with_key(
                key_views(old(self).share_tasks@),
                (share_id@, dest@),
            ),
            key_views(final(self).timer_shares@) == holders_after(
                key_views(old(self).timer_shares@),
                (share_id@, dest@),
                precision,
            ),
            final(self).timer_holds() + (if r.timer_released {
                1nat
            } else {
                0nat
            }) == old(self).timer_holds() + (if r.precision {
                1nat
            } else {
                0nat
            }),
    {
        let replaced = add_key(&mut self.share_tasks, share_id, dest);
        let timer_released = self.hold_timer(share_id, dest, precision);
        ShareStart { replaced, precision, timer_released }
    }

    /// Takes the task of the share `share_id` to `connection_id` out of the
    /// registry; it is to be aborted, and the raised timer resolution is
    /// to be released once where the share held it. Refused where no such
    /// task is registered; nothing changes then.
    pub fn stop_share_to_connection(&mut self, share_id: &str, connection_id: &str) -> (r: Result<
        ShareStopPlan,
        ManagerError,
    >)
        requires
            old(self).wf(),
        ensures
            final(self).wf(),
            final(self).connections == old(self).connections,
            final(self).active_shares == old(self).active_shares,
            final(self).simulation_stream_tasks == old(self).simulation_stream_tasks,
            key_views(final(self).share_tasks@) == without(
                key_views(old(self).share_tasks@),
                (share_id@, connection_id@),
            ),
            key_views(final(self).timer_shares@) == without(
                key_views(old(self).timer_shares@),
                (share_id@, connection_id@),
            ),
            final(self).timer_holds() + (if key_views(old(self).timer_shares@).contains(
                (share_id@, connection_id@),
            ) {
                1nat
            } else {
                0nat
            }) == old(self).timer_holds(),
            r == if key_views(old(self).share_tasks@).contains((share_id@, connection_id@)) {
                Ok::<ShareStopPlan, ManagerError>(
                    share_stop(*old(self), (share_id@, connection_id@)),
                )
            } else {
                Err::<ShareStopPlan, ManagerError>(ManagerError::ShareNotFound)
            },
            r matches Ok(plan) ==> final(self).timer_holds() + plan.timer_releases == old(
                self,
            ).timer_holds(),
            r is Err ==> final(self).timer_holds() == old(self).timer_holds(),
    {
        let held = remove_key(&mut self.timer_shares, share_id, connection_id);
        if remove_key(&mut self.share_tasks, share_id, connection_id) {
            let timer_releases: usize = if held {
                1
            } else {
                0
            };
            Ok(ShareStopPlan { aborted_task: true, timer_releases })
        } else {
            Err(ManagerError::ShareNotFound)
        }
    }

    /// The keys of the shares that hold a task, in the order in which they
    /// were registered.
    pub fn list_active_shares(&self) -> (r: Vec<ShareKey>)
        ensures
            r@ == self.share_tasks@,
    {
        let mut out: Vec<ShareKey> = Vec::new();
        let mut i: usize = 0;
        while i < self.share_tasks.len()
            invariant
                i <= self.share_tasks.len(),
                out@ == self.share_tasks@.take(i as int),
            decreases self.share_tasks.len() - i,
        {
            out.push(copy_key(&self.share_tasks[i]));
            assert(out@ =~= self.share_tasks@.take(i + 1));
            i = i + 1;
        }
        assert(self.share_tasks@.take(i as int) =~= self.share_tasks@);
        out
    }

    /// The connections on which a simulation stream plays, in the order in
    /// which the streams were started.
    pub fn list_active_simulation_streams(&self) -> (r: Vec<String>)
        ensures
            r@ == self.simulation_stream_tasks@,
    {
        let mut out: Vec<String> = Vec::new();
        let mut i: usize = 0;
        while i < self.simulation_stream_tasks.len()
            invariant
                i <= self.simulation_stream_tasks.len(),
                out@ == self.simulation_stream_tasks@.take(i as int),
            decreases self.simulation_stream_tasks.len() - i,
        {
            out.push(self.simulation_stream_tasks[i].clone());
            assert(out@ =~= self.simulation_stream_tasks@.take(i + 1));
            i = i + 1;
        }
        assert(self.simulation_stream_tasks@.take(i as int) =~= self.simulation_stream_tasks@);
        out
    }

    /// What a cycle of the share from `from_id` forwards: the last frame
    /// that the serial port `from_id` has received, or nothing where there
    /// is none.
    pub fn share_cycle(&self, from_id: &str) -> (r: ShareCycle)
        requires
            self.wf(),
        ensures
            r@ == shared_frame(self.connections@, from_id@),
    {
        match find_connection(&self.connections, from_id) {
            None => ShareCycle::Skip,
            Some(at) => {
                proof {
                    self.lemma_found(at as int, from_id@);
                }
                match self.connections[at].transport.last_frame() {
                    Some(frame) => ShareCycle::Forward { frame },
                    None => ShareCycle::Skip,
                }
            },
        }
    }

    /// What a cycle of the share of target `target_id` from the datagram
    /// endpoint `udp_id` to `dest_id` forwards: the frame of the latest
    /// packet of the target, or nothing where one of the connections is
    /// missing, the source is a serial port, or the target was not seen.
    pub fn target_share_cycle(&self, udp_id: &str, target_id: u32, dest_id: &str) -> (r:
        ShareCycle)
        requires
            self.wf(),
        ensures
            r@ == shared_target(self.connections@, udp_id@, target_id, dest_id@),
    {
        let source = match find_connection(&self.connections, udp_id) {
            None => {
                return ShareCycle::Skip;
            },
            Some(at) => at,
        };
        proof {
            self.lemma_found(source as int, udp_id@);
        }
        match find_connection(&self.connections, dest_id) {
            None => {
                return ShareCycle::Skip;
            },
            Some(_) => {},
        }
        match &self.connections[source].transport {
            Transport::Serial(_) => ShareCycle::Skip,
            Transport::Udp(udp) => match udp.target_data.get(target_id) {
                Some(target) => {
                    let packet = Packet { kind: Some(Kind::TargetPacket(target)) };
                    let mut frame = packet.encode();
                    put_delimiter(&mut frame);
                    ShareCycle::Forward { frame }
                },
                None => ShareCycle::Skip,
            },
        }
    }

    /// The latest packet of every target that the datagram endpoint
    /// `connection_id` has seen, each target once, in the order in which
    /// its cache is walked; none for a serial port and for an id that no
    /// connection has.
    pub fn list_udp_targets(&self, connection_id: &str) -> (r: Vec<TargetPacket>)
        requires
            self.wf(),
        ensures
            lists(r@, cached_targets(self.connections@, connection_id@)),
            forall|i: int|
                0 <= i < r@.len() ==> latest(
                    cached_targets(self.connections@, connection_id@),
                    (#[trigger] r@[i]).target_id,
                ) == Some(r@[i]),
            forall|target_id: u32| #[trigger]
                cached_targets(self.connections@, connection_id@).contains_key(target_id)
                    ==> r@.contains(cached_targets(self.connections@, connection_id@)[target_id]),
    {
        let listed = match find_connection(&self.connections, connection_id) {
            None => Vec::new(),
            Some(at) => {
                proof {
                    self.lemma_found(at as int, connection_id@);
                }
                match &self.connections[at].transport {
                    Transport::Udp(udp) => {
                        proof {
                            udp.target_data.lemma_keyed();
                        }
                        udp.target_data.list()
                    },
                    Transport::Serial(_) => Vec::new(),
                }
            },
        };
        proof {
            let cached = cached_targets(self.connections@, connection_id@);
            if listed@.len() == 0 && cached == Map::<u32, TargetPacket>::empty() {
                assert(cached.dom() =~= Set::empty());
                assert(cached.values() =~= Set::empty());
                assert(listed@.to_set() =~= Set::empty());
            }
            lemma_lists(listed@, cached);
        }
        listed
    }

    /// Registers a datagram endpoint bound to `local_addr` that sends to
    /// `remote_addr` under `id`, with a simulation stream that plays on
    /// it. Refused where the address is in use, and else where the id is
    /// taken; nothing changes then.
    pub fn start_simulation_stream(
        &mut self,
        id: String,
        local_addr: SocketAddress,
        local_text: String,
        remote_addr: SocketAddress,
    ) -> (r: Result<(), ManagerError>)
        requires
            old(self).wf(),
        ensures
            final(self).wf(),
            final(self).active_shares == old(self).active_shares,
            final(self).share_tasks == old(self).share_tasks,
            final(self).timer_shares == old(self).timer_shares,
            address_in_use(old(self).connections@, local_addr) ==> r == Err::<(), ManagerError>(
                ManagerError::AddressInUse,
            ) && *final(self) == *old(self),
            !address_in_use(old(self).connections@, local_addr) && has_id(
                old(self).connections@,
                id@,
            ) ==> r == Err::<(), ManagerError>(ManagerError::DuplicateId) && *final(self) == *old(self),
            !address_in_use(old(self).connections@, local_addr) && !has_id(
                old(self).connections@,
                id@,
            ) ==> {
                &&& r == Ok::<(), ManagerError>(())
                &&& final(self).connections@.len() == old(self).connections@.len() + 1
                &&& final(self).connections@.drop_last() == old(self).connections@
                &&& final(self).connections@.last().id@ == id@
                &&& final(self).connections@.last().transport matches Transport::Udp(udp)
                &&& udp.local_addr == local_addr
                &&& udp.local_text@ == local_text@
                &&& udp.remote_addr == Some(remote_addr)
                &&& !udp.running
                &&& udp.target_data@ == Map::<u32, TargetPacket>::empty()
                &&& udp.packet_received_count == 0
                &&& udp.packet_sent_count == 0
                &&& has_id(final(self).connections@, id@)
                &&& string_views(final(self).simulation_stream_tasks@) == if string_views(
                    old(self).simulation_stream_tasks@,
                ).contains(id@) {
                    string_views(old(self).simulation_stream_tasks@)
                } else {
                    string_views(old(self).simulation_stream_tasks@).push(id@)
                }
            },
    {
        if self.is_socket_address_in_use(local_addr) {
            return Err(ManagerError::AddressInUse);
        }
        if find_connection(&self.connections, id.as_str()).is_some() {
            return Err(ManagerError::DuplicateId);
        }
        let mut udp = UdpTransport::new(local_addr, local_text);
        udp.set_remote(remote_addr);
        let task_id = id.clone();
        let added = self.add_connection(id, Transport::Udp(udp));
        proof {
            assert(added is Ok);
            assert(self.connections@.drop_last() =~= old(self).connections@);
        }
        match find_string(&self.simulation_stream_tasks, task_id.as_str()) {
            Some(at) => {
                assert(string_views(self.simulation_stream_tasks@)[at as int] == task_id@);
            },
            None => {
                let ghost before = string_views(self.simulation_stream_tasks@);
                self.simulation_stream_tasks.push(task_id);
                proof {
                    assert(string_views(self.simulation_stream_tasks@) =~= before.push(id@));
                    lemma_push_distinct(before, id@);
                }
            },
        }
        Ok(())
    }

    /// Starts a simulation stream under `id`: registers a datagram endpoint
    /// bound to `local_addr` that sends to `remote_addr`, and groups
    /// `packets` by target for the playback. Refused where the address is
    /// in use, and else where the id is taken; nothing changes then. The
    /// playback has as many steps as the target with the most packets has
    /// packets, with one frame for each of them.
    pub fn start_simulation_playback(
        &mut self,
        id: String,
        local_addr: SocketAddress,
        local_text: String,
        remote_addr: SocketAddress,
        packets: &Vec<TargetPacket>,
    ) -> (r: Result<Playback, ManagerError>)
        requires
            old(self).wf(),
        ensures
            final(self).wf(),
            final(self).active_shares == old(self).active_shares,
            final(self).share_tasks == old(self).share_tasks,
            final(self).timer_shares == old(self).timer_shares,
            r is Err ==> *final(self) == *old(self),
            address_in_use(old(self).connections@, local_addr) <==> r is Err && r->Err_0
                == ManagerError::AddressInUse,
            !address_in_use(old(self).connections@, local_addr) && has_id(
                old(self).connections@,
                id@,
            ) <==> r is Err && r->Err_0 == ManagerError::DuplicateId,
            !address_in_use(old(self).connections@, local_addr) && !has_id(
                old(self).connections@,
                id@,
            ) <==> r is Ok,
            r matches Ok(playback) ==> {
                &&& plays(playback.groups@, playback.order@, packets@)
                &&& final(self).connections@.len() == old(self).connections@.len() + 1
                &&& final(self).connections@.drop_last() == old(self).connections@
                &&& final(self).connections@.last().id@ == id@
                &&& final(self).connections@.last().transport matches Transport::Udp(udp)
                &&& udp.local_addr == local_addr
                &&& udp.local_text@ == local_text@
                &&& udp.remote_addr == Some(remote_addr)
                &&& has_id(final(self).connections@, id@)
                &&& string_views(final(self).simulation_stream_tasks@).contains(id@)
            },
    {
        let ghost name = id@;
        match self.start_simulation_stream(id, local_addr, local_text, remote_addr) {
            Err(e) => Err(e),
            Ok(()) => {
                proof {
                    let before = string_views(old(self).simulation_stream_tasks@);
                    lemma_push_contains(before, name, name);
                }
                Ok(Playback::new(packets))
            },
        }
    }

    /// Starts a simulation stream under a new id: registers a datagram
    /// endpoint bound to `local_addr` that sends to `remote_addr`, and
    /// groups `packets` by target for the playback. Refused where the
    /// address is in use; nothing changes then. The id is random: where no
    /// connection has an id of that form the stream starts, and else the
    /// new id may, however unlikely, be taken, which is refused as well.
    pub fn simulation_init_and_stream(
        &mut self,
        local_addr: SocketAddress,
        local_text: String,
        remote_addr: SocketAddress,
        packets: &Vec<TargetPacket>,
    ) -> (r: Result<(String, Playback), ManagerError>)
        requires
            old(self).wf(),
        ensures
            final(self).wf(),
            final(self).active_shares == old(self).active_shares,
            final(self).share_tasks == old(self).share_tasks,
            final(self).timer_shares == old(self).timer_shares,
            r is Err ==> *final(self) == *old(self),
            address_in_use(old(self).connections@, local_addr) <==> r is Err && r->Err_0
                == ManagerError::AddressInUse,
            r is Err && !address_in_use(old(self).connections@, local_addr) ==> r->Err_0
                == ManagerError::DuplicateId && simulation_id_taken(old(self).connections@),
            !address_in_use(old(self).connections@, local_addr) && !simulation_id_taken(
                old(self).connections@,
            ) ==> r is Ok,
            r matches Ok(started) ==> {
                &&& !address_in_use(old(self).connections@, local_addr)
                &&& !has_id(old(self).connections@, started.0@)
                &&& exists|random: Seq<char>|
                    random.len() == RANDOM_PART_LEN && started.0@ == #[trigger] prefixed(
                        "sim_udp"@,
                        random,
                    )
                &&& plays(started.1.groups@, started.1.order@, packets@)
                &&& final(self).connections@.len() == old(self).connections@.len() + 1
                &&& final(self).connections@.drop_last() == old(self).connections@
                &&& final(self).connections@.last().id@ == started.0@
                &&& final(self).connections@.last().transport matches Transport::Udp(udp)
                &&& udp.local_addr == local_addr
                &&& udp.local_text@ == local_text@
                &&& udp.remote_addr == Some(remote_addr)
                &&& has_id(final(self).connections@, started.0@)
                &&& string_views(final(self).simulation_stream_tasks@).contains(started.0@)
            },
    {
        let id = new_simulation_id();
        let returned = id.clone();
        match self.start_simulation_playback(id, local_addr, local_text, remote_addr, packets) {
            Err(e) => Err(e),
            Ok(playback) => Ok((returned, playback)),
        }
    }

    /// Stops the simulation stream on the connection `id`: the playback
    /// task comes out first, then the connection, without stopping it, and
    /// the shares that go to it, which give back the raised timer
    /// resolution where they held it. Refused where `id` is neither a
    /// connection nor a stream; nothing changes then.
    pub fn stop_simulation_udp_streaming(&mut self, id: &str) -> (r: Result<
        SimulationStopPlan,
        ManagerError,
    >)
        requires
            old(self).wf(),
        ensures
            final(self).wf(),
            final(self).active_shares == old(self).active_shares,
            !has_id(old(self).connections@, id@) && !string_views(
                old(self).simulation_stream_tasks@,
            ).contains(id@) ==> r is Err && r->Err_0 == ManagerError::ConnectionNotFound
                && *final(self) == *old(self),
            has_id(old(self).connections@, id@) || string_views(
                old(self).simulation_stream_tasks@,
            ).contains(id@) ==> {
                &&& r matches Ok(plan)
                &&& plan.aborted_stream == string_views(
                    old(self).simulation_stream_tasks@,
                ).contains(id@)
                &&& string_views(final(self).simulation_stream_tasks@) == without(
                    string_views(old(self).simulation_stream_tasks@),
                    id@,
                )
                &&& key_views(final(self).share_tasks@) == keys_not_to(
                    key_views(old(self).share_tasks@),
                    id@,
                )
                &&& key_views(plan.aborted_shares@) == keys_to(
                    key_views(old(self).share_tasks@),
                    id@,
                )
                &&& key_views(final(self).timer_shares@) == keys_not_to(
                    key_views(old(self).timer_shares@),
                    id@,
                )
                &&& plan.timer_releases == keys_to(key_views(old(self).timer_shares@), id@).len()
                &&& final(self).timer_holds() + plan.timer_releases == old(self).timer_holds()
                &&& !has_id(final(self).connections@, id@)
                &&& if has_id(old(self).connections@, id@) {
                    let at = place_of_id(old(self).connections@, id@);
                    plan.dropped == Some(old(self).connections@[at].transport) && final(self).connections@ == old(self).connections@.remove(at)
                } else {
                    plan.dropped is None && final(self).connections@ == old(self).connections@
                }
            },
    {
        let found = find_connection(&self.connections, id);
        let streams = find_string(&self.simulation_stream_tasks, id);
        proof {
            if let Some(at) = streams {
                assert(string_views(self.simulation_stream_tasks@)[at as int] == id@);
            }
        }
        if found.is_none() && streams.is_none() {
            return Err(ManagerError::ConnectionNotFound);
        }
        proof {
            lemma_keys_split(key_views(self.share_tasks@), id@);
            lemma_keys_split(key_views(self.timer_shares@), id@);
            lemma_without(string_views(self.simulation_stream_tasks@), id@);
        }
        let aborted_stream = take_string(&mut self.simulation_stream_tasks, id);
        let dropped = match found {
            Some(at) => {
                proof {
                    lemma_remove_keeps_wf(self.connections@, at as int);
                    self.lemma_found(at as int, id@);
                }
                let removed = self.connections.remove(at);
                Some(removed.transport)
            },
            None => None,
        };
        let aborted_shares = take_keys_to(&mut self.share_tasks, id);
        let released = take_keys_to(&mut self.timer_shares, id);
        Ok(
            SimulationStopPlan {
                aborted_stream,
                dropped,
                aborted_shares,
                timer_releases: released.len(),
            },
        )
    }

    /// The playback on the connection `id` has ended by itself: its task
    /// comes out of the registry. Tells whether it was there.
    pub fn finish_simulation_stream(&mut self, id: &str) -> (r: bool)
        requires
            old(self).wf(),
        ensures
            final(self).wf(),
            final(self).connections == old(self).connections,
            final(self).active_shares == old(self).active_shares,
            final(self).share_tasks == old(self).share_tasks,
            final(self).timer_shares == old(self).timer_shares,
            r == string_views(old(self).simulation_stream_tasks@).contains(id@),
            string_views(final(self).simulation_stream_tasks@) == without(
                string_views(old(self).simulation_stream_tasks@),
                id@,
            ),
    {
        proof {
            lemma_without(string_views(self.simulation_stream_tasks@), id@);
        }
        take_string(&mut self.simulation_stream_tasks, id)
    }
}

} // verus!
