//! From the states of a simulation to target packets: each state becomes a
//! packet with its position in both frames and the velocity since the
//! state before it.

use crate::convert::{lla_to_ned, ned_of};
use crate::ieee::{above_zero, difference_bits, divide, is_above_zero, quotient_bits, subtract};
use crate::schema::Double;
use crate::streaming::{SimulationResult, SimulationResultList, SimulationState};
use crate::target::{Lla, Ned, TargetPacket};
use vstd::prelude::*;

verus! {

/// The velocity of a target that does not move.
pub open spec fn still() -> Ned {
    Ned { north: Double { bits: 0 }, east: Double { bits: 0 }, down: Double { bits: 0 } }
}

/// The time of a state, zero where it has none.
pub open spec fn time_or_zero(time: Option<Double>) -> Double {
    match time {
        Some(t) => t,
        None => Double { bits: 0 },
    }
}

/// The position of a state.
pub open spec fn position_of(state: SimulationState) -> Lla {
    Lla { lat: state.lat, lon: state.lon, alt: state.alt }
}

/// The velocity between two positions: their difference over the
/// difference of their times where that is above zero, and else none. A
/// state before that has no time gives none.
#[verifier::opaque]
pub open spec fn velocity_between(
    before: Ned,
    before_time: Option<Double>,
    now: Ned,
    now_time: Option<Double>,
) -> Ned {
    match before_time {
        Some(earlier) => {
            let dt = difference_bits(time_or_zero(now_time).bits, earlier.bits);
            if above_zero(dt) {
                Ned {
                    north: Double {
                        bits: quotient_bits(difference_bits(now.north.bits, before.north.bits), dt),
                    },
                    east: Double {
                        bits: quotient_bits(difference_bits(now.east.bits, before.east.bits), dt),
                    },
                    down: Double {
                        bits: quotient_bits(difference_bits(now.down.bits, before.down.bits), dt),
                    },
                }
            } else {
                still()
            }
        },
        None => still(),
    }
}

/// The packet of the state at place `at` of the states of target
/// `target_id`, in the frame at `origin`.
pub open spec fn prepared_at(
    target_id: u32,
    states: Seq<SimulationState>,
    origin: Lla,
    cos_origin_lat: u64,
    at: int,
) -> TargetPacket {
    let lla = position_of(states[at]);
    let ned = ned_of(origin, lla, cos_origin_lat);
    TargetPacket {
        target_id,
        lla: Some(lla),
        ned: Some(ned),
        ned_velocity: Some(
            if at == 0 {
                still()
            } else {
                velocity_between(
                    ned_of(origin, position_of(states[at - 1]), cos_origin_lat),
                    states[at - 1].time,
                    ned,
                    states[at].time,
                )
            },
        ),
        time: time_or_zero(states[at].time),
        origin: Some(origin),
    }
}

/// The packets of the states of one target, in order.
pub open spec fn prepared(
    target_id: u32,
    states: Seq<SimulationState>,
    origin: Lla,
    cos_origin_lat: u64,
) -> Seq<TargetPacket> {
    Seq::new(states.len(), |at: int| prepared_at(target_id, states, origin, cos_origin_lat, at))
}

/// Holds where the result is wanted: every result where `only` is `None`,
/// and else those of that target.
pub open spec fn wanted(only: Option<u32>, target_id: u32) -> bool {
    match only {
        Some(id) => id == target_id,
        None => true,
    }
}

/// The packets of the wanted results, result after result.
pub open spec fn prepared_all(
    results: Seq<SimulationResult>,
    only: Option<u32>,
    origin: Lla,
    cos_origin_lat: u64,
) -> Seq<TargetPacket>
    decreases results.len(),
{
    if results.len() == 0 {
        Seq::empty()
    } else if wanted(only, results.last().target_id) {
        prepared_all(results.drop_last(), only, origin, cos_origin_lat) + prepared(
            results.last().target_id,
            results.last().final_state@,
            origin,
            cos_origin_lat,
        )
    } else {
        prepared_all(results.drop_last(), only, origin, cos_origin_lat)
    }
}

/// The velocity between two positions and their times.
pub fn velocity(before: &Ned, before_time: Option<Double>, now: &Ned, now_time: Option<Double>) -> (r:
    Ned)
    ensures
        r == velocity_between(*before, before_time, *now, now_time),
{
    reveal(velocity_between);
    let zero = Double { bits: 0 };
    let none = Ned { north: zero, east: zero, down: zero };
    match before_time {
        Some(earlier) => {
            let later = match now_time {
                Some(t) => t,
                None => zero,
            };
            let dt = subtract(later, earlier);
            if is_above_zero(dt) {
                Ned {
                    north: divide(subtract(now.north, before.north), dt),
                    east: divide(subtract(now.east, before.east), dt),
                    down: divide(subtract(now.down, before.down), dt),
                }
            } else {
                none
            }
        },
        None => none,
    }
}

/// The packets of the states of target `target_id`, in the frame at
/// `origin`. `cos_origin_lat` is the cosine of the latitude of the origin
/// in radians, which the caller computes.
pub fn prepare_target(
    target_id: u32,
    states: &Vec<SimulationState>,
    origin: &Lla,
    cos_origin_lat: Double,
) -> (r: Vec<TargetPacket>)
    ensures
        r@ == prepared(target_id, states@, *origin, cos_origin_lat.bits),
{
    let mut packets: Vec<TargetPacket> = Vec::new();
    let mut previous: Option<(Ned, Option<Double>)> = None;
    let mut i: usize = 0;
    while i < states.len()
        invariant
            i <= states.len(),
            packets@.len() == i,
            forall|k: int|
                0 <= k < i ==> packets@[k] == prepared_at(
                    target_id,
                    states@,
                    *origin,
                    cos_origin_lat.bits,
                    k,
                ),
            i == 0 ==> previous is None,
            i > 0 ==> previous == Some(
                (
                    ned_of(*origin, position_of(states@[i - 1]), cos_origin_lat.bits),
                    states@[i - 1].time,
                ),
            ),
        decreases states.len() - i,
    {
        let zero = Double { bits: 0 };
        let state = states[i];
        let lla = Lla { lat: state.lat, lon: state.lon, alt: state.alt };
        let ned = lla_to_ned(origin, &lla, cos_origin_lat);
        let speed = match previous {
            Some((before, before_time)) => velocity(&before, before_time, &ned, state.time),
            None => Ned { north: zero, east: zero, down: zero },
        };
        let time = match state.time {
            Some(t) => t,
            None => zero,
        };
        let packet = TargetPacket {
            target_id,
            lla: Some(lla),
            ned: Some(ned),
            ned_velocity: Some(speed),
            time,
            origin: Some(*origin),
        };
        let ghost before = packets@;
        proof {
            assert(lla == position_of(states@[i as int]));
            assert(time == time_or_zero(states@[i as int].time));
            assert(packet == prepared_at(
                target_id,
                states@,
                *origin,
                cos_origin_lat.bits,
                i as int,
            ));
        }
        packets.push(packet);
        proof {
            assert forall|k: int| 0 <= k < i + 1 implies packets@[k] == prepared_at(
                target_id,
                states@,
                *origin,
                cos_origin_lat.bits,
                k,
            ) by {
                if k < i {
                    assert(packets@[k] == before[k]);
                }
            }
        }
        previous = Some((ned, state.time));
        i = i + 1;
    }
    assert(packets@ =~= prepared(target_id, states@, *origin, cos_origin_lat.bits));
    packets
}

/// The packets of the results of a simulation, result after result: of
/// every result where `only` is `None`, and else of the results of that
/// target.
pub fn prepare_results(
    data: &SimulationResultList,
    only: Option<u32>,
    origin: &Lla,
    cos_origin_lat: Double,
) -> (r: Vec<TargetPacket>)
    ensures
        r@ == prepared_all(data.results@, only, *origin, cos_origin_lat.bits),
{
    let mut packets: Vec<TargetPacket> = Vec::new();
    let mut i: usize = 0;
    assert(data.results@.take(0) =~= Seq::<SimulationResult>::empty());
    while i < data.results.len()
        invariant
            i <= data.results.len(),
            packets@ == prepared_all(
                data.results@.take(i as int),
                only,
                *origin,
                cos_origin_lat.bits,
            ),
        decreases data.results.len() - i,
    {
        proof {
            let next = data.results@.take(i + 1);
            assert(next.drop_last() =~= data.results@.take(i as int));
            assert(next.last() == data.results@[i as int]);
        }
        let target_id = data.results[i].target_id;
        let take = match only {
            Some(id) => id == target_id,
            None => true,
        };
        if take {
            let mut more = prepare_target(
                target_id,
                &data.results[i].final_state,
                origin,
                cos_origin_lat,
            );
            packets.append(&mut more);
        }
        i = i + 1;
    }
    assert(data.results@.take(i as int) =~= data.results@);
    packets
}

} // verus!
