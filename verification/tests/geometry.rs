use packet_router::convert::{lla_to_ned, ned_to_lla, EARTH_RADIUS_BITS, HALF_TURN_BITS, PI_BITS};
use packet_router::prepare::{prepare_results, prepare_target, velocity};
use packet_router::schema::Double;
use packet_router::streaming::{SimulationResult, SimulationResultList, SimulationState};
use packet_router::target::{Lla, Ned, TargetPacket};

const PI: f64 = std::f64::consts::PI;
const R: f64 = 6_378_137.0;

fn d(value: f64) -> Double {
    Double { bits: value.to_bits() }
}

fn lla(lat: f64, lon: f64, alt: f64) -> Lla {
    Lla { lat: d(lat), lon: d(lon), alt: d(alt) }
}

fn ned(north: f64, east: f64, down: f64) -> Ned {
    Ned { north: d(north), east: d(east), down: d(down) }
}

fn state(lat: f64, lon: f64, alt: f64, time: Option<f64>) -> SimulationState {
    SimulationState { lat: d(lat), lon: d(lon), alt: d(alt), time: time.map(d), alpha: d(0.0), psi: d(0.0) }
}

fn radians(deg: f64) -> f64 {
    deg * PI / 180.0
}

fn expected_ned(origin: (f64, f64, f64), point: (f64, f64, f64)) -> Ned {
    let d_lat = radians(point.0) - radians(origin.0);
    let d_lon = radians(point.1) - radians(origin.1);
    let d_alt = point.2 - origin.2;
    ned(d_lat * R, d_lon * R * radians(origin.0).cos(), -d_alt)
}

fn cosine(origin_lat: f64) -> Double {
    d(radians(origin_lat).cos())
}

#[test]
fn constants_are_the_doubles_they_name() {
    assert_eq!(EARTH_RADIUS_BITS, 6_378_137.0f64.to_bits());
    assert_eq!(PI_BITS, PI.to_bits());
    assert_eq!(HALF_TURN_BITS, 180.0f64.to_bits());
}

#[test]
fn lla_to_ned_matches_the_formula() {
    let origin = (14.752556321159286, 42.965306989229525, 30.0);
    let point = (14.912523675439516, 42.962560407272555, 28.0);
    let got = lla_to_ned(
        &lla(origin.0, origin.1, origin.2),
        &lla(point.0, point.1, point.2),
        cosine(origin.0),
    );
    assert_eq!(got, expected_ned(origin, point));
    assert_eq!(f64::from_bits(got.down.bits), 2.0);
    let north = f64::from_bits(got.north.bits);
    assert!((north - 17807.4).abs() < 1.0, "{}", north);
    let same = lla_to_ned(&lla(1.0, 2.0, 3.0), &lla(1.0, 2.0, 3.0), cosine(1.0));
    assert_eq!(same, ned(0.0, 0.0, -0.0));
}

#[test]
fn ned_to_lla_matches_the_formula() {
    let origin = (14.752556321159286, 42.965306989229525, 30.0);
    let offset = (17807.0, -295.5, 2.0);
    let lat = radians(origin.0) + offset.0 / R;
    let lon = radians(origin.1) + offset.1 / (R * radians(origin.0).cos());
    let alt = origin.2 + -offset.2;
    let got = ned_to_lla(
        &lla(origin.0, origin.1, origin.2),
        &ned(offset.0, offset.1, offset.2),
        false,
        cosine(origin.0),
    );
    assert_eq!(got, lla(lat, lon, alt));
    let got = ned_to_lla(
        &lla(origin.0, origin.1, origin.2),
        &ned(offset.0, offset.1, offset.2),
        true,
        cosine(origin.0),
    );
    assert_eq!(got, lla(lat * 180.0 / PI, lon * 180.0 / PI, alt));
}

#[test]
fn velocity_is_the_difference_over_the_time() {
    let before = ned(10.0, 20.0, -5.0);
    let now = ned(13.0, 19.0, -5.5);
    assert_eq!(velocity(&before, Some(d(1.0)), &now, Some(d(3.0))), ned(1.5, -0.5, -0.25));
    assert_eq!(velocity(&before, Some(d(0.1)), &now, Some(d(0.3))),
        ned(3.0 / (0.3 - 0.1), -1.0 / (0.3 - 0.1), -0.5 / (0.3 - 0.1)));
    // no time before, the same time, a time that goes back: no velocity
    assert_eq!(velocity(&before, None, &now, Some(d(3.0))), ned(0.0, 0.0, 0.0));
    assert_eq!(velocity(&before, Some(d(3.0)), &now, Some(d(3.0))), ned(0.0, 0.0, 0.0));
    assert_eq!(velocity(&before, Some(d(3.0)), &now, Some(d(1.0))), ned(0.0, 0.0, 0.0));
    // a state without a time counts as time zero
    assert_eq!(velocity(&before, Some(d(-2.0)), &now, None), ned(1.5, -0.5, -0.25));
    assert_eq!(velocity(&before, Some(d(f64::NAN)), &now, Some(d(1.0))), ned(0.0, 0.0, 0.0));
}

fn expected_packets(target_id: u32, states: &[(f64, f64, f64, Option<f64>)], origin: (f64, f64, f64)) -> Vec<TargetPacket> {
    let mut packets = Vec::new();
    let mut prev_ned: Option<(f64, f64, f64)> = None;
    let mut prev_time: Option<f64> = None;
    for s in states {
        let n = expected_ned(origin, (s.0, s.1, s.2));
        let now = (
            f64::from_bits(n.north.bits),
            f64::from_bits(n.east.bits),
            f64::from_bits(n.down.bits),
        );
        let (vn, ve, vd) = if let (Some(prev), Some(prev_t)) = (prev_ned.as_ref(), prev_time) {
            let dt = s.3.unwrap_or(0.0) - prev_t;
            if dt > 0.0 {
                ((now.0 - prev.0) / dt, (now.1 - prev.1) / dt, (now.2 - prev.2) / dt)
            } else {
                (0.0, 0.0, 0.0)
            }
        } else {
            (0.0, 0.0, 0.0)
        };
        prev_ned = Some(now);
        prev_time = s.3;
        packets.push(TargetPacket {
            target_id,
            lla: Some(lla(s.0, s.1, s.2)),
            ned: Some(n),
            ned_velocity: Some(ned(vn, ve, vd)),
            time: d(s.3.unwrap_or(0.0)),
            origin: Some(lla(origin.0, origin.1, origin.2)),
        });
    }
    packets
}

#[test]
fn states_become_packets_with_velocities() {
    let origin = (14.75, 42.96, 30.0);
    let track = vec![
        (14.75, 42.96, 30.0, Some(0.0)),
        (14.7501, 42.9602, 31.5, Some(0.1)),
        (14.7503, 42.9601, 33.0, Some(0.2)),
        (14.7504, 42.9605, 33.0, None),
        (14.7509, 42.9607, 35.0, Some(0.5)),
        (14.7511, 42.9609, 36.0, Some(0.5)),
        (14.7513, 42.9611, 37.0, Some(0.25)),
        (14.7515, 42.9613, 38.0, Some(1.0 / 3.0)),
    ];
    let states: Vec<SimulationState> =
        track.iter().map(|s| state(s.0, s.1, s.2, s.3)).collect();
    let got = prepare_target(7, &states, &lla(origin.0, origin.1, origin.2), cosine(origin.0));
    assert_eq!(got, expected_packets(7, &track, origin));
    assert_eq!(got.len(), 8);
    assert_eq!(got[0].ned_velocity, Some(ned(0.0, 0.0, 0.0)));
    assert_eq!(got[4].ned_velocity, Some(ned(0.0, 0.0, 0.0)));
    assert_eq!(got[5].ned_velocity, Some(ned(0.0, 0.0, 0.0)));
    assert_eq!(got[6].ned_velocity, Some(ned(0.0, 0.0, 0.0)));
    assert_ne!(got[1].ned_velocity, Some(ned(0.0, 0.0, 0.0)));
    assert_eq!(got[3].time, d(0.0));
    assert!(prepare_target(7, &vec![], &lla(0.0, 0.0, 0.0), d(1.0)).is_empty());
}

#[test]
fn results_are_prepared_in_order_and_by_target() {
    let origin = (0.0, 0.0, 0.0);
    let a = vec![(1.0, 2.0, 3.0, Some(0.0)), (1.1, 2.1, 3.1, Some(1.0))];
    let b = vec![(5.0, 6.0, 7.0, Some(0.0))];
    let c = vec![(8.0, 9.0, 1.0, Some(0.0)), (8.5, 9.5, 1.5, Some(2.0))];
    let data = SimulationResultList {
        results: vec![
            SimulationResult {
                target_id: 1,
                final_state: a.iter().map(|s| state(s.0, s.1, s.2, s.3)).collect(),
            },
            SimulationResult {
                target_id: 2,
                final_state: b.iter().map(|s| state(s.0, s.1, s.2, s.3)).collect(),
            },
            SimulationResult {
                target_id: 1,
                final_state: c.iter().map(|s| state(s.0, s.1, s.2, s.3)).collect(),
            },
        ],
    };
    let zero = lla(0.0, 0.0, 0.0);
    let mut all = expected_packets(1, &a, origin);
    all.extend(expected_packets(2, &b, origin));
    all.extend(expected_packets(1, &c, origin));
    assert_eq!(prepare_results(&data, None, &zero, cosine(0.0)), all);
    let mut ones = expected_packets(1, &a, origin);
    ones.extend(expected_packets(1, &c, origin));
    assert_eq!(prepare_results(&data, Some(1), &zero, cosine(0.0)), ones);
    assert_eq!(prepare_results(&data, Some(2), &zero, cosine(0.0)), expected_packets(2, &b, origin));
    assert!(prepare_results(&data, Some(3), &zero, cosine(0.0)).is_empty());
}
