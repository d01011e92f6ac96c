//! Angles of a position between degrees and radians.

use crate::ieee::{
    difference_bits, divide, multiply, negate, negated, product_bits, quotient_bits, subtract,
    sum, sum_bits,
};
use crate::schema::Double;
use crate::target::{Lla, Ned};
use vstd::prelude::*;

verus! {

/// The bits of the double nearest to pi.
pub const PI_BITS: u64 = 0x4009_21fb_5444_2d18;

/// The bits of the double 180.
pub const HALF_TURN_BITS: u64 = 0x4066_8000_0000_0000;

/// The bits of an angle in radians, given its bits in degrees: the angle
/// times pi, rounded, by 180, rounded.
pub open spec fn radians_of(degrees: u64) -> u64 {
    quotient_bits(product_bits(degrees, PI_BITS), HALF_TURN_BITS)
}

/// The bits of an angle in degrees, given its bits in radians: the angle
/// times 180, rounded, by pi, rounded.
pub open spec fn degrees_of(radians: u64) -> u64 {
    quotient_bits(product_bits(radians, HALF_TURN_BITS), PI_BITS)
}

/// An angle in radians, given in degrees.
pub fn deg_to_rad(deg: Double) -> (r: Double)
    ensures
        r.bits == radians_of(deg.bits),
{
    divide(multiply(deg, Double { bits: PI_BITS }), Double { bits: HALF_TURN_BITS })
}

/// An angle in degrees, given in radians.
pub fn rad_to_deg(rad: Double) -> (r: Double)
    ensures
        r.bits == degrees_of(rad.bits),
{
    divide(multiply(rad, Double { bits: HALF_TURN_BITS }), Double { bits: PI_BITS })
}

/// The position with latitude and longitude in radians, given them in
/// degrees; the altitude stays.
pub fn lla_to_radians(lla: &Lla) -> (r: Lla)
    ensures
        r.lat.bits == radians_of(lla.lat.bits),
        r.lon.bits == radians_of(lla.lon.bits),
        r.alt == lla.alt,
{
    Lla { lat: deg_to_rad(lla.lat), lon: deg_to_rad(lla.lon), alt: lla.alt }
}

/// The position with latitude and longitude in degrees, given them in
/// radians; the altitude stays.
pub fn lla_to_degrees(lla: &Lla) -> (r: Lla)
    ensures
        r.lat.bits == degrees_of(lla.lat.bits),
        r.lon.bits == degrees_of(lla.lon.bits),
        r.alt == lla.alt,
{
    Lla { lat: rad_to_deg(lla.lat), lon: rad_to_deg(lla.lon), alt: lla.alt }
}

/// The bits of the radius of the earth in metres, 6378137.
pub const EARTH_RADIUS_BITS: u64 = 0x4158_54a6_4000_0000;

/// The position of `point` in the frame of north, east and down at
/// `origin`, on a flat earth, both given in degrees: the differences of
/// latitude and longitude in radians times the radius of the earth, the
/// east also times `cos_origin_lat`, and the difference of the altitudes
/// with its sign turned.
#[verifier::opaque]
pub open spec fn ned_of(origin: Lla, point: Lla, cos_origin_lat: u64) -> Ned {
    let d_lat = difference_bits(radians_of(point.lat.bits), radians_of(origin.lat.bits));
    let d_lon = difference_bits(radians_of(point.lon.bits), radians_of(origin.lon.bits));
    let d_alt = difference_bits(point.alt.bits, origin.alt.bits);
    Ned {
        north: Double { bits: product_bits(d_lat, EARTH_RADIUS_BITS) },
        east: Double {
            bits: product_bits(product_bits(d_lon, EARTH_RADIUS_BITS), cos_origin_lat),
        },
        down: Double { bits: negated(d_alt) },
    }
}

/// The position, in radians, that lies at `ned` in the frame of north,
/// east and down at `origin`, which is given in degrees: the latitude and
/// the longitude of the origin in radians plus north and east by the
/// radius of the earth, the east by `cos_origin_lat` too, and the altitude
/// of the origin less down.
#[verifier::opaque]
pub open spec fn lla_radians_of(origin: Lla, ned: Ned, cos_origin_lat: u64) -> Lla {
    let d_lat = quotient_bits(ned.north.bits, EARTH_RADIUS_BITS);
    let d_lon = quotient_bits(ned.east.bits, product_bits(EARTH_RADIUS_BITS, cos_origin_lat));
    let d_alt = negated(ned.down.bits);
    Lla {
        lat: Double { bits: sum_bits(radians_of(origin.lat.bits), d_lat) },
        lon: Double { bits: sum_bits(radians_of(origin.lon.bits), d_lon) },
        alt: Double { bits: sum_bits(origin.alt.bits, d_alt) },
    }
}

/// The position of `point` in the frame of north, east and down at
/// `origin`. `cos_origin_lat` is the cosine of the latitude of the origin
/// in radians, which the caller computes.
pub fn lla_to_ned(origin: &Lla, point: &Lla, cos_origin_lat: Double) -> (r: Ned)
    ensures
        r == ned_of(*origin, *point, cos_origin_lat.bits),
{
    reveal(ned_of);
    let origin_rad = lla_to_radians(origin);
    let point_rad = lla_to_radians(point);
    let d_lat = subtract(point_rad.lat, origin_rad.lat);
    let d_lon = subtract(point_rad.lon, origin_rad.lon);
    let d_alt = subtract(point_rad.alt, origin_rad.alt);
    let radius = Double { bits: EARTH_RADIUS_BITS };
    Ned {
        north: multiply(d_lat, radius),
        east: multiply(multiply(d_lon, radius), cos_origin_lat),
        down: negate(d_alt),
    }
}

/// The position that lies at `ned` in the frame of north, east and down
/// at `origin`, in degrees or in radians. `cos_origin_lat` is the cosine
/// of the latitude of the origin in radians, which the caller computes.
pub fn ned_to_lla(origin: &Lla, ned: &Ned, output_in_degrees: bool, cos_origin_lat: Double) -> (r:
    Lla)
    ensures
        !output_in_degrees ==> r == lla_radians_of(*origin, *ned, cos_origin_lat.bits),
        output_in_degrees ==> {
            let radians = lla_radians_of(*origin, *ned, cos_origin_lat.bits);
            &&& r.lat.bits == degrees_of(radians.lat.bits)
            &&& r.lon.bits == degrees_of(radians.lon.bits)
            &&& r.alt == radians.alt
        },
{
    reveal(lla_radians_of);
    let origin_rad = lla_to_radians(origin);
    let radius = Double { bits: EARTH_RADIUS_BITS };
    let d_lat = divide(ned.north, radius);
    let d_lon = divide(ned.east, multiply(radius, cos_origin_lat));
    let d_alt = negate(ned.down);
    let lla_rad = Lla {
        lat: sum(origin_rad.lat, d_lat),
        lon: sum(origin_rad.lon, d_lon),
        alt: sum(origin_rad.alt, d_alt),
    };
    if output_in_degrees {
        lla_to_degrees(&lla_rad)
    } else {
        lla_rad
    }
}

} // verus!
