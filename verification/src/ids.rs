//! Ids of connections and shares: a prefix and a random part.

use crate::text::{append_decimal, decimal};
use vstd::prelude::*;
use vstd::string::StringExecFns;

verus! {

/// The number of characters of the random part of an id.
pub const RANDOM_PART_LEN: usize = 36;

/// `uuid::Uuid::new_v4` and the text of the result: a random identifier in
/// its hyphenated form, which always has 36 characters.
#[verifier::external_body]
fn uuid_text() -> (r: String)
    ensures
        r@.len() == RANDOM_PART_LEN,
{
    uuid::Uuid::new_v4().to_string()
}

/// The id made of `prefix` and the random part `random`.
pub open spec fn prefixed(prefix: Seq<char>, random: Seq<char>) -> Seq<char> {
    prefix + "_"@ + random
}

/// The id of a share of target `target_id` with the random part `random`.
pub open spec fn share_id_text(target_id: u32, random: Seq<char>) -> Seq<char> {
    "share_"@ + decimal(target_id as nat) + "_"@ + random
}

/// The id of a share of target `target_id` of the datagram endpoint
/// `connection` with the random part `random`.
pub open spec fn udp_share_id_text(connection: Seq<char>, target_id: u32, random: Seq<char>) -> Seq<
    char,
> {
    "udp_share_"@ + connection + "_"@ + decimal(target_id as nat) + "_"@ + random
}

/// The id made of `prefix`, an underscore and `random`.
pub fn join_id(prefix: &str, random: &str) -> (r: String)
    ensures
        r@ == prefixed(prefix@, random@),
{
    let mut out = String::from_str(prefix);
    out.append("_");
    out.append(random);
    out
}

/// A new id with the prefix `prefix`: the prefix, an underscore and 36
/// random characters.
pub fn new_connection_id(prefix: &str) -> (r: String)
    ensures
        exists|random: Seq<char>|
            random.len() == RANDOM_PART_LEN && r@ == #[trigger] prefixed(prefix@, random),
        r@.len() == prefix@.len() + 1 + RANDOM_PART_LEN,
{
    let random = uuid_text();
    proof {
        reveal_strlit("_");
    }
    join_id(prefix, random.as_str())
}

/// A new id for a simulation stream.
pub fn new_simulation_id() -> (r: String)
    ensures
        exists|random: Seq<char>|
            random.len() == RANDOM_PART_LEN && r@ == #[trigger] prefixed("sim_udp"@, random),
{
    new_connection_id("sim_udp")
}

/// The id of a share of target `target_id` with the random part `random`.
pub fn join_share_id(target_id: u32, random: &str) -> (r: String)
    ensures
        r@ == share_id_text(target_id, random@),
{
    let mut out = String::from_str("share_");
    append_decimal(&mut out, target_id as u64);
    out.append("_");
    out.append(random);
    out
}

/// A new id for a share of target `target_id`.
pub fn new_share_id(target_id: u32) -> (r: String)
    ensures
        exists|random: Seq<char>|
            random.len() == RANDOM_PART_LEN && r@ == #[trigger] share_id_text(target_id, random),
{
    let random = uuid_text();
    join_share_id(target_id, random.as_str())
}

/// The id of a share of target `target_id` of the datagram endpoint
/// `connection` with the random part `random`.
pub fn join_udp_share_id(connection: &str, target_id: u32, random: &str) -> (r: String)
    ensures
        r@ == udp_share_id_text(connection@, target_id, random@),
{
    let mut out = String::from_str("udp_share_");
    out.append(connection);
    out.append("_");
    append_decimal(&mut out, target_id as u64);
    out.append("_");
    out.append(random);
    out
}

/// A new id for a share of target `target_id` of the datagram endpoint
/// `connection`.
pub fn new_udp_share_id(connection: &str, target_id: u32) -> (r: String)
    ensures
        exists|random: Seq<char>|
            random.len() == RANDOM_PART_LEN && r@ == #[trigger] udp_share_id_text(
                connection@,
                target_id,
                random,
            ),
{
    let random = uuid_text();
    join_udp_share_id(connection, target_id, random.as_str())
}

} // verus!
