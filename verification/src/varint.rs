//! Variable-length integers of the protocol-buffers wire format.

use vstd::prelude::*;

verus! {

/// The LEB128 bytes of `value`: seven bits per byte, least significant group
/// first, the high bit set on every byte but the last.
pub open spec fn varint_bytes(value: nat) -> Seq<u8>
    decreases value,
{
    if value < 0x80 {
        seq![value as u8]
    } else {
        seq![((value % 0x80) + 0x80) as u8] + varint_bytes(value / 0x80)
    }
}

/// The value and the length of the varint at the start of `bytes`, reading at
/// most `budget` bytes. A byte below `0x80` ends the varint. The tenth byte
/// may only hold the one bit that is left of a 64-bit value.
pub open spec fn varint_value(bytes: Seq<u8>, budget: nat) -> Option<(nat, nat)>
    decreases budget,
{
    if budget == 0 || bytes.len() == 0 {
        None
    } else if bytes[0] < 0x80 {
        if budget == 1 && bytes[0] >= 2 {
            None
        } else {
            Some((bytes[0] as nat, 1nat))
        }
    } else {
        match varint_value(bytes.skip(1), (budget - 1) as nat) {
            Some((rest, len)) => Some((((bytes[0] - 0x80) + 0x80 * rest) as nat, len + 1)),
            None => None,
        }
    }
}

/// The varint at the start of `bytes`, if there is a well-formed one: its
/// value, which fits 64 bits, and the number of bytes it takes.
pub open spec fn parse_varint(bytes: Seq<u8>) -> Option<(nat, nat)> {
    varint_value(bytes, 10)
}

/// Upper bound of a varint that takes at most `budget` bytes: seven bits
/// per byte, and one bit in the last byte of the budget.
pub open spec fn varint_bound(budget: nat) -> nat
    decreases budget,
{
    if budget <= 1 {
        2
    } else {
        0x80 * varint_bound((budget - 1) as nat)
    }
}

/// Every bound is at least two.
proof fn lemma_varint_bound_at_least_two(budget: nat)
    ensures
        varint_bound(budget) >= 2,
    decreases budget,
{
    if budget > 1 {
        lemma_varint_bound_at_least_two((budget - 1) as nat);
    }
}

/// A parsed varint is shorter than its budget and than the input, and its
/// value stays under the bound of the budget.
pub proof fn lemma_varint_value_bounds(bytes: Seq<u8>, budget: nat)
    ensures
        varint_value(bytes, budget) matches Some((value, len)) ==> 1 <= len <= budget && len
            <= bytes.len() && value < varint_bound(budget),
    decreases budget,
{
    if budget == 0 || bytes.len() == 0 {
    } else if bytes[0] < 0x80 {
        lemma_varint_bound_at_least_two((budget - 1) as nat);
    } else {
        lemma_varint_value_bounds(bytes.skip(1), (budget - 1) as nat);
        lemma_varint_bound_at_least_two((budget - 1) as nat);
    }
}

/// The bytes of a value end with a byte below `0x80`.
pub proof fn lemma_varint_bytes_end(value: nat)
    ensures
        varint_bytes(value).len() >= 1,
        varint_bytes(value).last() < 0x80,
    decreases value,
{
    if value >= 0x80 {
        lemma_varint_bytes_end(value / 0x80);
        let rest = varint_bytes(value / 0x80);
        let all = varint_bytes(value);
        assert(all.last() == rest.last());
    }
}

/// Ten bytes hold exactly the 64-bit values.
pub proof fn lemma_varint_bound_ten()
    ensures
        varint_bound(10) == 0x1_0000_0000_0000_0000,
{
    reveal_with_fuel(varint_bound, 11);
}

/// A parsed varint fits 64 bits.
pub proof fn lemma_parse_varint_bounds(bytes: Seq<u8>)
    ensures
        parse_varint(bytes) matches Some((value, len)) ==> 1 <= len <= 10 && len <= bytes.len()
            && value <= u64::MAX,
{
    lemma_varint_value_bounds(bytes, 10);
    lemma_varint_bound_ten();
}

/// The bytes of a value are between one and ten for a 64-bit value.
pub proof fn lemma_varint_bytes_len(value: nat, budget: nat)
    requires
        value < varint_bound(budget),
    ensures
        1 <= varint_bytes(value).len() <= budget || budget == 0,
    decreases value,
{
    reveal_with_fuel(varint_bound, 2);
    if value >= 0x80 {
        if budget >= 2 {
            lemma_varint_bytes_len(value / 0x80, (budget - 1) as nat);
        }
    }
}

/// Reading back the bytes of a value gives the value, whatever follows them.
pub proof fn lemma_varint_round_trip(value: nat, rest: Seq<u8>, budget: nat)
    requires
        value < varint_bound(budget),
        budget >= 1,
    ensures
        varint_value(varint_bytes(value) + rest, budget) == Some(
            (value, varint_bytes(value).len()),
        ),
    decreases value,
{
    reveal_with_fuel(varint_bound, 2);
    let all = varint_bytes(value) + rest;
    if value < 0x80 {
        assert(all[0] == value as u8);
    } else {
        let tail = varint_bytes(value / 0x80);
        assert(all[0] == ((value % 0x80) + 0x80) as u8);
        assert(all.skip(1) =~= tail + rest);
        lemma_varint_round_trip(value / 0x80, rest, (budget - 1) as nat);
    }
}

/// The bytes of a 64-bit value parse back to it, whatever follows them.
pub proof fn lemma_parse_varint_round_trip(value: u64, rest: Seq<u8>)
    ensures
        parse_varint(varint_bytes(value as nat) + rest) == Some(
            (value as nat, varint_bytes(value as nat).len()),
        ),
        1 <= varint_bytes(value as nat).len() <= 10,
{
    lemma_varint_bound_ten();
    lemma_varint_round_trip(value as nat, rest, 10);
    lemma_varint_bytes_len(value as nat, 10);
}

/// Why a byte string was refused as a message of the packet schema. The wire
/// format gives no finer reason that callers could act on.
#[derive(Debug, Clone, Copy, PartialEq, Eq, Structural)]
pub struct WireError;

/// `prost::DecodeError`, the error of the decoding functions of `prost`. It
/// is taken as it comes and told no further.
#[verifier::external_type_specification]
#[verifier::external_body]
pub struct ExProstDecodeError(prost::DecodeError);

/// `prost::encoding::encode_varint` on a vector: the LEB128 bytes of `value`
/// are appended to `buf`, and nothing else changes.
#[verifier::external_body]
fn prost_encode_varint(value: u64, buf: &mut Vec<u8>)
    ensures
        final(buf)@ == old(buf)@ + varint_bytes(value as nat),
{
    prost::encoding::encode_varint(value, buf)
}

/// `prost::encoding::decode_varint` on a slice: it succeeds exactly on a
/// well-formed varint of at most ten bytes whose tenth byte is below two,
/// gives its value and leaves the bytes behind it.
#[verifier::external_body]
fn prost_decode_varint<'a>(data: &'a [u8]) -> (r: Result<(u64, &'a [u8]), prost::DecodeError>)
    ensures
        match r {
            Ok((value, rest)) => parse_varint(data@) matches Some((v, len)) && v == value
                && rest@ == data@.skip(len as int),
            Err(_) => parse_varint(data@) is None,
        },
{
    let mut rest = data;
    let value = prost::encoding::decode_varint(&mut rest)?;
    Ok((value, rest))
}

/// Appends the varint of `value` to `buf`.
pub fn encode_varint(value: u64, buf: &mut Vec<u8>)
    ensures
        final(buf)@ == old(buf)@ + varint_bytes(value as nat),
{
    prost_encode_varint(value, buf)
}

/// Reads the varint at the start of `data`: its value and how many bytes it
/// takes. Fails exactly where no well-formed varint starts.
pub fn decode_varint(data: &[u8]) -> (r: Result<(u64, usize), WireError>)
    ensures
        match r {
            Ok((value, len)) => parse_varint(data@) == Some((value as nat, len as nat)),
            Err(_) => parse_varint(data@) is None,
        },
{
    match prost_decode_varint(data) {
        Ok((value, rest)) => {
            proof {
                lemma_parse_varint_bounds(data@);
            }
            Ok((value, data.len() - rest.len()))
        },
        Err(_) => Err(WireError),
    }
}

} // verus!
