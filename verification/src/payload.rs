//! The text that an inbound payload carries.
//!
//! A payload holds a text in the transport's serialization format: a length
//! in LEB128, then that many bytes of UTF-8, and nothing after them. The
//! library reads the length itself and hands the payload to the transport's
//! deserializer only where exactly that many bytes follow, so that a length
//! that the payload does not back is never taken for an allocation.

use vstd::prelude::*;
use vstd::utf8::{decode_utf8, valid_utf8};
use zenoh::bytes::ZBytes;
use zenoh_ext::z_deserialize;

verus! {

/// The weight of the last group of seven bits that a length of 64 bits can hold.
pub const TOP_WEIGHT: u64 = 0x8000_0000_0000_0000;

/// The length that `bytes` starts with and the number of bytes that spell it.
/// Each byte gives seven bits, the lowest group first, and all but the last
/// byte are 128 or more. The group of weight `TOP_WEIGHT` has room for one bit
/// only. `weight` is the weight of the group that `bytes` starts with.
pub open spec fn length_prefix(bytes: Seq<u8>, weight: nat) -> Option<(nat, nat)>
    decreases bytes.len(),
{
    if bytes.len() == 0 {
        None
    } else if weight == TOP_WEIGHT && bytes[0] > 1 {
        None
    } else {
        let low = (bytes[0] % 128) as nat * weight;
        if bytes[0] < 128 {
            Some((low, 1))
        } else {
            match length_prefix(bytes.drop_first(), weight * 128) {
                Some((high, used)) => Some((low + high, used + 1)),
                None => None,
            }
        }
    }
}

/// The bytes that follow the length, where a payload starts with a length and
/// exactly that many bytes follow it.
pub open spec fn framed_body(payload: Seq<u8>) -> Option<Seq<u8>> {
    match length_prefix(payload, 1) {
        Some((length, used)) => if used + length == payload.len() {
            Some(payload.skip(used as int))
        } else {
            None
        },
        None => None,
    }
}

/// The text that a payload carries, if it carries one.
pub open spec fn payload_text(payload: Seq<u8>) -> Option<Seq<char>> {
    match framed_body(payload) {
        Some(body) => if valid_utf8(body) {
            Some(decode_utf8(body))
        } else {
            None
        },
        None => None,
    }
}

/// The weight of group `i`.
pub open spec fn weight_of(i: nat) -> nat
    decreases i,
{
    if i == 0 {
        1
    } else {
        128 * weight_of((i - 1) as nat)
    }
}

proof fn lemma_weights()
    ensures
        weight_of(0) == 1,
        weight_of(9) == TOP_WEIGHT,
        forall|i: nat| i < 9 ==> #[trigger] weight_of(i) <= 0x0100_0000_0000_0000,
        forall|i: nat| #[trigger] weight_of(i + 1) == 128 * weight_of(i),
{
    reveal_with_fuel(weight_of, 10);
    assert forall|i: nat| i < 9 implies #[trigger] weight_of(i) <= 0x0100_0000_0000_0000 by {
        if i == 0 {
        } else if i == 1 {
        } else if i == 2 {
        } else if i == 3 {
        } else if i == 4 {
        } else if i == 5 {
        } else if i == 6 {
        } else if i == 7 {
        } else {
            assert(i == 8);
        }
    }
}

/// Reads the length that `payload` starts with, and says how many bytes spell it.
pub fn read_length(payload: &Vec<u8>) -> (r: Option<(u64, usize)>)
    ensures
        match r {
            Some((length, used)) => length_prefix(payload@, 1) == Some(
                (length as nat, used as nat),
            ) && used <= payload.len(),
            None => length_prefix(payload@, 1) is None,
        },
{
    let mut value: u64 = 0;
    let mut weight: u64 = 1;
    let mut i: usize = 0;
    proof {
        lemma_weights();
        assert(payload@.skip(0) =~= payload@);
    }
    while i < payload.len()
        invariant
            i <= payload.len(),
            i <= 9,
            weight == weight_of(i as nat),
            value < weight,
            length_prefix(payload@, 1) == match length_prefix(payload@.skip(i as int), weight as nat) {
                Some((high, used)) => Some(((value + high) as nat, (used + i) as nat)),
                None => None,
            },
        decreases payload.len() - i,
    {
        let byte: u8 = payload[i];
        proof {
            lemma_weights();
            assert(payload@.skip(i as int).drop_first() =~= payload@.skip(i + 1));
            assert(payload@.skip(i as int)[0] == byte);
        }
        if weight == TOP_WEIGHT && byte > 1 {
            return None;
        }
        assert(i == 9 ==> weight == TOP_WEIGHT);
        assert(i < 9 ==> weight <= 0x0100_0000_0000_0000);
        let group: u64 = (byte % 128) as u64;
        assert(group * weight <= 127 * weight) by (nonlinear_arith)
            requires
                group <= 127,
                weight >= 0,
        ;
        assert(weight == TOP_WEIGHT ==> group * weight <= weight) by (nonlinear_arith)
            requires
                group <= 1 || weight != TOP_WEIGHT,
                weight >= 0,
        ;
        let low: u64 = group * weight;
        if byte < 128 {
            return Some((value + low, i + 1));
        }
        assert(weight != TOP_WEIGHT);
        assert(i < 9);
        assert(weight_of((i + 1) as nat) == 128 * weight_of(i as nat));
        value = value + low;
        weight = weight * 128;
        i += 1;
    }
    None
}

/// Calls `zenoh_ext::z_deserialize` for a `String` on the bytes of `payload`.
/// The payload starts with a length and exactly that many bytes follow. The
/// deserializer then reads those bytes, and succeeds exactly where they are
/// UTF-8: the text is theirs.
#[verifier::external_body]
fn deserialize_text(payload: &Vec<u8>) -> (text: Option<String>)
    requires
        framed_body(payload@) is Some,
    ensures
        match text {
            Some(t) => valid_utf8(framed_body(payload@)->0) && t@ == decode_utf8(
                framed_body(payload@)->0,
            ),
            None => !valid_utf8(framed_body(payload@)->0),
        },
{
    z_deserialize::<String>(&ZBytes::from(payload.as_slice())).ok()
}

/// The text of a text, where there is one.
pub open spec fn text_of(text: Option<String>) -> Option<Seq<char>> {
    match text {
        Some(t) => Some(t@),
        None => None,
    }
}

/// Decodes the text that `payload` carries. A payload that is not a length
/// and exactly that many bytes of UTF-8 carries none.
pub fn decode_payload(payload: &Vec<u8>) -> (text: Option<String>)
    ensures
        text_of(text) == payload_text(payload@),
{
    match read_length(payload) {
        Some((length, used)) => {
            if (payload.len() - used) as u64 == length {
                deserialize_text(payload)
            } else {
                None
            }
        },
        None => None,
    }
}

} // verus!
