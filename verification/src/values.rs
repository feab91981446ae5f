//! What records hold: counts, identifiers and events.

use crate::failure::Failure;
use crate::ids::{Identifier, UserId};
use crate::ord_map::OrdMap;
use vstd::prelude::*;
use vstd::utf8::{decode_utf8, encode_utf8_decode_utf8, valid_utf8};

verus! {

/// A table of records: byte strings stored under byte strings.
pub type Table = OrdMap<Vec<u8>>;

/// The records of a table.
pub type Records = Map<Seq<u8>, Vec<u8>>;

/// The number that the bytes spell, most significant byte first.
pub open spec fn big_endian(bytes: Seq<u8>) -> nat
    decreases bytes.len(),
{
    if bytes.len() == 0 {
        0
    } else {
        256 * big_endian(bytes.drop_last()) + bytes.last() as nat
    }
}

/// The count stored under `key`: the number that the first eight stored bytes
/// spell.
pub open spec fn stored_count(table: Records, key: Seq<u8>) -> Result<u64, Failure> {
    if !table.contains_key(key) {
        Err(Failure::NotFound)
    } else if table[key]@.len() < 8 {
        Err(Failure::NotACount)
    } else {
        Ok(big_endian(table[key]@.take(8)) as u64)
    }
}

spec fn power_of_256(n: nat) -> nat
    decreases n,
{
    if n == 0 {
        1
    } else {
        256 * power_of_256((n - 1) as nat)
    }
}

proof fn big_endian_is_bounded(bytes: Seq<u8>)
    ensures
        big_endian(bytes) < power_of_256(bytes.len()),
    decreases bytes.len(),
{
    if bytes.len() > 0 {
        big_endian_is_bounded(bytes.drop_last());
    }
}

/// Eight bytes spell a number that fits in 64 bits, so a stored count is exact.
pub proof fn count_fits(bytes: Seq<u8>)
    requires
        bytes.len() <= 8,
    ensures
        big_endian(bytes) <= u64::MAX,
{
    big_endian_is_bounded(bytes);
    reveal_with_fuel(power_of_256, 9);
    assert(power_of_256(8) == 0x1_0000_0000_0000_0000);
    powers_grow(bytes.len(), 8);
}

proof fn powers_grow(n: nat, m: nat)
    requires
        n <= m,
    ensures
        power_of_256(n) <= power_of_256(m),
    decreases m,
{
    if n < m {
        powers_grow(n, (m - 1) as nat);
    }
}

/// Reads the count stored under `key`.
pub fn read_count(table: &Table, key: &[u8]) -> (r: Result<u64, Failure>)
    ensures
        r == stored_count(table@, key@),
{
    match table.get(key) {
        None => Err(Failure::NotFound),
        Some(bytes) => {
            if bytes.len() < 8 {
                return Err(Failure::NotACount);
            }
            let mut n: u64 = 0;
            let mut i: usize = 0;
            while i < 8
                invariant
                    i <= 8 <= bytes@.len(),
                    n == big_endian(bytes@.take(i as int)),
                decreases 8 - i,
            {
                proof {
                    let next = bytes@.take(i + 1);
                    assert(next.drop_last() =~= bytes@.take(i as int));
                    assert(next.last() == bytes@[i as int]);
                    count_fits(next);
                }
                n = n * 256 + bytes[i] as u64;
                i = i + 1;
            }
            Ok(n)
        },
    }
}

/// The user id stored under `key`.
pub open spec fn stored_user_id(table: Records, key: Seq<u8>) -> Result<Seq<char>, Failure> {
    if !table.contains_key(key) {
        Err(Failure::NotFound)
    } else if !valid_utf8(table[key]@) {
        Err(Failure::NotText)
    } else if !UserId::accepted(decode_utf8(table[key]@)) {
        Err(Failure::NotAnId)
    } else {
        Ok(decode_utf8(table[key]@))
    }
}

/// Reads the user id stored under `key`.
pub fn read_user_id(table: &Table, key: &[u8]) -> (r: Result<UserId, Failure>)
    ensures
        match r {
            Ok(id) => stored_user_id(table@, key@) == Ok::<Seq<char>, Failure>(id@),
            Err(e) => stored_user_id(table@, key@) == Err::<Seq<char>, Failure>(e),
        },
{
    match table.get(key) {
        None => Err(Failure::NotFound),
        Some(bytes) => match std::str::from_utf8(bytes.as_slice()) {
            Ok(text) => {
                proof {
                    encode_utf8_decode_utf8(text@);
                }
                UserId::parse(text)
            },
            Err(_) => Err(Failure::NotText),
        },
    }
}

/// A failure of `serde_json`.
#[verifier::external_type_specification]
#[verifier::external_body]
pub struct ExJsonError(serde_json::Error);

/// The JSON texts of the stripped state events that the bytes list, as
/// `serde_json::from_slice` reads them, if it can.
pub uninterp spec fn stripped_state_listed(json: Seq<u8>) -> Option<Seq<Seq<char>>>;

/// Calls `serde_json::from_slice` for a list of raw stripped state events
/// (`ruma::serde::Raw`): the bytes must be a JSON array, and each of its members is
/// kept as the text it is written in. What it makes of given bytes is given a name
/// here and not spelt out.
#[verifier::external_body]
fn parse_stripped_state(json: &[u8]) -> (r: Result<Vec<String>, serde_json::Error>)
    ensures
        r is Ok <==> stripped_state_listed(json@) is Some,
        r matches Ok(events) ==> stripped_state_listed(json@) == Some(
            events@.map_values(|event: String| event@),
        ),
{
    serde_json::from_slice::<Vec<ruma::serde::Raw<ruma::events::AnyStrippedStateEvent>>>(json).map(
        |events| events.into_iter().map(|event| event.json().get().to_owned()).collect(),
    )
}

/// The texts of a list of events.
pub open spec fn event_texts(events: Seq<String>) -> Seq<Seq<char>> {
    events.map_values(|event: String| event@)
}

/// Reads a list of stripped state events, each as its JSON text.
pub fn read_stripped_state(json: &Vec<u8>) -> (r: Result<Vec<String>, Failure>)
    ensures
        match r {
            Ok(events) => stripped_state_listed(json@) == Some(event_texts(events@)),
            Err(e) => stripped_state_listed(json@) is None && e == Failure::Json,
        },
{
    match parse_stripped_state(json.as_slice()) {
        Ok(events) => Ok(events),
        Err(_) => Err(Failure::Json),
    }
}

} // verus!
