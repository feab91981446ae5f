# state_cache

What a Matrix homeserver remembers about who is where: which users are joined to,
invited to, knocking on or gone from which rooms, which servers take part in them,
and which appservices have a stake in them. The library is written in Verus: every
function carries a contract, and all contracts are proved but those of the calls into
other crates and the standard library, which are listed under "What is trusted".

## Records

Records are byte strings stored under byte strings, in tables that keep their keys in
dictionary order. A key has one field, or two with the byte `0xFF` between them. UTF-8
never uses that byte, so a key tells its fields apart. A count is the number that the
first eight bytes of a record spell, most significant first. State events are a JSON
array.

## Layout

- `src/order.rs`, `src/ord_map.rs`: byte strings in order, and a map keyed by them.
- `src/ids.rs`, `src/keys.rs`, `src/values.rs`: identifiers, keys, and what records hold.
- `src/listing.rs`, `src/sets.rs`: listing identifiers, and what two lists share.
- `src/database.rs`, `src/service.rs`: the tables, and the questions about them.
- `src/membership.rs`, `src/appservice.rs`: memberships, and appservices with their cache.
- `src/appservice_ephemeral.rs`: events that are passed on to appservices.
- `src/laws.rs`: what holds of all this as a whole.
- `app/`: the same questions over a live, asynchronous store.
- `tests/`: examples.

## What is trusted

Identifiers are checked by `ruma`, JSON is read and written by `serde_json`; the
contracts of these calls, and of two functions of the standard library, are taken on
trust. Each stands with a comment that says what is claimed.
