//! What the parts do that the answers are made of: order, keys, maps and identifiers.

use crate::database::Database;
use crate::failure::Failure;
use crate::ids::{on_server_after, server_name_accepted, Identifier, RoomId, ServerName, UserId};
use crate::keys::{
    ends_in_field, first_field_bytes, first_field_is_followed_by_the_separator, first_field_of,
    goes_on_as_text, pair_key, pair_key_bytes, pair_key_is_injective, second_field,
    single_key_bytes,
};
use crate::listing::{
    first_texts, ignore_err, in_text_order, is_listing, kept, listing_has_no_repeats, text_before,
    texts,
};
use crate::ord_map::OrdMap;
use crate::order::{before, before_is_one_way, begins_with, parts_at, place, starts_with, Place};
use crate::service::{Args, Service};
use crate::sets::intersection_sorted;
use crate::values::Table;
use std::sync::Arc;
use vstd::prelude::*;
use vstd::utf8::encode_utf8;

verus! {

/// The first byte in which two byte strings differ decides their order, the smaller byte
/// coming first; a byte string comes before all that continue it.
pub proof fn first_difference_decides(p: Seq<u8>, x: u8, y: u8, a: Seq<u8>, b: Seq<u8>)
    ensures
        x < y ==> before(p + seq![x] + a, p + seq![y] + b),
        x < y ==> !before(p + seq![y] + b, p + seq![x] + a),
        before(p, p + seq![x] + a),
        !before(p + seq![x] + a, p),
{
    let u = p + seq![x] + a;
    let v = p + seq![y] + b;
    assert(u[p.len() as int] == x && v[p.len() as int] == y);
    if x < y {
        assert(parts_at(u, v, p.len() as int));
        before_is_one_way(u, v);
    }
    assert(parts_at(p, u, p.len() as int));
    before_is_one_way(p, u);
}

/// Places are those in the dictionary order of bytes.
pub proof fn places_follow_the_first_difference(a: &[u8], b: &[u8], r: Place, i: int)
    requires
        call_ensures(place, (a, b), r),
        0 <= i <= a@.len(),
        i <= b@.len(),
        a@.take(i) == b@.take(i),
    ensures
        i < a@.len() && i < b@.len() && a@[i] < b@[i] ==> r == Place::Before,
        i < a@.len() && i < b@.len() && a@[i] > b@[i] ==> r == Place::After,
        i == a@.len() && i < b@.len() ==> r == Place::Before,
        i < a@.len() && i == b@.len() ==> r == Place::After,
        i == a@.len() && i == b@.len() ==> r == Place::Same,
{
    assert forall|j: int| 0 <= j < i implies a@[j] == b@[j] by {
        assert(a@.take(i)[j] == a@[j]);
        assert(b@.take(i)[j] == b@[j]);
    }
    if i < b@.len() && (i == a@.len() || a@[i] < b@[i]) {
        assert(parts_at(a@, b@, i));
    }
    if i < a@.len() && (i == b@.len() || a@[i] > b@[i]) {
        assert(parts_at(b@, a@, i));
    }
    if i == a@.len() && i == b@.len() {
        assert(a@ =~= b@);
    }
}

/// A byte string starts with another exactly if it is that one and something after it.
pub proof fn start_is_followed_by_the_rest(key: &[u8], p: &[u8], r: bool)
    requires
        call_ensures(starts_with, (key, p), r),
    ensures
        r <==> exists|rest: Seq<u8>| key@ == p@ + rest,
{
    if r {
        assert(key@ =~= p@ + key@.skip(p@.len() as int)) by {
            assert(key@.take(p@.len() as int) =~= p@);
        }
    }
    if exists|rest: Seq<u8>| key@ == p@ + rest {
        let rest = choose|rest: Seq<u8>| key@ == p@ + rest;
        assert(key@.take(p@.len() as int) =~= p@);
        assert(begins_with(key@, p@));
    }
}

/// The texts of identifiers are those of the identifiers, one by one.
pub proof fn texts_are_those_of_the_ids<T: View<V = Seq<char>>>(ids: Seq<T>)
    ensures
        texts(ids).len() == ids.len(),
        forall|i: int| 0 <= i < ids.len() ==> texts(ids)[i] == (#[trigger] ids[i])@,
{
}

/// The texts of rows are those of their identifiers, one by one.
pub proof fn first_texts_are_those_of_the_rows<T: View<V = Seq<char>>, X>(rows: Seq<(T, X)>)
    ensures
        first_texts(rows).len() == rows.len(),
        forall|i: int| 0 <= i < rows.len() ==> first_texts(rows)[i] == (#[trigger] rows[i]).0@,
{
}

/// In a list in order, the bytes of an earlier text agree with those of a later one up to
/// a byte that is smaller, or up to its end. So no text occurs twice.
pub proof fn lists_are_in_dictionary_order(list: Seq<Seq<char>>, i: int, j: int)
    requires
        in_text_order(list),
        0 <= i < j < list.len(),
    ensures
        list[i] != list[j],
        exists|k: int|
            0 <= k <= encode_utf8(list[i]).len() && k < encode_utf8(list[j]).len()
                && #[trigger] encode_utf8(list[i]).take(k) == encode_utf8(list[j]).take(k) && (k
                < encode_utf8(list[i]).len() ==> encode_utf8(list[i])[k] < encode_utf8(
                list[j],
            )[k]),
{
    listing_has_no_repeats(list);
    let a = encode_utf8(list[i]);
    let b = encode_utf8(list[j]);
    assert(text_before(list[i], list[j]));
    let k = choose|k: int| parts_at(a, b, k);
    assert(a.take(k) =~= b.take(k));
}

/// A listing holds what belongs in it and nothing else, each once, in dictionary order.
pub proof fn listing_holds_what_belongs(
    list: Seq<Seq<char>>,
    belongs: spec_fn(Seq<char>) -> bool,
    text: Seq<char>,
)
    requires
        is_listing(list, belongs),
    ensures
        list.contains(text) <==> belongs(text),
        list.no_duplicates(),
        in_text_order(list),
{
    listing_has_no_repeats(list);
}

/// What is kept are all successes: none is lost, none is added, and they stay in order.
pub proof fn all_successes_are_kept<T, E>(
    before: Vec<Result<T, E>>,
    item: Result<T, E>,
    after: Vec<Result<T, E>>,
    was: Vec<T>,
    now: Vec<T>,
)
    requires
        after@ == before@.push(item),
        call_ensures(ignore_err::<T, E>, (before,), was),
        call_ensures(ignore_err::<T, E>, (after,), now),
    ensures
        before@.len() == 0 ==> was@.len() == 0,
        match item {
            Ok(value) => now@ == was@.push(value),
            Err(_) => now@ == was@,
        },
{
    assert(after@.drop_last() =~= before@);
    assert(after@.last() == item);
    assert(kept(after@) == kept(before@.push(item)));
}

/// The rooms that two lists have in common are those on both.
pub proof fn common_rooms_are_on_both_lists(
    a: &Vec<RoomId>,
    b: &Vec<RoomId>,
    r: Vec<RoomId>,
    room: Seq<char>,
)
    requires
        call_ensures(intersection_sorted, (a, b), r),
    ensures
        in_text_order(texts(r@)),
        texts(r@).contains(room) <==> texts(a@).contains(room) && texts(b@).contains(room),
{
}

/// A key of one field is the bytes of the field.
pub proof fn single_key_is_the_field(field: &str, r: Vec<u8>)
    requires
        call_ensures(single_key_bytes, (field,), r),
    ensures
        r@ == encode_utf8(field@),
{
}

/// A key of two fields is the bytes of the first, the byte `0xFF` and the bytes of the
/// second; what keys with the same first field share is all of it up to that byte.
pub proof fn pair_key_is_the_two_fields(
    first: &str,
    second: &str,
    r: Vec<u8>,
    beginning: Vec<u8>,
)
    requires
        call_ensures(pair_key_bytes, (first, second), r),
        call_ensures(first_field_bytes, (first,), beginning),
    ensures
        r@ == encode_utf8(first@) + seq![0xFFu8] + encode_utf8(second@),
        beginning@ == encode_utf8(first@) + seq![0xFFu8],
{
    first_field_is_followed_by_the_separator(first@);
}

/// The fields of a key are read back as they were written.
pub proof fn fields_are_read_back(
    first: &str,
    second: &str,
    key: Vec<u8>,
    bytes: &[u8],
    beginning: Vec<u8>,
    start: &[u8],
    read_first: Option<&str>,
    read_second: Option<&str>,
)
    requires
        call_ensures(pair_key_bytes, (first, second), key),
        call_ensures(first_field_bytes, (first,), beginning),
        bytes@ == key@,
        start@ == beginning@,
        call_ensures(first_field_of, (bytes, second), read_first),
        call_ensures(second_field, (bytes, start), read_second),
    ensures
        read_first is Some && read_first->0@ == first@,
        read_second is Some && read_second->0@ == second@,
{
    first_field_is_followed_by_the_separator(first@);
    assert(bytes@ == pair_key(first@, second@));
    assert(bytes@ == start@ + encode_utf8(second@));
    assert(ends_in_field(bytes@, second@));
    assert(goes_on_as_text(bytes@, start@));
    if read_first is Some {
        pair_key_is_injective(first@, second@, read_first->0@, second@);
    }
    if read_second is Some {
        pair_key_is_injective(first@, second@, first@, read_second->0@);
        assert(bytes@ == pair_key(first@, read_second->0@));
    }
}

/// Parsing a user id keeps the text, and gives it back.
pub proof fn user_id_is_kept_as_text(
    text: &str,
    r: Result<UserId, Failure>,
    given: &str,
)
    requires
        call_ensures(<UserId as Identifier>::parse, (text,), r),
        r is Ok ==> call_ensures(UserId::as_str, (&r->Ok_0,), given),
    ensures
        r is Ok <==> UserId::accepted(text@),
        r is Ok ==> r->Ok_0@ == text@ && given@ == text@,
        r is Err ==> r->Err_0 == Failure::NotAnId,
{
}

/// A text is a user id exactly if it has at most 255 bytes, begins with `@` and has a
/// colon before which there is no other colon and no NUL, and after which there is the
/// name of a server.
pub proof fn user_ids_are_those_with_a_server(text: Seq<char>)
    ensures
        UserId::accepted(text) <==> encode_utf8(text).len() <= 255 && text.len() > 0 && text[0]
            == '@' && exists|colon: int|
            0 <= colon < text.len() && text[colon] == ':' && !(#[trigger] text.take(
                colon,
            )).contains(':') && !text.take(colon).contains('\0') && server_name_accepted(
                text.skip(colon + 1),
            ),
{
    if exists|colon: int| on_server_after(text, colon) {
        let colon = choose|colon: int| on_server_after(text, colon);
        assert(!text.take(colon).contains(':'));
    }
    if exists|colon: int|
        0 <= colon < text.len() && text[colon] == ':' && !(#[trigger] text.take(colon)).contains(
            ':',
        ) && !text.take(colon).contains('\0') && server_name_accepted(text.skip(colon + 1)) {
        let colon = choose|colon: int|
            0 <= colon < text.len() && text[colon] == ':' && !(#[trigger] text.take(
                colon,
            )).contains(':') && !text.take(colon).contains('\0') && server_name_accepted(
                text.skip(colon + 1),
            );
        assert(on_server_after(text, colon));
    }
}

/// Parsing a room id keeps the text, and gives it back. A text is a room id exactly if it
/// has at most 255 bytes, begins with `!` and holds no NUL.
pub proof fn room_id_is_kept_as_text(
    text: &str,
    r: Result<RoomId, Failure>,
    given: &str,
)
    requires
        call_ensures(<RoomId as Identifier>::parse, (text,), r),
        r is Ok ==> call_ensures(RoomId::as_str, (&r->Ok_0,), given),
    ensures
        r is Ok <==> encode_utf8(text@).len() <= 255 && text@.len() > 0 && text@[0] == '!'
            && !text@.contains('\0'),
        r is Ok ==> r->Ok_0@ == text@ && given@ == text@,
        r is Err ==> r->Err_0 == Failure::NotAnId,
        RoomId::accepted(text@) <==> r is Ok,
{
}

/// Parsing the name of a server keeps the text, and gives it back.
pub proof fn server_name_is_kept_as_text(
    text: &str,
    r: Result<ServerName, Failure>,
    given: &str,
)
    requires
        call_ensures(<ServerName as Identifier>::parse, (text,), r),
        r is Ok ==> call_ensures(ServerName::as_str, (&r->Ok_0,), given),
    ensures
        r is Ok <==> server_name_accepted(text@),
        r is Ok ==> r->Ok_0@ == text@ && given@ == text@,
        r is Err ==> r->Err_0 == Failure::NotAnId,
        ServerName::accepted(text@) <==> r is Ok,
{
}

/// A text that begins with `@` stands for the user with that id; any other stands for
/// the user with that localpart on the given server, unless it holds a colon or a NUL.
pub proof fn user_is_completed_with_the_server(
    id: &str,
    server: &ServerName,
    r: Result<UserId, Failure>,
)
    requires
        call_ensures(UserId::parse_with_server_name, (id, server), r),
    ensures
        id@.len() > 0 && id@[0] == '@' ==> (r is Ok <==> UserId::accepted(id@)) && (r is Ok
            ==> r->Ok_0@ == id@),
        !(id@.len() > 0 && id@[0] == '@') ==> (r is Ok <==> !id@.contains(':') && !id@.contains(
            '\0',
        )) && (r is Ok ==> r->Ok_0@ == seq!['@'] + id@ + seq![':'] + server@),
        r is Err ==> r->Err_0 == Failure::NotAnId,
{
}

/// A copy of an identifier is the same identifier.
pub proof fn copies_are_the_same(
    user: &UserId,
    room: &RoomId,
    server: &ServerName,
    user_copy: UserId,
    room_copy: RoomId,
    server_copy: ServerName,
)
    requires
        call_ensures(<UserId as Clone>::clone, (user,), user_copy),
        call_ensures(<RoomId as Clone>::clone, (room,), room_copy),
        call_ensures(<ServerName as Clone>::clone, (server,), server_copy),
    ensures
        user_copy@ == user@,
        room_copy@ == room@,
        server_copy@ == server@,
{
}

/// What is stored in a map under a key is found under that key; what is found under any
/// other key stays as it was.
pub proof fn stored_is_found<V>(
    map: &mut OrdMap<V>,
    key: Vec<u8>,
    value: V,
    was: &OrdMap<V>,
    now: &OrdMap<V>,
    other: &[u8],
    found_before: Option<&V>,
    found: Option<&V>,
    there: bool,
)
    requires
        call_ensures(OrdMap::<V>::insert, (map, key, value), ()),
        *was == *old(map),
        *now == *final(map),
        call_ensures(OrdMap::<V>::get, (was, other), found_before),
        call_ensures(OrdMap::<V>::get, (now, other), found),
        call_ensures(OrdMap::<V>::contains, (now, other), there),
    ensures
        other@ == key@ ==> found is Some && *found->0 == value,
        other@ != key@ ==> found == found_before,
        there <==> found is Some,
{
}

/// What is taken out of a map is what was found there, and is found no longer; what is
/// found under any other key stays as it was.
pub proof fn removed_is_not_found<V>(
    map: &mut OrdMap<V>,
    key: &[u8],
    taken: Option<V>,
    was: &OrdMap<V>,
    now: &OrdMap<V>,
    other: &[u8],
    found_before: Option<&V>,
    found: Option<&V>,
)
    requires
        call_ensures(OrdMap::<V>::remove, (map, key), taken),
        *was == *old(map),
        *now == *final(map),
        call_ensures(OrdMap::<V>::get, (was, other), found_before),
        call_ensures(OrdMap::<V>::get, (now, other), found),
    ensures
        other@ == key@ ==> found is None && (found_before is Some <==> taken is Some),
        other@ == key@ && taken is Some ==> taken->0 == *found_before->0,
        other@ != key@ ==> found == found_before,
{
}

/// A new map and one that was cleared hold nothing and count nothing.
pub proof fn empty_maps_hold_nothing<V>(
    map: &mut OrdMap<V>,
    cleared: &OrdMap<V>,
    fresh: OrdMap<V>,
    key: &[u8],
    found: Option<&V>,
    found_fresh: Option<&V>,
    count: usize,
    count_fresh: usize,
)
    requires
        call_ensures(OrdMap::<V>::clear, (map,), ()),
        *cleared == *final(map),
        call_ensures(OrdMap::<V>::new, (), fresh),
        call_ensures(OrdMap::<V>::get, (cleared, key), found),
        call_ensures(OrdMap::<V>::get, (&fresh, key), found_fresh),
        call_ensures(OrdMap::<V>::len, (cleared,), count),
        call_ensures(OrdMap::<V>::len, (&fresh,), count_fresh),
    ensures
        found is None,
        found_fresh is None,
        count == 0,
        count_fresh == 0,
{
}

/// A map counts its keys: storing under a new key adds one, storing under a key that is
/// there adds none. There is room for at least as many as are counted.
pub proof fn keys_are_counted<V>(
    map: &mut OrdMap<V>,
    key: Vec<u8>,
    value: V,
    was: &OrdMap<V>,
    now: &OrdMap<V>,
    count_before: usize,
    count: usize,
    room: usize,
)
    requires
        call_ensures(OrdMap::<V>::insert, (map, key, value), ()),
        *was == *old(map),
        *now == *final(map),
        was@.dom().finite(),
        call_ensures(OrdMap::<V>::len, (was,), count_before),
        call_ensures(OrdMap::<V>::len, (now,), count),
        call_ensures(OrdMap::<V>::capacity, (now,), room),
    ensures
        count == count_before + (if was@.contains_key(key@) {
            0int
        } else {
            1int
        }),
        room >= count,
{
}

/// The positions that begin with a prefix hold, in order and without gaps, all the keys
/// of a map that begin with it, each with what is found under it.
pub proof fn range_holds_the_keys_with_the_prefix<V>(
    map: &OrdMap<V>,
    prefix: &[u8],
    range: (usize, usize),
    key: Seq<u8>,
)
    requires
        call_ensures(OrdMap::<V>::range, (map, prefix), range),
    ensures
        range.0 <= range.1 <= map.keys().len(),
        (exists|i: int| range.0 <= i < range.1 && #[trigger] map.keys()[i] == key)
            <==> map@.contains_key(key) && exists|rest: Seq<u8>| key == prefix@ + rest,
        forall|i: int, j: int|
            range.0 <= i < j < range.1 ==> before(#[trigger] map.keys()[i], #[trigger] map.keys()[j]),
{
    let keys = map.keys();
    if exists|i: int| range.0 <= i < range.1 && #[trigger] keys[i] == key {
        let i = choose|i: int| range.0 <= i < range.1 && #[trigger] keys[i] == key;
        assert(keys.contains(key));
        assert(begins_with(keys[i], prefix@));
        assert(key =~= prefix@ + key.skip(prefix@.len() as int)) by {
            assert(key.take(prefix@.len() as int) =~= prefix@);
        }
    }
    if map@.contains_key(key) && exists|rest: Seq<u8>| key == prefix@ + rest {
        let rest = choose|rest: Seq<u8>| key == prefix@ + rest;
        assert(key.take(prefix@.len() as int) =~= prefix@);
        assert(keys.contains(key));
        let i = choose|i: int| 0 <= i < keys.len() && keys[i] == key;
        assert(begins_with(keys[i], prefix@));
    }
}

/// An entry is a key of the map with what is found under it.
pub proof fn entry_is_a_key_with_its_value<V>(
    map: &OrdMap<V>,
    i: usize,
    entry: (&Vec<u8>, &V),
    key: &[u8],
    found: Option<&V>,
)
    requires
        i < map.keys().len(),
        call_ensures(OrdMap::<V>::entry, (map, i), entry),
        key@ == entry.0@,
        call_ensures(OrdMap::<V>::get, (map, key), found),
    ensures
        entry.0@ == map.keys()[i as int],
        found is Some && *found->0 == *entry.1,
{
}

/// A database opens under a name the table that was added last under that name, and has
/// no others.
pub proof fn added_table_is_opened(
    db: &mut Database,
    name: &str,
    table: Table,
    was: &Database,
    now: &Database,
    other: &str,
    opened_before: Arc<Table>,
    opened: Arc<Table>,
)
    requires
        call_ensures(Database::add, (db, name, table), ()),
        *was == *old(db),
        *now == *final(db),
        call_ensures(Database::open, (was, other), opened_before),
        call_ensures(Database::open, (now, other), opened),
    ensures
        other@ == name@ ==> *opened == table,
        other@ != name@ ==> opened == opened_before,
        now.has(other@) <==> other@ == name@ || was.has(other@),
{
}

/// A service reads each of its tables from the table of that name in the database it is
/// built on; it knows nothing of appservices yet.
pub proof fn service_reads_the_tables_of_its_database(args: Args, service: Service)
    requires
        call_ensures(Service::build, (args,), service),
    ensures
        service.server_name@ == args.server_name@,
        service.db.roomid_invitedcount == args.db.named("roomid_invitedcount"@),
        service.db.roomid_inviteviaservers == args.db.named("roomid_inviteviaservers"@),
        service.db.roomid_joinedcount == args.db.named("roomid_joinedcount"@),
        service.db.roomserverids == args.db.named("roomserverids"@),
        service.db.roomuserid_invitecount == args.db.named("roomuserid_invitecount"@),
        service.db.roomuserid_joined == args.db.named("roomuserid_joined"@),
        service.db.roomuserid_leftcount == args.db.named("roomuserid_leftcount"@),
        service.db.roomuserid_knockedcount == args.db.named("roomuserid_knockedcount"@),
        service.db.roomuseroncejoinedids == args.db.named("roomuseroncejoinedids"@),
        service.db.serverroomids == args.db.named("serverroomids"@),
        service.db.userroomid_invitestate == args.db.named("userroomid_invitestate"@),
        service.db.userroomid_joined == args.db.named("userroomid_joined"@),
        service.db.userroomid_leftstate == args.db.named("userroomid_leftstate"@),
        service.db.userroomid_knockedstate == args.db.named("userroomid_knockedstate"@),
        service.db.userroomid_invitesender == args.db.named("userroomid_invitesender"@),
        service.appservice_in_room_cache@.dom() == Set::<Seq<u8>>::empty(),
{
    assert(service.appservice_in_room_cache@.dom() =~= Set::<Seq<u8>>::empty());
}

} // verus!
