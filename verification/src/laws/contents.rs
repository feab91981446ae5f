//! What is read from the records: counts, state events and departures.

use crate::failure::Failure;
use crate::ids::{Identifier, RoomId, UserId};
use crate::keys::{first_field_is_followed_by_the_separator, pair_key};
use crate::listing::{first_texts, in_text_order, list_rows};
use crate::ord_map::OrdMap;
use crate::service::{decodes, lists_states, room_id_stored, stored_state, Service};
use crate::values::{
    big_endian, event_texts, read_count, read_stripped_state, read_user_id, stored_count,
    stripped_state_listed, Records, Table,
};
use vstd::prelude::*;
use vstd::utf8::{
    decode_utf8, decode_utf8_encode_utf8, encode_utf8, encode_utf8_decode_utf8,
    encode_utf8_valid_utf8, valid_utf8,
};

verus! {

/// The bytes of a number, most significant first, spell that number.
proof fn bytes_spell_their_number(bytes: Seq<u8>, n: u64)
    requires
        bytes.len() >= 8,
        forall|i: int|
            0 <= i < 8 ==> #[trigger] bytes[i] as u64 == (n >> ((56 - 8 * i) as u64)) & 0xff,
    ensures
        big_endian(bytes.take(8)) == n,
{
    let b = bytes;
    assert(b[0] as u64 == (n >> 56) & 0xff);
    assert(b[1] as u64 == (n >> 48) & 0xff);
    assert(b[2] as u64 == (n >> 40) & 0xff);
    assert(b[3] as u64 == (n >> 32) & 0xff);
    assert(b[4] as u64 == (n >> 24) & 0xff);
    assert(b[5] as u64 == (n >> 16) & 0xff);
    assert(b[6] as u64 == (n >> 8) & 0xff);
    assert(b[7] as u64 == (n >> 0) & 0xff);
    assert(n >> 56 == (n >> 56) & 0xff) by (bit_vector);
    assert(n >> 48 == (n >> 56) * 256 + ((n >> 48) & 0xff)) by (bit_vector);
    assert(n >> 40 == (n >> 48) * 256 + ((n >> 40) & 0xff)) by (bit_vector);
    assert(n >> 32 == (n >> 40) * 256 + ((n >> 32) & 0xff)) by (bit_vector);
    assert(n >> 24 == (n >> 32) * 256 + ((n >> 24) & 0xff)) by (bit_vector);
    assert(n >> 16 == (n >> 24) * 256 + ((n >> 16) & 0xff)) by (bit_vector);
    assert(n >> 8 == (n >> 16) * 256 + ((n >> 8) & 0xff)) by (bit_vector);
    assert(n == (n >> 8) * 256 + ((n >> 0) & 0xff)) by (bit_vector);
    assert(b.take(0) =~= Seq::<u8>::empty());
    assert(b.take(1).drop_last() =~= b.take(0));
    assert(b.take(2).drop_last() =~= b.take(1));
    assert(b.take(3).drop_last() =~= b.take(2));
    assert(b.take(4).drop_last() =~= b.take(3));
    assert(b.take(5).drop_last() =~= b.take(4));
    assert(b.take(6).drop_last() =~= b.take(5));
    assert(b.take(7).drop_last() =~= b.take(6));
    assert(b.take(8).drop_last() =~= b.take(7));
    assert(big_endian(b.take(0)) == 0);
    assert(big_endian(b.take(1)) == n >> 56);
    assert(big_endian(b.take(2)) == n >> 48);
    assert(big_endian(b.take(3)) == n >> 40);
    assert(big_endian(b.take(4)) == n >> 32);
    assert(big_endian(b.take(5)) == n >> 24);
    assert(big_endian(b.take(6)) == n >> 16);
    assert(big_endian(b.take(7)) == n >> 8);
}

/// A count is read back: where the first eight stored bytes are those of a number, most
/// significant first, that number is the count. Fewer bytes are no count, and where
/// nothing is stored none is found.
pub proof fn count_is_read_back(table: &Table, key: &[u8], n: u64, r: Result<u64, Failure>)
    requires
        call_ensures(read_count, (table, key), r),
    ensures
        !table@.contains_key(key@) <==> r == Err::<u64, Failure>(Failure::NotFound),
        table@.contains_key(key@) && table@[key@]@.len() < 8 <==> r == Err::<u64, Failure>(
            Failure::NotACount,
        ),
        table@.contains_key(key@) && table@[key@]@.len() >= 8 && (forall|i: int|
            0 <= i < 8 ==> #[trigger] table@[key@]@[i] as u64 == (n >> ((56 - 8 * i) as u64))
                & 0xff) ==> r == Ok::<u64, Failure>(n),
{
    count_under_key_is_read_back(table@, key@, n);
}

proof fn count_under_key_is_read_back(table: Records, key: Seq<u8>, n: u64)
    ensures
        table.contains_key(key) && table[key]@.len() >= 8 && (forall|i: int|
            0 <= i < 8 ==> #[trigger] table[key]@[i] as u64 == (n >> ((56 - 8 * i) as u64)) & 0xff)
            ==> stored_count(table, key) == Ok::<u64, Failure>(n),
{
    if table.contains_key(key) && table[key]@.len() >= 8 && (forall|i: int|
        0 <= i < 8 ==> #[trigger] table[key]@[i] as u64 == (n >> ((56 - 8 * i) as u64)) & 0xff) {
        bytes_spell_their_number(table[key]@, n);
    }
}

/// The number of joined users is the count stored under the full id of the room in
/// `roomid_joinedcount`.
pub proof fn joined_count_is_the_one_stored(
    service: &Service,
    room: &RoomId,
    key: Seq<u8>,
    n: u64,
    r: Result<u64, Failure>,
)
    requires
        call_ensures(Service::room_joined_count, (service, room), r),
        key == encode_utf8(room@),
    ensures
        !service.db.roomid_joinedcount@.contains_key(key) <==> r == Err::<u64, Failure>(
            Failure::NotFound,
        ),
        service.db.roomid_joinedcount@.contains_key(key) && service.db.roomid_joinedcount@[key]@.len()
            < 8 <==> r == Err::<u64, Failure>(Failure::NotACount),
        service.db.roomid_joinedcount@.contains_key(key) && service.db.roomid_joinedcount@[key]@.len()
            >= 8 && (forall|i: int|
            0 <= i < 8 ==> #[trigger] service.db.roomid_joinedcount@[key]@[i] as u64 == (n >> ((56
                - 8 * i) as u64)) & 0xff) ==> r == Ok::<u64, Failure>(n),
{
    count_under_key_is_read_back(service.db.roomid_joinedcount@, key, n);
}

/// The number of invited users is the count stored under the full id of the room in
/// `roomid_invitedcount`.
pub proof fn invited_count_is_the_one_stored(
    service: &Service,
    room: &RoomId,
    key: Seq<u8>,
    n: u64,
    r: Result<u64, Failure>,
)
    requires
        call_ensures(Service::room_invited_count, (service, room), r),
        key == encode_utf8(room@),
    ensures
        !service.db.roomid_invitedcount@.contains_key(key) <==> r == Err::<u64, Failure>(
            Failure::NotFound,
        ),
        service.db.roomid_invitedcount@.contains_key(key) && service.db.roomid_invitedcount@[key]@.len()
            < 8 <==> r == Err::<u64, Failure>(Failure::NotACount),
        service.db.roomid_invitedcount@.contains_key(key) && service.db.roomid_invitedcount@[key]@.len()
            >= 8 && (forall|i: int|
            0 <= i < 8 ==> #[trigger] service.db.roomid_invitedcount@[key]@[i] as u64 == (n >> ((56
                - 8 * i) as u64)) & 0xff) ==> r == Ok::<u64, Failure>(n),
{
    count_under_key_is_read_back(service.db.roomid_invitedcount@, key, n);
}

/// The count of an invitation is the one stored under the room and the user in
/// `roomuserid_invitecount`.
pub proof fn invite_count_is_the_one_stored(
    service: &Service,
    room: &RoomId,
    user: &UserId,
    key: Seq<u8>,
    n: u64,
    r: Result<u64, Failure>,
)
    requires
        call_ensures(Service::get_invite_count, (service, room, user), r),
        key == encode_utf8(room@) + seq![0xFFu8] + encode_utf8(user@),
    ensures
        !service.db.roomuserid_invitecount@.contains_key(key) <==> r == Err::<u64, Failure>(
            Failure::NotFound,
        ),
        service.db.roomuserid_invitecount@.contains_key(key) && service.db.roomuserid_invitecount@[key]@.len()
            < 8 <==> r == Err::<u64, Failure>(Failure::NotACount),
        service.db.roomuserid_invitecount@.contains_key(key) && service.db.roomuserid_invitecount@[key]@.len()
            >= 8 && (forall|i: int|
            0 <= i < 8 ==> #[trigger] service.db.roomuserid_invitecount@[key]@[i] as u64 == (n >> ((56
                - 8 * i) as u64)) & 0xff) ==> r == Ok::<u64, Failure>(n),
{
    first_field_is_followed_by_the_separator(room@);
    count_under_key_is_read_back(service.db.roomuserid_invitecount@, key, n);
}

/// The count of a knock is the one stored under the room and the user in
/// `roomuserid_knockedcount`.
pub proof fn knock_count_is_the_one_stored(
    service: &Service,
    room: &RoomId,
    user: &UserId,
    key: Seq<u8>,
    n: u64,
    r: Result<u64, Failure>,
)
    requires
        call_ensures(Service::get_knock_count, (service, room, user), r),
        key == encode_utf8(room@) + seq![0xFFu8] + encode_utf8(user@),
    ensures
        !service.db.roomuserid_knockedcount@.contains_key(key) <==> r == Err::<u64, Failure>(
            Failure::NotFound,
        ),
        service.db.roomuserid_knockedcount@.contains_key(key) && service.db.roomuserid_knockedcount@[key]@.len()
            < 8 <==> r == Err::<u64, Failure>(Failure::NotACount),
        service.db.roomuserid_knockedcount@.contains_key(key) && service.db.roomuserid_knockedcount@[key]@.len()
            >= 8 && (forall|i: int|
            0 <= i < 8 ==> #[trigger] service.db.roomuserid_knockedcount@[key]@[i] as u64 == (n >> ((56
                - 8 * i) as u64)) & 0xff) ==> r == Ok::<u64, Failure>(n),
{
    first_field_is_followed_by_the_separator(room@);
    count_under_key_is_read_back(service.db.roomuserid_knockedcount@, key, n);
}

/// The count of a departure is the one stored under the room and the user in
/// `roomuserid_leftcount`.
pub proof fn left_count_is_the_one_stored(
    service: &Service,
    room: &RoomId,
    user: &UserId,
    key: Seq<u8>,
    n: u64,
    r: Result<u64, Failure>,
)
    requires
        call_ensures(Service::get_left_count, (service, room, user), r),
        key == encode_utf8(room@) + seq![0xFFu8] + encode_utf8(user@),
    ensures
        !service.db.roomuserid_leftcount@.contains_key(key) <==> r == Err::<u64, Failure>(
            Failure::NotFound,
        ),
        service.db.roomuserid_leftcount@.contains_key(key) && service.db.roomuserid_leftcount@[key]@.len()
            < 8 <==> r == Err::<u64, Failure>(Failure::NotACount),
        service.db.roomuserid_leftcount@.contains_key(key) && service.db.roomuserid_leftcount@[key]@.len()
            >= 8 && (forall|i: int|
            0 <= i < 8 ==> #[trigger] service.db.roomuserid_leftcount@[key]@[i] as u64 == (n >> ((56
                - 8 * i) as u64)) & 0xff) ==> r == Ok::<u64, Failure>(n),
{
    first_field_is_followed_by_the_separator(room@);
    count_under_key_is_read_back(service.db.roomuserid_leftcount@, key, n);
}

/// A stored user id is read back: where the stored bytes are those of a user id, that
/// user is read; each failure says what is wrong with the record.
pub proof fn user_id_is_read_back(
    table: &Table,
    key: &[u8],
    id: Seq<char>,
    r: Result<UserId, Failure>,
)
    requires
        call_ensures(read_user_id, (table, key), r),
    ensures
        r == Err::<UserId, Failure>(Failure::NotFound) <==> !table@.contains_key(key@),
        table@.contains_key(key@) && table@[key@]@ == encode_utf8(id) ==> (if UserId::accepted(
            id,
        ) {
            r is Ok && r->Ok_0@ == id
        } else {
            r == Err::<UserId, Failure>(Failure::NotAnId)
        }),
        table@.contains_key(key@) && (forall|text: Seq<char>|
            table@[key@]@ != #[trigger] encode_utf8(text)) ==> r == Err::<UserId, Failure>(
            Failure::NotText,
        ),
{
    if table@.contains_key(key@) {
        let bytes = table@[key@]@;
        encode_utf8_valid_utf8(id);
        encode_utf8_decode_utf8(id);
        if valid_utf8(bytes) {
            decode_utf8_encode_utf8(bytes);
            assert(bytes == encode_utf8(decode_utf8(bytes)));
        }
    }
}

/// Reading a list of state events gives all events that the JSON lists, in order, each as
/// its text; bytes that are no such list are refused.
pub proof fn all_listed_events_are_read(json: &Vec<u8>, r: Result<Vec<String>, Failure>)
    requires
        call_ensures(read_stripped_state, (json,), r),
    ensures
        match stripped_state_listed(json@) {
            Some(events) => r is Ok && r->Ok_0@.len() == events.len() && forall|i: int|
                0 <= i < events.len() ==> (#[trigger] r->Ok_0@[i])@ == events[i],
            None => r == Err::<Vec<String>, Failure>(Failure::Json),
        },
{
    if r is Ok {
        events_are_those_of_the_texts(r->Ok_0@);
    }
}

/// The texts of a list of events are those of the events, one by one.
pub proof fn events_are_those_of_the_texts(events: Seq<String>)
    ensures
        event_texts(events).len() == events.len(),
        forall|i: int| 0 <= i < events.len() ==> event_texts(events)[i] == (#[trigger] events[i])@,
{
}

/// The state events of an invitation are all those that are stored under the user and
/// the room in `userroomid_invitestate`, in order.
pub proof fn invite_state_is_the_one_stored(
    service: &Service,
    user: &UserId,
    room: &RoomId,
    key: Seq<u8>,
    r: Result<Vec<String>, Failure>,
)
    requires
        call_ensures(Service::invite_state, (service, user, room), r),
        key == encode_utf8(user@) + seq![0xFFu8] + encode_utf8(room@),
    ensures
        !service.db.userroomid_invitestate@.contains_key(key) <==> r == Err::<
            Vec<String>,
            Failure,
        >(Failure::NotFound),
        service.db.userroomid_invitestate@.contains_key(key) ==> match stripped_state_listed(
            service.db.userroomid_invitestate@[key]@,
        ) {
            Some(events) => r is Ok && r->Ok_0@.len() == events.len() && forall|i: int|
                0 <= i < events.len() ==> (#[trigger] r->Ok_0@[i])@ == events[i],
            None => r == Err::<Vec<String>, Failure>(Failure::Json),
        },
{
    first_field_is_followed_by_the_separator(user@);
    if r is Ok {
        events_are_those_of_the_texts(r->Ok_0@);
    }
}

/// The state events of a knock are all those that are stored under the user and the room
/// in `userroomid_knockedstate`, in order.
pub proof fn knock_state_is_the_one_stored(
    service: &Service,
    user: &UserId,
    room: &RoomId,
    key: Seq<u8>,
    r: Result<Vec<String>, Failure>,
)
    requires
        call_ensures(Service::knock_state, (service, user, room), r),
        key == encode_utf8(user@) + seq![0xFFu8] + encode_utf8(room@),
    ensures
        !service.db.userroomid_knockedstate@.contains_key(key) <==> r == Err::<
            Vec<String>,
            Failure,
        >(Failure::NotFound),
        service.db.userroomid_knockedstate@.contains_key(key) ==> match stripped_state_listed(
            service.db.userroomid_knockedstate@[key]@,
        ) {
            Some(events) => r is Ok && r->Ok_0@.len() == events.len() && forall|i: int|
                0 <= i < events.len() ==> (#[trigger] r->Ok_0@[i])@ == events[i],
            None => r == Err::<Vec<String>, Failure>(Failure::Json),
        },
{
    first_field_is_followed_by_the_separator(user@);
    if r is Ok {
        events_are_those_of_the_texts(r->Ok_0@);
    }
}

proof fn rows_hold_all_events(
    table: Records,
    user: Seq<char>,
    rows: Seq<(RoomId, Vec<String>)>,
    room: Seq<char>,
)
    requires
        lists_states(table, user, rows),
    ensures
        in_text_order(first_texts(rows)),
        first_texts(rows).contains(room) <==> RoomId::accepted(room) && table.contains_key(
            encode_utf8(user) + seq![0xFFu8] + encode_utf8(room),
        ) && stripped_state_listed(
            table[encode_utf8(user) + seq![0xFFu8] + encode_utf8(room)]@,
        ) is Some,
        forall|i: int|
            0 <= i < rows.len() && (#[trigger] rows[i]).0@ == room ==> match stripped_state_listed(
                table[encode_utf8(user) + seq![0xFFu8] + encode_utf8(room)]@,
            ) {
                Some(events) => rows[i].1@.len() == events.len() && forall|j: int|
                    0 <= j < events.len() ==> (#[trigger] rows[i].1@[j])@ == events[j],
                None => false,
            },
{
    first_field_is_followed_by_the_separator(user);
    let key = encode_utf8(user) + seq![0xFFu8] + encode_utf8(room);
    assert(key == pair_key(user, room));
    assert(stored_state(table, key) is Ok <==> table.contains_key(key) && stripped_state_listed(
        table[key]@,
    ) is Some);
    assert(room_id_stored(table, user, room) <==> RoomId::accepted(room) && table.contains_key(
        key,
    ));
    assert forall|i: int|
        0 <= i < rows.len() && (#[trigger] rows[i]).0@ == room implies match stripped_state_listed(
            table[key]@,
        ) {
            Some(events) => rows[i].1@.len() == events.len() && forall|j: int|
                0 <= j < events.len() ==> (#[trigger] rows[i].1@[j])@ == events[j],
            None => false,
        } by {
        events_are_those_of_the_texts(rows[i].1@);
    }
}

/// A room is listed with an invitation exactly if `userroomid_invitestate` holds a list
/// of state events under the full id of the user and the room, and its row holds all
/// these events in order.
pub proof fn invitations_hold_all_stored_events(
    service: &Service,
    user: &UserId,
    rows: Vec<(RoomId, Vec<String>)>,
    room: Seq<char>,
    key: Seq<u8>,
)
    requires
        call_ensures(Service::rooms_invited, (service, user), rows),
        key == encode_utf8(user@) + seq![0xFFu8] + encode_utf8(room),
    ensures
        in_text_order(first_texts(rows@)),
        first_texts(rows@).contains(room) <==> RoomId::accepted(room)
            && service.db.userroomid_invitestate@.contains_key(key) && stripped_state_listed(
            service.db.userroomid_invitestate@[key]@,
        ) is Some,
        forall|i: int|
            0 <= i < rows@.len() && (#[trigger] rows@[i]).0@ == room
                ==> match stripped_state_listed(service.db.userroomid_invitestate@[key]@) {
                Some(events) => rows@[i].1@.len() == events.len() && forall|j: int|
                    0 <= j < events.len() ==> (#[trigger] rows@[i].1@[j])@ == events[j],
                None => false,
            },
{
    rows_hold_all_events(service.db.userroomid_invitestate@, user@, rows@, room);
}

/// A room is listed with a knock exactly if `userroomid_knockedstate` holds a list of
/// state events under the full id of the user and the room, and its row holds all these
/// events in order.
pub proof fn knocks_hold_all_stored_events(
    service: &Service,
    user: &UserId,
    rows: Vec<(RoomId, Vec<String>)>,
    room: Seq<char>,
    key: Seq<u8>,
)
    requires
        call_ensures(Service::rooms_knocked, (service, user), rows),
        key == encode_utf8(user@) + seq![0xFFu8] + encode_utf8(room),
    ensures
        in_text_order(first_texts(rows@)),
        first_texts(rows@).contains(room) <==> RoomId::accepted(room)
            && service.db.userroomid_knockedstate@.contains_key(key) && stripped_state_listed(
            service.db.userroomid_knockedstate@[key]@,
        ) is Some,
        forall|i: int|
            0 <= i < rows@.len() && (#[trigger] rows@[i]).0@ == room
                ==> match stripped_state_listed(service.db.userroomid_knockedstate@[key]@) {
                Some(events) => rows@[i].1@.len() == events.len() && forall|j: int|
                    0 <= j < events.len() ==> (#[trigger] rows@[i].1@[j])@ == events[j],
                None => false,
            },
{
    rows_hold_all_events(service.db.userroomid_knockedstate@, user@, rows@, room);
}

/// The event with which a user left a room is what the decoder makes of the bytes that
/// `userroomid_leftstate` holds under the user and the room, `decoded` being what it
/// makes of given bytes.
pub proof fn left_state_is_the_one_stored<P, E, F: Fn(&Vec<u8>) -> Result<Option<P>, E>>(
    service: &Service,
    user: &UserId,
    room: &RoomId,
    decode: F,
    decoded: spec_fn(Vec<u8>) -> Result<Option<P>, E>,
    key: Seq<u8>,
    r: Result<Option<P>, Failure>,
)
    requires
        forall|bytes: Vec<u8>, out: Result<Option<P>, E>| #[trigger]
            call_ensures(decode, (&bytes,), out) ==> out == decoded(bytes),
        call_ensures(Service::left_state::<P, E, F>, (service, user, room, decode), r),
        key == encode_utf8(user@) + seq![0xFFu8] + encode_utf8(room@),
    ensures
        !service.db.userroomid_leftstate@.contains_key(key) <==> r == Err::<Option<P>, Failure>(
            Failure::NotFound,
        ),
        service.db.userroomid_leftstate@.contains_key(key) ==> match decoded(
            service.db.userroomid_leftstate@[key],
        ) {
            Ok(event) => r == Ok::<Option<P>, Failure>(event),
            Err(_) => r == Err::<Option<P>, Failure>(Failure::Undecodable),
        },
{
    first_field_is_followed_by_the_separator(user@);
}

/// A room is listed as left exactly if `userroomid_leftstate` holds bytes under the full
/// id of the user and the room that the decoder reads, and its row holds what it makes of
/// them.
pub proof fn left_rooms_are_those_stored<P, E, F: Fn(&Vec<u8>) -> Result<Option<P>, E>>(
    service: &Service,
    user: &UserId,
    decode: F,
    decoded: spec_fn(Vec<u8>) -> Result<Option<P>, E>,
    rows: Vec<(RoomId, Option<P>)>,
    room: Seq<char>,
    key: Seq<u8>,
)
    requires
        forall|bytes: Vec<u8>, out: Result<Option<P>, E>| #[trigger]
            call_ensures(decode, (&bytes,), out) ==> out == decoded(bytes),
        call_ensures(Service::rooms_left::<P, E, F>, (service, user, decode), rows),
        key == encode_utf8(user@) + seq![0xFFu8] + encode_utf8(room),
    ensures
        in_text_order(first_texts(rows@)),
        first_texts(rows@).contains(room) <==> RoomId::accepted(room)
            && service.db.userroomid_leftstate@.contains_key(key) && decoded(
            service.db.userroomid_leftstate@[key],
        ) is Ok,
        forall|i: int|
            0 <= i < rows@.len() && (#[trigger] rows@[i]).0@ == room ==> decoded(
                service.db.userroomid_leftstate@[key],
            ) == Ok::<Option<P>, E>(rows@[i].1),
{
    first_field_is_followed_by_the_separator(user@);
    let table = service.db.userroomid_leftstate@;
    assert(key == pair_key(user@, room));
    let list = first_texts(rows@);
    assert(room_id_stored(table, user@, room) <==> RoomId::accepted(room) && table.contains_key(
        key,
    ));
    if list.contains(room) {
        let i = choose|i: int| 0 <= i < list.len() && list[i] == room;
        assert(rows@[i].0@ == room);
    } else if room_id_stored(table, user@, room) {
        assert(decodes::<P, E, F>(decode, table[key], Err(Failure::Undecodable)));
    }
}

/// What is listed with its records under a first field are the identifiers that the table
/// holds a key of, the field coming first in it, each with what is stored under that key.
pub proof fn rows_are_those_in_the_table<T: Identifier, V>(
    table: &OrdMap<V>,
    first: &str,
    rows: Vec<(T, &V)>,
    second: Seq<char>,
    key: Seq<u8>,
)
    requires
        call_ensures(list_rows::<T, V>, (table, first), rows),
        key == encode_utf8(first@) + seq![0xFFu8] + encode_utf8(second),
    ensures
        in_text_order(first_texts(rows@)),
        first_texts(rows@).contains(second) <==> T::accepted(second) && table@.contains_key(key),
        forall|i: int|
            0 <= i < rows@.len() && (#[trigger] rows@[i]).0@ == second ==> *rows@[i].1
                == table@[key],
{
    first_field_is_followed_by_the_separator(first@);
}

} // verus!
