use std::cell::Cell;

use state_cache::appservice::{Registration, RegistrationInfo};
use state_cache::database::Database;
use state_cache::failure::Failure;
use state_cache::ids::{Identifier, RoomId, ServerName, UserId};
use state_cache::keys::{first_field_bytes, pair_key_bytes, single_key_bytes};
use state_cache::listing::ignore_err;
use state_cache::membership::membership_of;
use state_cache::membership::MembershipState::{Ban, Invite, Join, Knock, Leave};
use state_cache::ord_map::OrdMap;
use state_cache::order::{place, starts_with, Place};
use state_cache::service::{Args, Service};
use state_cache::sets::intersection_sorted;
use state_cache::values::{read_stripped_state, Table};

const TABLES: [&str; 15] = [
    "roomid_invitedcount",
    "roomid_inviteviaservers",
    "roomid_joinedcount",
    "roomserverids",
    "roomuserid_invitecount",
    "roomuserid_joined",
    "roomuserid_leftcount",
    "roomuserid_knockedcount",
    "roomuseroncejoinedids",
    "serverroomids",
    "userroomid_invitestate",
    "userroomid_joined",
    "userroomid_leftstate",
    "userroomid_knockedstate",
    "userroomid_invitesender",
];

fn user(id: &str) -> UserId {
    UserId::parse(id).unwrap()
}

fn room(id: &str) -> RoomId {
    RoomId::parse(id).unwrap()
}

fn server(name: &str) -> ServerName {
    ServerName::parse(name).unwrap()
}

fn service(records: Vec<(&str, Vec<u8>, &[u8])>) -> Service {
    let mut db = Database::new();
    for name in TABLES {
        let mut table: Table = OrdMap::new();
        for (of, key, value) in &records {
            if *of == name {
                table.insert(key.clone(), value.to_vec());
            }
        }
        db.add(name, table);
    }
    Service::build(Args { server_name: server("example.org"), db })
}

fn pair(table: &'static str, first: &str, second: &str) -> (&'static str, Vec<u8>, &'static [u8]) {
    (table, pair_key_bytes(first, second), b"")
}

fn user_texts(users: &[UserId]) -> Vec<&str> {
    users.iter().map(|user| user.as_str()).collect()
}

fn room_texts(rooms: &[RoomId]) -> Vec<&str> {
    rooms.iter().map(|room| room.as_str()).collect()
}

const ALICE: &str = "@alice:example.org";
const BOB: &str = "@bob:example.org";
const CAROL: &str = "@carol:elsewhere.net";

#[test]
fn bytes_are_ordered_like_words() {
    assert_eq!(place(b"ab", b"abc"), Place::Before);
    assert_eq!(place(b"b", b"abc"), Place::After);
    assert_eq!(place(b"abc", b"abc"), Place::Same);
    assert_eq!(place(b"", b""), Place::Same);
    assert_eq!(place(b"a\xff", b"ab"), Place::After);
    assert!(starts_with(b"abc", b"ab"));
    assert!(!starts_with(b"ab", b"abc"));
    assert!(!starts_with(b"xbc", b"ab"));
}

#[test]
fn map_keeps_what_was_stored_last() {
    let mut map: OrdMap<u8> = OrdMap::new();
    map.insert(b"b".to_vec(), 1);
    map.insert(b"a".to_vec(), 2);
    map.insert(b"c".to_vec(), 3);
    map.insert(b"b".to_vec(), 4);
    assert_eq!(map.len(), 3);
    assert!(map.capacity() >= 3);
    assert_eq!(map.get(b"b"), Some(&4));
    assert_eq!(map.get(b"d"), None);
    assert_eq!(map.range(b""), (0, 3));
    assert_eq!(map.range(b"b"), (1, 2));
    assert_eq!(map.entry(0), (&b"a".to_vec(), &2));
    assert_eq!(map.remove(b"a"), Some(2));
    assert_eq!(map.remove(b"a"), None);
    assert!(!map.contains(b"a"));
    let capacity = map.capacity();
    map.clear();
    assert_eq!(map.len(), 0);
    assert_eq!(map.capacity(), capacity);
}

#[test]
fn identifiers_are_checked() {
    assert_eq!(user(ALICE).as_str(), ALICE);
    assert_eq!(UserId::parse("alice"), Err(Failure::NotAnId));
    assert_eq!(UserId::parse("@alice"), Err(Failure::NotAnId));
    assert_eq!(UserId::parse("alice:example.org"), Err(Failure::NotAnId));
    assert_eq!(UserId::parse("@al\0ice:example.org"), Err(Failure::NotAnId));
    assert_eq!(UserId::parse("@alice:no such name"), Err(Failure::NotAnId));
    assert_eq!(user("@alice:example.org:8448").as_str(), "@alice:example.org:8448");
    assert_eq!(user("@:example.org").as_str(), "@:example.org");
    assert!(UserId::parse(&format!("@{}:y.z", "a".repeat(250))).is_ok());
    assert_eq!(UserId::parse(&format!("@{}:y.z", "a".repeat(251))), Err(Failure::NotAnId));
    assert_eq!(room("!room:example.org").as_str(), "!room:example.org");
    assert_eq!(room("!hash").as_str(), "!hash");
    assert_eq!(RoomId::parse("#room:example.org"), Err(Failure::NotAnId));
    assert_eq!(RoomId::parse(""), Err(Failure::NotAnId));
    assert_eq!(RoomId::parse("!a\0"), Err(Failure::NotAnId));
    assert!(RoomId::parse(&format!("!{}", "a".repeat(254))).is_ok());
    assert_eq!(RoomId::parse(&format!("!{}", "a".repeat(255))), Err(Failure::NotAnId));
    assert_eq!(server("example.org:8448").as_str(), "example.org:8448");
    assert_eq!(ServerName::parse("no such name"), Err(Failure::NotAnId));
}

#[test]
fn user_ids_are_completed() {
    let here = server("example.org");
    assert_eq!(UserId::parse_with_server_name("bridge", &here).unwrap().as_str(), "@bridge:example.org");
    assert_eq!(UserId::parse_with_server_name(CAROL, &here).unwrap().as_str(), CAROL);
    assert_eq!(UserId::parse_with_server_name("a:b", &here), Err(Failure::NotAnId));
    assert_eq!(UserId::parse_with_server_name("a\0", &here), Err(Failure::NotAnId));
    assert_eq!(UserId::parse_with_server_name("@a", &here), Err(Failure::NotAnId));
    assert_eq!(UserId::parse_with_server_name("", &here).unwrap().as_str(), "@:example.org");
    let long = "a".repeat(300);
    let completed = UserId::parse_with_server_name(&long, &here).unwrap();
    assert_eq!(completed.as_str(), format!("@{}:example.org", long));
}

#[test]
fn keys_join_their_fields_with_a_separator() {
    assert_eq!(single_key_bytes("ab"), b"ab".to_vec());
    assert_eq!(first_field_bytes("ab"), b"ab\xff".to_vec());
    assert_eq!(pair_key_bytes("ab", "c"), b"ab\xffc".to_vec());
    assert_ne!(pair_key_bytes("ab", "c"), pair_key_bytes("a", "bc"));
}

#[test]
fn failures_are_dropped_and_order_is_kept() {
    let items: Vec<Result<u8, &str>> = vec![Ok(1), Err("no"), Ok(2), Err("no"), Ok(3)];
    assert_eq!(ignore_err(items), vec![1, 2, 3]);
    assert_eq!(ignore_err::<u8, ()>(vec![]), Vec::<u8>::new());
    assert_eq!(ignore_err::<u8, ()>(vec![Err(())]), Vec::<u8>::new());
}

#[test]
fn common_rooms_of_ordered_lists() {
    let a = vec![room("!a"), room("!c"), room("!d"), room("!f")];
    let b = vec![room("!b"), room("!c"), room("!e"), room("!f"), room("!g")];
    assert_eq!(room_texts(&intersection_sorted(&a, &b)), vec!["!c", "!f"]);
    assert_eq!(intersection_sorted(&a, &vec![]), vec![]);
}

#[test]
fn members_of_a_room_come_in_order() {
    let s = service(vec![
        pair("roomuserid_joined", "!r", BOB),
        pair("roomuserid_joined", "!r", ALICE),
        pair("roomuserid_joined", "!r2", CAROL),
        pair("roomuserid_joined", "!r", "not a user"),
        ("roomuserid_joined", b"!r\xff\xfe".to_vec(), b""),
        ("roomuserid_joined", b"!r\xff@x:y.z\xffmore".to_vec(), b""),
    ]);
    assert_eq!(user_texts(&s.room_members(&room("!r"))), vec![ALICE, BOB]);
    assert_eq!(user_texts(&s.room_members(&room("!r2"))), vec![CAROL]);
    assert!(s.room_members(&room("!r3")).is_empty());
}

#[test]
fn servers_and_their_rooms() {
    let s = service(vec![
        pair("roomserverids", "!r", "example.org"),
        pair("roomserverids", "!r", "elsewhere.net"),
        pair("roomserverids", "!r", "not a server"),
        pair("serverroomids", "elsewhere.net", "!r"),
        pair("serverroomids", "elsewhere.net", "!q"),
        pair("serverroomids", "elsewhere.net", "not a room"),
        pair("userroomid_joined", ALICE, "!q"),
    ]);
    let servers = s.room_servers(&room("!r"));
    assert_eq!(
        servers.iter().map(|server| server.as_str()).collect::<Vec<_>>(),
        vec!["elsewhere.net", "example.org"]
    );
    let elsewhere = server("elsewhere.net");
    assert_eq!(room_texts(&s.server_rooms(&elsewhere)), vec!["!q", "!r"]);
    assert!(s.server_in_room(&elsewhere, &room("!q")));
    assert!(!s.server_in_room(&server("example.org"), &room("!q")));
    assert!(s.server_sees_user(&elsewhere, &user(ALICE)));
    assert!(!s.server_sees_user(&elsewhere, &user(BOB)));
    assert!(!s.server_sees_user(&server("example.org"), &user(ALICE)));
}

#[test]
fn joined_rooms_are_those_of_this_very_user() {
    let s = service(vec![
        pair("userroomid_joined", "@a:example.co", "!b"),
        pair("userroomid_joined", "@a:example.co", "!a"),
        pair("userroomid_joined", "@a:example.com", "!c"),
        pair("userroomid_joined", "@a:example.co", "no room"),
    ]);
    let a = user("@a:example.co");
    assert_eq!(room_texts(&s.rooms_joined(&a)), vec!["!a", "!b"]);
    assert_eq!(room_texts(&s.rooms_joined(&user("@a:example.com"))), vec!["!c"]);
    assert!(s.is_joined(&a, &room("!a")));
    assert!(!s.is_joined(&a, &room("!c")));
    assert!(!s.user_sees_user(&a, &user("@a:example.com")));
}

#[test]
fn shared_rooms_are_mutual_and_exact() {
    let s = service(vec![
        pair("userroomid_joined", ALICE, "!a"),
        pair("userroomid_joined", ALICE, "!b"),
        pair("userroomid_joined", ALICE, "!d"),
        pair("userroomid_joined", BOB, "!b"),
        pair("userroomid_joined", BOB, "!c"),
        pair("userroomid_joined", BOB, "!d"),
        pair("userroomid_joined", CAROL, "!c"),
    ]);
    let (alice, bob, carol) = (user(ALICE), user(BOB), user(CAROL));
    assert_eq!(room_texts(&s.get_shared_rooms(&alice, &bob)), vec!["!b", "!d"]);
    assert_eq!(s.get_shared_rooms(&alice, &bob), s.get_shared_rooms(&bob, &alice));
    assert_eq!(s.get_shared_rooms(&alice, &alice), s.rooms_joined(&alice));
    assert!(s.user_sees_user(&alice, &bob));
    assert!(s.user_sees_user(&bob, &alice));
    assert!(!s.user_sees_user(&alice, &carol));
    assert!(!s.user_sees_user(&carol, &alice));
}

#[test]
fn local_and_active_users() {
    let s = service(vec![
        pair("roomuserid_joined", "!r", ALICE),
        pair("roomuserid_joined", "!r", BOB),
        pair("roomuserid_joined", "!r", CAROL),
    ]);
    let local = |user: &UserId| user.as_str().ends_with(":example.org");
    let active = |user: &UserId| user.as_str() != ALICE;
    assert_eq!(user_texts(&s.local_users_in_room(&room("!r"), local)), vec![ALICE, BOB]);
    assert_eq!(
        user_texts(&s.active_local_users_in_room(&room("!r"), local, active)),
        vec![BOB]
    );
    assert!(s.local_users_in_room(&room("!q"), local).is_empty());
}

#[test]
fn counts_are_eight_bytes() {
    let s = service(vec![
        ("roomid_joinedcount", b"!r".to_vec(), &[0, 0, 0, 0, 0, 0, 1, 2]),
        ("roomid_joinedcount", b"!short".to_vec(), &[1, 2, 3, 4, 5, 6, 7]),
        ("roomid_joinedcount", b"!long".to_vec(), &[0, 0, 0, 0, 0, 0, 0, 9, 1]),
        ("roomid_invitedcount", b"!r".to_vec(), &[255, 255, 255, 255, 255, 255, 255, 255]),
        ("roomuserid_invitecount", pair_key_bytes("!r", ALICE), &[0, 0, 0, 0, 0, 0, 0, 7]),
        ("roomuserid_knockedcount", pair_key_bytes("!r", BOB), &[0, 0, 0, 0, 0, 0, 0, 8]),
        ("roomuserid_leftcount", pair_key_bytes("!r", CAROL), &[0, 0, 0, 0, 0, 0, 0, 9]),
    ]);
    let r = room("!r");
    assert_eq!(s.room_joined_count(&r), Ok(258));
    assert_eq!(s.room_joined_count(&room("!short")), Err(Failure::NotACount));
    assert_eq!(s.room_joined_count(&room("!long")), Ok(9));
    assert_eq!(s.room_joined_count(&room("!none")), Err(Failure::NotFound));
    assert_eq!(s.room_invited_count(&r), Ok(u64::MAX));
    assert_eq!(s.room_invited_count(&room("!none")), Err(Failure::NotFound));
    assert_eq!(s.get_invite_count(&r, &user(ALICE)), Ok(7));
    assert_eq!(s.get_invite_count(&r, &user(BOB)), Err(Failure::NotFound));
    assert_eq!(s.get_knock_count(&r, &user(BOB)), Ok(8));
    assert_eq!(s.get_knock_count(&r, &user(ALICE)), Err(Failure::NotFound));
    assert_eq!(s.get_left_count(&r, &user(CAROL)), Ok(9));
    assert_eq!(s.get_left_count(&r, &user(ALICE)), Err(Failure::NotFound));
    assert_eq!(user_texts(&s.room_members_invited(&r)), vec![ALICE]);
    assert_eq!(user_texts(&s.room_members_knocked(&r)), vec![BOB]);
}

#[test]
fn states_are_read_as_lists_of_events() {
    let s = service(vec![
        ("userroomid_invitestate", pair_key_bytes(ALICE, "!a"), b"[ {\"x\": 1}, 2 ]"),
        ("userroomid_invitestate", pair_key_bytes(ALICE, "!b"), b"{}"),
        ("userroomid_invitestate", pair_key_bytes(ALICE, "!c"), b"[]"),
        ("userroomid_invitestate", pair_key_bytes(ALICE, "no room"), b"[]"),
        ("userroomid_knockedstate", pair_key_bytes(ALICE, "!k"), b"[true]"),
    ]);
    let alice = user(ALICE);
    let events = vec!["{\"x\": 1}".to_owned(), "2".to_owned()];
    assert_eq!(
        s.rooms_invited(&alice),
        vec![(room("!a"), events.clone()), (room("!c"), vec![])]
    );
    assert_eq!(s.rooms_knocked(&alice), vec![(room("!k"), vec!["true".to_owned()])]);
    assert_eq!(s.invite_state(&alice, &room("!a")), Ok(events));
    assert_eq!(s.invite_state(&alice, &room("!b")), Err(Failure::Json));
    assert_eq!(s.invite_state(&alice, &room("!k")), Err(Failure::NotFound));
    assert_eq!(s.knock_state(&alice, &room("!k")), Ok(vec!["true".to_owned()]));
    assert_eq!(s.knock_state(&alice, &room("!a")), Err(Failure::NotFound));
    assert!(s.is_invited(&alice, &room("!b")));
    assert!(s.is_knocked(&alice, &room("!k")));
    assert!(!s.is_knocked(&alice, &room("!a")));
    assert_eq!(read_stripped_state(&b"[\"\xff\"]".to_vec()), Err(Failure::Json));
}

fn decode(bytes: &Vec<u8>) -> Result<Option<u8>, ()> {
    match bytes.as_slice() {
        b"null" => Ok(None),
        [n] => Ok(Some(*n)),
        _ => Err(()),
    }
}

#[test]
fn left_rooms_are_read_by_the_callers_decoder() {
    let s = service(vec![
        ("userroomid_leftstate", pair_key_bytes(ALICE, "!b"), b"null"),
        ("userroomid_leftstate", pair_key_bytes(ALICE, "!a"), b"\x05"),
        ("userroomid_leftstate", pair_key_bytes(ALICE, "!c"), b"junk"),
    ]);
    let alice = user(ALICE);
    assert_eq!(
        s.rooms_left(&alice, decode),
        vec![(room("!a"), Some(5)), (room("!b"), None)]
    );
    assert_eq!(s.left_state(&alice, &room("!a"), decode), Ok(Some(5)));
    assert_eq!(s.left_state(&alice, &room("!b"), decode), Ok(None));
    assert_eq!(s.left_state(&alice, &room("!c"), decode), Err(Failure::Undecodable));
    assert_eq!(s.left_state(&alice, &room("!d"), decode), Err(Failure::NotFound));
    assert!(s.is_left(&alice, &room("!c")));
    assert!(!s.is_left(&alice, &room("!d")));
}

#[test]
fn invite_senders_are_user_ids() {
    let s = service(vec![
        ("userroomid_invitesender", pair_key_bytes(ALICE, "!a"), BOB.as_bytes()),
        ("userroomid_invitesender", pair_key_bytes(ALICE, "!b"), b"bob"),
        ("userroomid_invitesender", pair_key_bytes(ALICE, "!c"), b"\xff"),
    ]);
    let alice = user(ALICE);
    assert_eq!(s.invite_sender(&alice, &room("!a")), Ok(user(BOB)));
    assert_eq!(s.invite_sender(&alice, &room("!b")), Err(Failure::NotAnId));
    assert_eq!(s.invite_sender(&alice, &room("!c")), Err(Failure::NotText));
    assert_eq!(s.invite_sender(&alice, &room("!d")), Err(Failure::NotFound));
}

#[test]
fn records_of_having_joined() {
    let s = service(vec![
        pair("roomuseroncejoinedids", BOB, "!r"),
        pair("roomuseroncejoinedids", ALICE, "!r"),
        pair("roomuseroncejoinedids", ALICE, "!a"),
        pair("roomuseroncejoinedids", "@a:example.com", "!r"),
        pair("roomuseroncejoinedids", "@a:example.co", "!r"),
        pair("roomuseroncejoinedids", CAROL, "!q!r"),
        pair("roomuseroncejoinedids", "!r", CAROL),
        pair("roomuseroncejoinedids", "not a user", "!r"),
        ("roomuseroncejoinedids", b"@x:y.z\xff@v:w.z\xff!r".to_vec(), b""),
        ("roomuseroncejoinedids", b"\xfe\xff!r".to_vec(), b""),
        ("roomuseroncejoinedids", b"!r".to_vec(), b""),
    ]);
    let r = room("!r");
    assert_eq!(
        user_texts(&s.room_useroncejoined(&r)),
        vec!["@a:example.co", "@a:example.com", ALICE, BOB]
    );
    for id in ["@a:example.co", "@a:example.com", ALICE, BOB, CAROL, "@x:y.z"] {
        let listed = s.room_useroncejoined(&r).contains(&user(id));
        assert_eq!(listed, s.once_joined(&user(id), &r));
    }
    assert!(s.once_joined(&user(ALICE), &room("!a")));
    assert!(!s.once_joined(&user(CAROL), &r));
    assert_eq!(user_texts(&s.room_useroncejoined(&room("!a"))), vec![ALICE]);
    assert_eq!(user_texts(&s.room_useroncejoined(&room("!q!r"))), vec![CAROL]);
    assert!(s.room_useroncejoined(&room("!none")).is_empty());
}

#[test]
fn membership_takes_the_first_record() {
    assert_eq!(membership_of(true, true, true, true, true), Some(Join));
    assert_eq!(membership_of(false, true, true, true, true), Some(Leave));
    assert_eq!(membership_of(false, false, true, true, true), Some(Knock));
    assert_eq!(membership_of(false, false, false, true, true), Some(Invite));
    assert_eq!(membership_of(false, false, false, false, true), Some(Ban));
    assert_eq!(membership_of(false, false, false, false, false), None);
}

#[test]
fn membership_of_a_user_in_a_room() {
    let s = service(vec![
        pair("userroomid_joined", ALICE, "!join"),
        pair("userroomid_leftstate", ALICE, "!join"),
        pair("userroomid_leftstate", ALICE, "!leave"),
        pair("roomuseroncejoinedids", ALICE, "!leave"),
        pair("userroomid_knockedstate", ALICE, "!knock"),
        pair("userroomid_invitestate", ALICE, "!knock"),
        pair("userroomid_invitestate", ALICE, "!invite"),
        pair("roomuseroncejoinedids", ALICE, "!ban"),
    ]);
    let alice = user(ALICE);
    assert_eq!(s.user_membership(&alice, &room("!join")), Some(Join));
    assert_eq!(s.user_membership(&alice, &room("!leave")), Some(Leave));
    assert_eq!(s.user_membership(&alice, &room("!knock")), Some(Knock));
    assert_eq!(s.user_membership(&alice, &room("!invite")), Some(Invite));
    assert_eq!(s.user_membership(&alice, &room("!ban")), Some(Ban));
    assert_eq!(s.user_membership(&alice, &room("!none")), None);
    assert_eq!(s.user_membership(&user(BOB), &room("!join")), None);
}

fn registration(id: &str, sender_localpart: &str) -> Registration {
    Registration { id: id.to_owned(), sender_localpart: sender_localpart.to_owned() }
}

#[test]
fn appservice_is_in_a_room_through_its_own_user_or_its_namespace() {
    let mut s = service(vec![
        pair("userroomid_joined", "@bridge:example.org", "!own"),
        pair("roomuserid_joined", "!puppet", ALICE),
        pair("roomuserid_joined", "!puppet", "@irc_bob:example.org"),
        pair("roomuserid_joined", "!neither", ALICE),
    ]);
    let appservice = RegistrationInfo {
        registration: registration("irc", "bridge"),
        users: |user: &str| user.starts_with("@irc_"),
        user_match: |_: &UserId| false,
    };
    assert!(s.appservice_in_room(&room("!own"), &appservice));
    assert!(s.appservice_in_room(&room("!puppet"), &appservice));
    assert!(!s.appservice_in_room(&room("!neither"), &appservice));
    assert_eq!(s.get_appservice_in_room_cache_usage().0, 3);
    assert!(s.bridge_in_room(&room("!neither"), &user(ALICE), &|user: &str| user == ALICE));
    assert!(!s.bridge_in_room(&room("!neither"), &user(ALICE), &|user: &str| user == BOB));
}

#[test]
fn answers_are_cached_until_cleared() {
    let mut s = service(vec![pair("roomuserid_joined", "!r", ALICE)]);
    let asked = Cell::new(0);
    let yes = Cell::new(true);
    let appservice = RegistrationInfo {
        registration: registration("irc", "bridge"),
        users: |_: &str| {
            asked.set(asked.get() + 1);
            yes.get()
        },
        user_match: |_: &UserId| false,
    };
    assert!(s.appservice_in_room(&room("!r"), &appservice));
    assert_eq!(asked.get(), 1);
    yes.set(false);
    assert!(s.appservice_in_room(&room("!r"), &appservice));
    assert_eq!(asked.get(), 1);
    let (rooms, capacity) = s.get_appservice_in_room_cache_usage();
    assert_eq!(rooms, 1);
    assert!(capacity >= 1);
    s.clear_appservice_in_room_cache();
    assert_eq!(s.get_appservice_in_room_cache_usage(), (0, capacity));
    assert!(!s.appservice_in_room(&room("!r"), &appservice));
    assert_eq!(asked.get(), 2);
}

#[test]
fn appservices_are_cached_apart() {
    let mut s = service(vec![pair("roomuserid_joined", "!r", ALICE)]);
    let irc = RegistrationInfo {
        registration: registration("irc", "bridge"),
        users: |_: &str| true,
        user_match: |_: &UserId| false,
    };
    let mail = RegistrationInfo {
        registration: registration("mail", "postman"),
        users: |_: &str| false,
        user_match: |_: &UserId| false,
    };
    assert!(s.appservice_in_room(&room("!r"), &irc));
    assert!(!s.appservice_in_room(&room("!r"), &mail));
    assert!(s.appservice_in_room(&room("!r"), &irc));
    assert_eq!(s.get_appservice_in_room_cache_usage().0, 1);
}

#[test]
fn appservice_without_a_user_is_in_no_room() {
    let mut s = service(vec![pair("roomuserid_joined", "!r", ALICE)]);
    let appservice = RegistrationInfo {
        registration: registration("irc", "not:a:localpart"),
        users: |_: &str| true,
        user_match: |_: &UserId| false,
    };
    assert!(!s.appservice_in_room(&room("!r"), &appservice));
    assert_eq!(s.get_appservice_in_room_cache_usage().0, 0);
}

#[test]
fn appservice_sees_its_own_users_and_those_it_meets() {
    let mut s = service(vec![
        pair("userroomid_joined", ALICE, "!a"),
        pair("userroomid_joined", ALICE, "!b"),
        pair("userroomid_joined", ALICE, "!c"),
        pair("userroomid_joined", BOB, "!a"),
        pair("roomuserid_joined", "!a", ALICE),
        pair("roomuserid_joined", "!b", "@irc_x:example.org"),
    ]);
    let appservice = RegistrationInfo {
        registration: registration("irc", "bridge"),
        users: |user: &str| user.starts_with("@irc_"),
        user_match: |user: &UserId| user.as_str() == CAROL,
    };
    assert!(s.appservice_sees_user(&user(CAROL), &appservice));
    assert_eq!(s.get_appservice_in_room_cache_usage().0, 0);
    assert!(s.appservice_sees_user(&user(ALICE), &appservice));
    assert_eq!(s.get_appservice_in_room_cache_usage().0, 2);
    assert!(!s.appservice_sees_user(&user(BOB), &appservice));
    assert!(!s.appservice_sees_user(&user("@nobody:example.org"), &appservice));
}

#[test]
fn stored_records_are_listed_and_removed_ones_are_not() {
    let mut table: Table = OrdMap::new();
    table.insert(pair_key_bytes("!r", BOB), vec![]);
    table.insert(pair_key_bytes("!r", ALICE), vec![]);
    table.insert(pair_key_bytes("!q", CAROL), vec![]);
    let list: fn(&Table, &str) -> Vec<UserId> = state_cache::listing::list_seconds;
    assert_eq!(user_texts(&list(&table, "!r")), vec![ALICE, BOB]);
    table.remove(&pair_key_bytes("!r", ALICE));
    assert_eq!(user_texts(&list(&table, "!r")), vec![BOB]);
    assert_eq!(user_texts(&list(&table, "!q")), vec![CAROL]);
}
