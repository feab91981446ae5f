use std::collections::BTreeMap;

use ruma::events::presence::{PresenceEvent, PresenceEventContent};
use ruma::events::receipt::{Receipt, ReceiptEventContent, ReceiptType};
use ruma::presence::PresenceState;
use ruma::{OwnedEventId, OwnedRoomId, OwnedUserId};
use serde_json::Value;
use state_cache::appservice_ephemeral::{presence, receipt, serialize, typing, EphemeralData};

fn object(fields: Vec<(&str, Value)>) -> Value {
    Value::Object(fields.into_iter().map(|(name, value)| (name.to_owned(), value)).collect())
}

fn room_id() -> OwnedRoomId {
    OwnedRoomId::try_from("!room:example.org").unwrap()
}

fn alice() -> OwnedUserId {
    OwnedUserId::try_from("@alice:example.org").unwrap()
}

fn to_json_value(ephemeral: EphemeralData) -> Value {
    serde_json::from_slice(&serialize(&ephemeral).unwrap()).unwrap()
}

#[test]
fn typing_serializes_as_appservice_ephemeral() {
    let ephemeral = typing(room_id(), vec![alice()]);

    assert_eq!(
        to_json_value(ephemeral),
        object(vec![
            ("type", Value::from("m.typing")),
            ("room_id", Value::from("!room:example.org")),
            ("content", object(vec![("user_ids", Value::from(vec!["@alice:example.org"]))])),
        ])
    );
}

#[test]
fn receipt_serializes_as_appservice_ephemeral() {
    let content = ReceiptEventContent(BTreeMap::from([(
        OwnedEventId::try_from("$event:example.org").unwrap(),
        BTreeMap::from([(ReceiptType::Read, BTreeMap::from([(alice(), Receipt::default())]))]),
    )]));
    let ephemeral = receipt(content, room_id());

    assert_eq!(
        to_json_value(ephemeral),
        object(vec![
            ("type", Value::from("m.receipt")),
            ("room_id", Value::from("!room:example.org")),
            (
                "content",
                object(vec![(
                    "$event:example.org",
                    object(vec![("m.read", object(vec![("@alice:example.org", object(vec![]))]))]),
                )])
            ),
        ])
    );
}

#[test]
fn presence_serializes_as_appservice_ephemeral() {
    let mut content = PresenceEventContent::new(PresenceState::Online);
    content.avatar_url = None;
    content.currently_active = Some(true);
    content.displayname = None;
    content.last_active_ago = None;
    content.status_msg = Some("available".to_owned());
    let ephemeral = presence(PresenceEvent { content, sender: alice() });

    assert_eq!(
        to_json_value(ephemeral),
        object(vec![
            ("type", Value::from("m.presence")),
            ("sender", Value::from("@alice:example.org")),
            (
                "content",
                object(vec![
                    ("currently_active", Value::from(true)),
                    ("presence", Value::from("online")),
                    ("status_msg", Value::from("available")),
                ])
            ),
        ])
    );
}

#[test]
fn serialize_returns_appservice_event_bytes() {
    let bytes = serialize(&typing(room_id(), vec![alice()])).unwrap();

    assert_eq!(
        serde_json::from_slice::<Value>(&bytes).unwrap(),
        object(vec![
            ("type", Value::from("m.typing")),
            ("room_id", Value::from("!room:example.org")),
            ("content", object(vec![("user_ids", Value::from(vec!["@alice:example.org"]))])),
        ])
    );
}

#[test]
fn typing_keeps_the_users_in_order() {
    let bob = OwnedUserId::try_from("@bob:example.org").unwrap();
    match typing(room_id(), vec![bob.clone(), alice()]) {
        EphemeralData::Typing(event) => {
            assert_eq!(event.room_id, room_id());
            assert_eq!(event.content.user_ids, vec![bob, alice()]);
        }
        _ => panic!("not a typing event"),
    }
}
