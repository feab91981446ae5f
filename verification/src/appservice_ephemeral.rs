//! Events that are passed on to appservices and not kept.

use crate::failure::Failure;
use ruma::api::appservice::event::push_events::v1::EphemeralData as PushedData;
use ruma::events::presence::PresenceEvent;
use ruma::events::receipt::ReceiptEventContent;
use ruma::events::EphemeralRoomEvent;
use ruma::{OwnedRoomId, OwnedUserId};
use vstd::prelude::*;

verus! {

/// A room id as events carry it.
#[verifier::external_type_specification]
#[verifier::external_body]
pub struct ExOwnedRoomId(ruma::OwnedRoomId);

/// A user id as events carry it.
#[verifier::external_type_specification]
#[verifier::external_body]
pub struct ExOwnedUserId(ruma::OwnedUserId);

/// Which users have read which events.
#[verifier::external_type_specification]
#[verifier::external_body]
pub struct ExReceiptEventContent(ruma::events::receipt::ReceiptEventContent);

/// An event id. The content of a receipt event gives out a map by these.
#[verifier::external_type_specification]
#[verifier::external_body]
pub struct ExOwnedEventId(ruma::OwnedEventId);

/// A kind of receipt. The content of a receipt event tells receipts apart by these.
#[verifier::external_type_specification]
#[verifier::external_body]
pub struct ExReceiptType(ruma::events::receipt::ReceiptType);

/// A receipt, as the content of a receipt event holds it.
#[verifier::external_type_specification]
#[verifier::external_body]
pub struct ExReceipt(ruma::events::receipt::Receipt);

/// The presence of a user.
#[verifier::external_type_specification]
#[verifier::external_body]
pub struct ExPresenceEvent(ruma::events::presence::PresenceEvent);

/// Who is typing.
pub struct TypingEventContent {
    pub user_ids: Vec<OwnedUserId>,
}

/// Who is typing in a room.
pub struct TypingEvent {
    pub content: TypingEventContent,
    pub room_id: OwnedRoomId,
}

/// Which users have read which events of a room.
pub struct ReceiptEvent {
    pub content: ReceiptEventContent,
    pub room_id: OwnedRoomId,
}

/// An event that is passed on and not kept.
pub enum EphemeralData {
    Presence(PresenceEvent),
    Receipt(ReceiptEvent),
    Typing(TypingEvent),
}

/// The JSON form of the event as `serde_json::to_writer` writes it, if it can.
pub uninterp spec fn ephemeral_json(ephemeral: EphemeralData) -> Option<Seq<u8>>;

/// Calls `serde_json::to_writer` on the event as an
/// `ruma::api::appservice::event::push_events::v1::EphemeralData`. What it writes is
/// given a name here and not spelt out.
#[verifier::external_body]
fn write_json(ephemeral: &EphemeralData) -> (r: Result<Vec<u8>, serde_json::Error>)
    ensures
        r is Ok <==> ephemeral_json(*ephemeral) is Some,
        r matches Ok(json) ==> ephemeral_json(*ephemeral) == Some(json@),
{
    let pushed = match ephemeral {
        EphemeralData::Presence(event) => PushedData::Presence(event.clone()),
        EphemeralData::Receipt(event) => PushedData::Receipt(
            EphemeralRoomEvent::new(event.room_id.clone(), event.content.clone()),
        ),
        EphemeralData::Typing(event) => PushedData::Typing(EphemeralRoomEvent::new(
            event.room_id.clone(),
            ruma::events::typing::TypingEventContent::new(event.content.user_ids.clone()),
        )),
    };
    let mut json = Vec::new();
    serde_json::to_writer(&mut json, &pushed).map(|()| json)
}

/// Writes the event as JSON.
pub fn serialize(ephemeral: &EphemeralData) -> (r: Result<Vec<u8>, Failure>)
    ensures
        match r {
            Ok(json) => ephemeral_json(*ephemeral) == Some(json@),
            Err(e) => ephemeral_json(*ephemeral) is None && e == Failure::Json,
        },
{
    match write_json(ephemeral) {
        Ok(json) => Ok(json),
        Err(_) => Err(Failure::Json),
    }
}

/// The event that the users are typing in the room.
#[must_use]
pub fn typing(room_id: OwnedRoomId, user_ids: Vec<OwnedUserId>) -> (r: EphemeralData)
    ensures
        r == EphemeralData::Typing(
            (TypingEvent { content: (TypingEventContent { user_ids }), room_id }),
        ),
{
    EphemeralData::Typing(TypingEvent { content: TypingEventContent { user_ids }, room_id })
}

/// The event that users have read events of the room.
#[must_use]
pub fn receipt(content: ReceiptEventContent, room_id: OwnedRoomId) -> (r: EphemeralData)
    ensures
        r == EphemeralData::Receipt((ReceiptEvent { content, room_id })),
{
    EphemeralData::Receipt(ReceiptEvent { content, room_id })
}

/// The event that a user's presence is as given.
#[must_use]
pub fn presence(event: PresenceEvent) -> (r: EphemeralData)
    ensures
        r == EphemeralData::Presence(event),
{
    EphemeralData::Presence(event)
}

} // verus!
