//! What a homeserver remembers about who is where: which users are joined to,
//! invited to, knocking on or gone from which rooms, which servers take part in
//! them, and which appservices have a stake in them.

pub mod appservice;
pub mod appservice_ephemeral;
pub mod database;
pub mod failure;
pub mod ids;
pub mod keys;
pub mod laws;
pub mod listing;
pub mod membership;
pub mod ord_map;
pub mod order;
pub mod service;
pub mod sets;
pub mod values;
