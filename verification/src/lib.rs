//! A Matrix channel adapter: what to ask of a homeserver, how to read its
//! replies, and which timeline events become channel messages.

pub mod adapter;
pub mod adapter_laws;
pub mod content;
pub mod delivery;
pub mod event_laws;
pub mod events;
pub mod json;
pub mod json_laws;
pub mod outside;
pub mod replies;
pub mod requests;
pub mod seen;
pub mod startup;
pub mod sync;
pub mod sync_laws;
pub mod text;
pub mod text_laws;
pub mod token;
pub mod types;
pub mod view_laws;
pub mod wire_laws;
