//! A small personal workspace manager: named workspaces, each bound to a
//! filesystem path and carrying an ordered list of links and a list of
//! tasks. The configuration is one JSON document; this crate holds the
//! in-memory model, its mutation operations, and the JSON codec for the
//! document, with a proved round trip.

pub mod config;
pub mod parse;
pub mod roundtrip;
pub mod scaffold;
pub mod ser;
mod strutil;
