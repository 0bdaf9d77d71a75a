//! Webhook gateway core: subscription-handshake verification, keyed-digest
//! authentication of delivery payloads, payload parsing, and per-page event
//! dispatch. HTTP transport and configuration loading live outside this crate;
//! the gateway works on plain byte strings handed in by the caller.

pub mod dispatch;
pub mod gateway;
pub mod handshake;
pub mod views;
pub mod payload;
pub mod registry;
pub mod signature;
