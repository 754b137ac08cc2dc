//! Application protocol of a peer-to-peer group chat: join tickets, message
//! envelopes, and the roster of display names built from received messages.
pub mod identity;
pub mod message;
pub mod roster;
pub mod session;
pub mod text;
pub mod ticket;
pub mod wire;
