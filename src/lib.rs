//! Relays the console of a game server hosted on a Pterodactyl panel to a
//! chat channel: the panel handshake, the websocket session's decisions, and
//! the classification, redaction and formatting of console lines.

pub mod classify;
pub mod json;
pub mod panel;
pub mod relay;
pub mod session;
pub mod text;
