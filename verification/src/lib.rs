//! A client-server messenger: length-prefixed framing, per-connection
//! AES-256-GCM channels keyed by an x25519 exchange, and the session and
//! chat rules of the server and of the client.
pub mod frame;
pub mod criptare;
pub mod text;
pub mod protocol;
pub mod handshake;
pub mod login;
pub mod session;
pub mod records;
pub mod transport;
pub mod chat;
pub mod command;
pub mod online;
