//! The messages that client and server exchange once a payload has been
//! opened. On the wire each travels as JSON inside a sealed, framed packet.
use vstd::prelude::*;

verus! {

/// One message of a conversation, as the server hands out its history.
#[derive(Debug, Clone)]
pub struct MessageHistoryInfo {
    pub message_id: u64,
    pub sender: String,
    pub content: String,
    pub time: i64,
    pub delivered: bool,
    /// The message that this one answers, if any.
    pub reply_id: Option<u64>,
}

/// The messages of the protocol.
#[derive(Debug, Clone)]
pub enum Message {
    /// Handshake: the client's x25519 public key.
    ClientKey { public_key: Vec<u8> },
    /// Handshake: the server's x25519 public key.
    ServerKey { public_key: Vec<u8> },
    /// Log in, or register a name that is not taken yet.
    Login { username: String, password: String },
    /// A text for `to`, possibly in answer to the message `reply_id`.
    Text { to: String, content: String, reply_id: Option<u64> },
    /// A stored text handed out by the server, with its number and time.
    ToSend { id: u64, from: String, content: String, time: i64, reply_id: Option<u64> },
    /// Ask for the conversation with `user`.
    HistoryInfo { user: String },
    /// The conversation asked for, oldest first.
    HistoryData { content: Vec<MessageHistoryInfo> },
}

} // verus!
