//! The key exchange that opens a connection: each side sends its x25519
//! public key in the message of its role, reads the peer's, and keys one
//! channel for each direction with the digest of the shared secret.
use crate::criptare::{ChannelSecure, Direction, RememberSecret, lemma_nonces_distinct, nonce_for};
use crate::protocol::Message;
use vstd::prelude::*;

verus! {

/// Why a key exchange did not complete.
#[derive(Debug, PartialEq, Eq, Structural, Clone, Copy)]
pub enum HandshakeError {
    /// The client answered with something else than its key.
    ClientKeyExpected,
    /// The server answered with something else than its key.
    ServerKeyExpected,
}

/// The two channels of a connection: one to read with, one to write with.
pub struct ChannelPair {
    pub read: ChannelSecure,
    pub write: ChannelSecure,
}

/// The pair holds two fresh channels, both under `key`: one reading packets
/// that travel in direction `incoming`, one sealing packets that travel the
/// other way.
pub open spec fn fresh_pair(pair: ChannelPair, key: Seq<u8>, incoming: Direction) -> bool {
    &&& pair.read.key() == key
    &&& pair.write.key() == key
    &&& pair.read.counter() == 0
    &&& pair.write.counter() == 0
    &&& pair.read.direction() == incoming
    &&& pair.write.direction() == opposite(incoming)
}

/// The other direction.
pub open spec fn opposite(d: Direction) -> Direction {
    match d {
        Direction::ClientToServer => Direction::ServerToClient,
        Direction::ServerToClient => Direction::ClientToServer,
    }
}

/// On a connection, the client's write channel and the server's write
/// channel never seal under the same nonce: whatever their packet numbers,
/// a client packet and a server packet have different nonces (and within one
/// channel the numbers never repeat), so no (key, nonce) pair serves twice.
pub proof fn lemma_connection_nonces_distinct(
    client: ChannelPair,
    server: ChannelPair,
    key: Seq<u8>,
    client_counter: u64,
    server_counter: u64,
)
    requires
        fresh_pair(client, key, Direction::ServerToClient),
        fresh_pair(server, key, Direction::ClientToServer),
    ensures
        client.write.direction() != server.write.direction(),
        nonce_for(client.write.direction(), client_counter) != nonce_for(
            server.write.direction(),
            server_counter,
        ),
        client.read.direction() == server.write.direction(),
        server.read.direction() == client.write.direction(),
{
    lemma_nonces_distinct(
        client.write.direction(),
        client_counter,
        server.write.direction(),
        server_counter,
    );
}

/// The message in which a client offers its public key.
pub fn client_key_message(info: &RememberSecret) -> (m: Message)
    ensures
        m matches Message::ClientKey { public_key } && public_key@ == info.offered_key(),
{
    Message::ClientKey { public_key: info.public_key_bytes() }
}

/// The message in which the server offers its public key.
pub fn server_key_message(info: &RememberSecret) -> (m: Message)
    ensures
        m matches Message::ServerKey { public_key } && public_key@ == info.offered_key(),
{
    Message::ServerKey { public_key: info.public_key_bytes() }
}

/// Two fresh channels under `key`, reading packets that travel in
/// direction `incoming` and sealing packets that travel the other way.
fn channels_for(key: [u8; 32], incoming: Direction) -> (pair: ChannelPair)
    ensures
        fresh_pair(pair, key@, incoming),
{
    let outgoing = match incoming {
        Direction::ClientToServer => Direction::ServerToClient,
        Direction::ServerToClient => Direction::ClientToServer,
    };
    ChannelPair { read: ChannelSecure::new(key, incoming), write: ChannelSecure::new(key, outgoing) }
}

/// The server's side: the client's first message must carry the client's
/// key (32 bytes); both channels are keyed with the key agreed with it,
/// the reading one for packets from the client, the writing one for packets
/// to it.
/// Any other message ends the exchange with `ClientKeyExpected`.
pub fn server_accept_key(info: RememberSecret, client_msg: Message) -> (res: Result<
    ChannelPair,
    HandshakeError,
>)
    requires
        client_msg matches Message::ClientKey { public_key } ==> public_key@.len() == 32,
    ensures
        match client_msg {
            Message::ClientKey { public_key } => res matches Ok(pair) && fresh_pair(
                pair,
                info.key_with(public_key@),
                Direction::ClientToServer,
            ),
            _ => res matches Err(e) && e == HandshakeError::ClientKeyExpected,
        },
{
    match client_msg {
        Message::ClientKey { public_key } => {
            let key = info.derive_key(public_key);
            Ok(channels_for(key, Direction::ClientToServer))
        },
        _ => Err(HandshakeError::ClientKeyExpected),
    }
}

/// The client's side: the server's answer must carry the server's key
/// (32 bytes); both channels are keyed with the key agreed with it,
/// the reading one for packets from the server, the writing one for packets
/// to it.
/// Any other message ends the exchange with `ServerKeyExpected`.
pub fn client_accept_key(info: RememberSecret, server_msg: Message) -> (res: Result<
    ChannelPair,
    HandshakeError,
>)
    requires
        server_msg matches Message::ServerKey { public_key } ==> public_key@.len() == 32,
    ensures
        match server_msg {
            Message::ServerKey { public_key } => res matches Ok(pair) && fresh_pair(
                pair,
                info.key_with(public_key@),
                Direction::ServerToClient,
            ),
            _ => res matches Err(e) && e == HandshakeError::ServerKeyExpected,
        },
{
    match server_msg {
        Message::ServerKey { public_key } => {
            let key = info.derive_key(public_key);
            Ok(channels_for(key, Direction::ServerToClient))
        },
        _ => Err(HandshakeError::ServerKeyExpected),
    }
}

} // verus!
