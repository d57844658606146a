use offline_messenger::criptare::{key_from_shared_secret, ChannelError, ChannelSecure, Direction, RememberSecret};
use offline_messenger::handshake::{client_accept_key, client_key_message, server_accept_key, server_key_message, HandshakeError};
use offline_messenger::protocol::Message;
use offline_messenger::transport::seal_for_wire;
use offline_messenger::frame::decode_frame;

fn hex(bytes: &[u8]) -> String {
    bytes.iter().map(|b| format!("{:02x}", b)).collect()
}

#[test]
fn empty_message_under_zero_key_gives_the_known_tag() {
    let mut ch = ChannelSecure::new([0u8; 32], Direction::ClientToServer);
    let packet = ch.encrypt(&[]).unwrap();
    assert_eq!(&packet[..8], &[0u8; 8]);
    assert_eq!(hex(&packet[8..]), "530f8afbc74536b9a963b4f1c4cb738b");
}

#[test]
fn zero_block_under_zero_key_gives_the_known_ciphertext() {
    let mut ch = ChannelSecure::new([0u8; 32], Direction::ClientToServer);
    let packet = ch.encrypt(&[0u8; 16]).unwrap();
    assert_eq!(packet.len(), 8 + 16 + 16);
    assert_eq!(hex(&packet[8..24]), "cea7403d4d606b6e074ec5d3baf39d18");
    assert_eq!(hex(&packet[24..]), "d0d1c8a799996bf0265b98b5d48ab919");
}

#[test]
fn what_one_channel_seals_the_other_opens() {
    let key = [7u8; 32];
    let mut writer = ChannelSecure::new(key, Direction::ClientToServer);
    let mut reader = ChannelSecure::new(key, Direction::ClientToServer);
    for text in [&b"salut"[..], &b""[..], &b"{\"Login\":{}}"[..]] {
        let packet = writer.encrypt(text).unwrap();
        assert_eq!(packet.len(), 8 + text.len() + 16);
        assert_eq!(reader.decrypt(&packet).unwrap(), text.to_vec());
    }
}

#[test]
fn packets_are_numbered_from_zero() {
    let mut ch = ChannelSecure::new([1u8; 32], Direction::ClientToServer);
    let p0 = ch.encrypt(b"a").unwrap();
    let p1 = ch.encrypt(b"a").unwrap();
    let p2 = ch.encrypt(b"a").unwrap();
    assert_eq!(&p0[..8], &0u64.to_be_bytes());
    assert_eq!(&p1[..8], &1u64.to_be_bytes());
    assert_eq!(&p2[..8], &2u64.to_be_bytes());
    assert_ne!(p0[8..], p1[8..]);
}

#[test]
fn packets_open_in_any_order() {
    let key = [3u8; 32];
    let mut writer = ChannelSecure::new(key, Direction::ClientToServer);
    let mut reader = ChannelSecure::new(key, Direction::ClientToServer);
    let a = writer.encrypt(b"first").unwrap();
    let b = writer.encrypt(b"second").unwrap();
    assert_eq!(reader.decrypt(&b).unwrap(), b"second".to_vec());
    assert_eq!(reader.decrypt(&a).unwrap(), b"first".to_vec());
}

#[test]
fn tampered_packet_is_refused() {
    let key = [9u8; 32];
    let mut writer = ChannelSecure::new(key, Direction::ClientToServer);
    let mut reader = ChannelSecure::new(key, Direction::ClientToServer);
    let mut packet = writer.encrypt(b"do not touch").unwrap();
    let last = packet.len() - 1;
    packet[last] ^= 1;
    assert_eq!(reader.decrypt(&packet), Err(ChannelError::Decrypt));
    let mut renumbered = writer.encrypt(b"x").unwrap();
    renumbered[7] ^= 1;
    assert_eq!(reader.decrypt(&renumbered), Err(ChannelError::Decrypt));
}

#[test]
fn other_key_cannot_open() {
    let mut writer = ChannelSecure::new([1u8; 32], Direction::ClientToServer);
    let mut reader = ChannelSecure::new([2u8; 32], Direction::ClientToServer);
    let packet = writer.encrypt(b"secret").unwrap();
    assert_eq!(reader.decrypt(&packet), Err(ChannelError::Decrypt));
}

#[test]
fn packet_shorter_than_a_tag_is_refused() {
    let mut reader = ChannelSecure::new([0u8; 32], Direction::ClientToServer);
    assert_eq!(reader.decrypt(&[0u8; 8]), Err(ChannelError::Decrypt));
    assert_eq!(reader.decrypt(&[0u8; 20]), Err(ChannelError::Decrypt));
}

#[test]
fn key_is_the_digest_of_the_shared_secret() {
    assert_eq!(
        hex(&key_from_shared_secret(&[0u8; 32])),
        "66687aadf862bd776c8fc18b8e9f8e20089714856ee233b3902a591d0d5f2925"
    );
}

#[test]
fn both_sides_of_an_exchange_agree_on_the_key() {
    let alice = RememberSecret::new();
    let bob = RememberSecret::new();
    assert_eq!(alice.public_key_bytes(), alice.public_key.to_vec());
    assert_ne!(alice.public_key, bob.public_key);
    let alice_pub = alice.public_key_bytes();
    let bob_pub = bob.public_key_bytes();
    let mut base = [0u8; 32];
    base[0] = 9;
    assert_ne!(alice.public_key, base);
    let k1 = alice.derive_key(bob_pub.clone());
    let k2 = bob.derive_key(alice_pub.clone());
    assert_eq!(k1, k2);
    let mut bob_arr = [0u8; 32];
    bob_arr.copy_from_slice(&bob_pub);
    assert_ne!(k1, key_from_shared_secret(&bob_arr));
}

#[test]
fn handshake_gives_matching_channels() {
    let client = RememberSecret::new();
    let server = RememberSecret::new();
    let offer = client_key_message(&client);
    let answer = server_key_message(&server);
    match (&offer, &answer) {
        (Message::ClientKey { public_key: c }, Message::ServerKey { public_key: s }) => {
            assert_eq!(c, &client.public_key.to_vec());
            assert_eq!(s, &server.public_key.to_vec());
        }
        _ => panic!("wrong key messages"),
    }
    let mut on_server = server_accept_key(server, offer).unwrap();
    let mut on_client = client_accept_key(client, answer).unwrap();
    let to_client = on_server.write.encrypt(b"bun venit").unwrap();
    assert_eq!(on_client.read.decrypt(&to_client).unwrap(), b"bun venit".to_vec());
    let to_server = on_client.write.encrypt(b"multumesc").unwrap();
    assert_eq!(on_server.read.decrypt(&to_server).unwrap(), b"multumesc".to_vec());
}

#[test]
fn handshake_refuses_the_wrong_message() {
    let server = RememberSecret::new();
    let res = server_accept_key(server, Message::HistoryInfo { user: "x".to_string() });
    assert!(matches!(res, Err(HandshakeError::ClientKeyExpected)));
    let client = RememberSecret::new();
    let res = client_accept_key(client, Message::ClientKey { public_key: vec![0; 32] });
    assert!(matches!(res, Err(HandshakeError::ServerKeyExpected)));
}

#[test]
fn wire_packet_is_a_frame_around_a_sealed_packet() {
    let key = [5u8; 32];
    let mut sender = ChannelSecure::new(key, Direction::ClientToServer);
    let mut twin = ChannelSecure::new(key, Direction::ClientToServer);
    let wire = seal_for_wire(&mut sender, b"payload").unwrap();
    let (packet, used) = decode_frame(&wire).unwrap();
    assert_eq!(used, wire.len());
    assert_eq!(packet, twin.encrypt(b"payload").unwrap());
    let mut reader = ChannelSecure::new(key, Direction::ClientToServer);
    assert_eq!(reader.decrypt(&packet).unwrap(), b"payload".to_vec());
}

#[test]
fn the_two_directions_never_share_a_nonce() {
    let key = [4u8; 32];
    let mut up = ChannelSecure::new(key, Direction::ClientToServer);
    let mut down = ChannelSecure::new(key, Direction::ServerToClient);
    let a = up.encrypt(b"same text").unwrap();
    let b = down.encrypt(b"same text").unwrap();
    assert_eq!(&a[..8], &b[..8]);
    assert_ne!(a[8..], b[8..]);
    let mut up_reader = ChannelSecure::new(key, Direction::ClientToServer);
    let mut down_reader = ChannelSecure::new(key, Direction::ServerToClient);
    assert_eq!(up_reader.decrypt(&a).unwrap(), b"same text".to_vec());
    assert_eq!(down_reader.decrypt(&b).unwrap(), b"same text".to_vec());
    assert_eq!(up_reader.decrypt(&b), Err(ChannelError::Decrypt));
    assert_eq!(down_reader.decrypt(&a), Err(ChannelError::Decrypt));
}

#[test]
fn handshake_channels_face_each_other() {
    let client = RememberSecret::new();
    let server = RememberSecret::new();
    let offer = client_key_message(&client);
    let answer = server_key_message(&server);
    let mut on_server = server_accept_key(server, offer).unwrap();
    let mut on_client = client_accept_key(client, answer).unwrap();
    let from_client = on_client.write.encrypt(b"x").unwrap();
    let from_server = on_server.write.encrypt(b"x").unwrap();
    assert_ne!(from_client, from_server);
    assert_eq!(on_client.read.decrypt(&from_client), Err(ChannelError::Decrypt));
    assert_eq!(on_server.read.decrypt(&from_server), Err(ChannelError::Decrypt));
    assert_eq!(on_server.read.decrypt(&from_client).unwrap(), b"x".to_vec());
    assert_eq!(on_client.read.decrypt(&from_server).unwrap(), b"x".to_vec());
}

#[test]
fn wire_frame_is_payload_plus_twenty_eight_bytes() {
    let mut ch = ChannelSecure::new([6u8; 32], Direction::ServerToClient);
    assert_eq!(seal_for_wire(&mut ch, b"abc").unwrap().len(), 3 + 28);
    assert_eq!(ch.next_packet_number(), 1);
}
