//! The cryptography of a connection: an x25519 key exchange whose shared
//! secret, hashed with SHA-256, keys an AES-256-GCM channel; each channel
//! numbers the packets it seals and sends the number in front of the
//! ciphertext as the nonce.
use aes_gcm::aead::rand_core::RngCore;
use aes_gcm::aead::{Aead, KeyInit};
use aes_gcm::Aes256Gcm;
use sha2::Digest;
use vstd::prelude::*;
use vstd::slice::slice_subrange;

verus! {

#[verifier::external_type_specification]
#[verifier::external_body]
pub struct ExAeadError(aes_gcm::Error);

/// The largest plaintext, in bytes, that AES-256-GCM seals (2^36).
pub const MAX_PLAINTEXT_LEN: u64 = 0x10_0000_0000;

/// Size in bytes of the tag that AES-256-GCM appends to a ciphertext.
pub const TAG_LEN: usize = 16;

/// Size in bytes of the packet number in front of every sealed packet.
pub const COUNTER_LEN: usize = 8;

/// The x25519 function of RFC 7748 on a 32-byte scalar and a 32-byte
/// point (u-coordinate): the scalar, clamped, times the point.
pub uninterp spec fn x25519(scalar: Seq<u8>, point: Seq<u8>) -> Seq<u8>;

/// The x25519 base point: u = 9.
pub open spec fn x25519_base_point() -> Seq<u8> {
    Seq::new(32, |i: int| if i == 0 { 9u8 } else { 0u8 })
}

/// The SHA-256 digest of `data`.
pub uninterp spec fn sha256(data: Seq<u8>) -> Seq<u8>;

/// The AES-256-GCM sealing of `plaintext` under `key` and `nonce`, with no
/// associated data: the ciphertext followed by the tag.
pub uninterp spec fn aes256gcm_seal(key: Seq<u8>, nonce: Seq<u8>, plaintext: Seq<u8>) -> Seq<u8>;

/// The AES-256-GCM opening of `ciphertext` (ciphertext then tag) under `key`
/// and `nonce`, with no associated data: the plaintext, or nothing when the
/// tag does not verify.
pub uninterp spec fn aes256gcm_open(key: Seq<u8>, nonce: Seq<u8>, ciphertext: Seq<u8>) -> Option<
    Seq<u8>,
>;

/// SHA-256 through `sha2::Sha256::digest`: the digest is `sha256` of the
/// input bytes.
#[verifier::external_body]
fn sha256_digest(data: &[u8]) -> (digest: [u8; 32])
    ensures
        digest@ == sha256(data@),
{
    sha2::Sha256::digest(data).into()
}

/// The SHA-256 digest of `data`.
pub fn sha256_of(data: &[u8]) -> (digest: [u8; 32])
    ensures
        digest@ == sha256(data@),
{
    sha256_digest(data)
}

/// 32 bytes from the operating system's generator (`OsRng::fill_bytes`,
/// which panics only when the system's generator itself fails). They are
/// fresh randomness: nothing is stated of them.
#[verifier::external_body]
fn random_secret_bytes() -> (bytes: [u8; 32]) {
    let mut bytes = [0u8; 32];
    aes_gcm::aead::OsRng.fill_bytes(&mut bytes);
    bytes
}

/// `x25519_dalek::x25519`: the result is `x25519` of scalar and point. When
/// the point is the base point, the result is a public key, and any other
/// scalar applied to it gives what this scalar gives applied to that
/// scalar's public key (both parties of an exchange get one shared secret).
#[verifier::external_body]
fn x25519_mult(scalar: &[u8; 32], point: &[u8; 32]) -> (r: [u8; 32])
    ensures
        r@ == x25519(scalar@, point@),
        point@ == x25519_base_point() ==> forall|other: Seq<u8>|
            other.len() == 32 ==> #[trigger] x25519(other, r@) == x25519(
                scalar@,
                x25519(other, x25519_base_point()),
            ),
{
    x25519_dalek::x25519(*scalar, *point)
}

/// `Aead::encrypt` of an `Aes256Gcm` built from `key` (the key schedule
/// is how the key is handed to the call), with no associated data. It fails exactly when the plaintext is longer than 2^36 bytes;
/// otherwise the result is `aes256gcm_seal` of key, nonce and plaintext, 16
/// bytes longer than the plaintext.
#[verifier::external_body]
fn aes256gcm_encrypt(key: &[u8; 32], nonce: &[u8; 12], plaintext: &[u8]) -> (res: Result<
    Vec<u8>,
    aes_gcm::Error,
>)
    ensures
        res is Ok <==> plaintext@.len() <= MAX_PLAINTEXT_LEN,
        res matches Ok(c) ==> c@ == aes256gcm_seal(key@, nonce@, plaintext@),
        res matches Ok(c) ==> c@.len() == plaintext@.len() + TAG_LEN,
{
    Aes256Gcm::new(key.into()).encrypt(aes_gcm::Nonce::from_slice(nonce), plaintext)
}

/// `Aead::decrypt` of an `Aes256Gcm` built from `key` (the key schedule
/// is how the key is handed to the call), with no associated data. The result is `aes256gcm_open` of key, nonce and ciphertext; the
/// sealing of a plaintext of at most 2^36 bytes opens to that plaintext
/// under the same key and nonce; a ciphertext shorter than the tag fails.
#[verifier::external_body]
fn aes256gcm_decrypt(key: &[u8; 32], nonce: &[u8; 12], ciphertext: &[u8]) -> (res: Result<
    Vec<u8>,
    aes_gcm::Error,
>)
    ensures
        match res {
            Ok(p) => aes256gcm_open(key@, nonce@, ciphertext@) == Some(p@),
            Err(_) => aes256gcm_open(key@, nonce@, ciphertext@) is None,
        },
        forall|p: Seq<u8>|
            p.len() <= MAX_PLAINTEXT_LEN && ciphertext@ == #[trigger] aes256gcm_seal(
                key@,
                nonce@,
                p,
            ) ==> (res is Ok && res->Ok_0@ == p),
        ciphertext@.len() < TAG_LEN ==> res is Err,
{
    Aes256Gcm::new(key.into()).decrypt(aes_gcm::Nonce::from_slice(nonce), ciphertext)
}

/// The eight big-endian bytes of `x`.
pub open spec fn u64_be_bytes(x: u64) -> Seq<u8> {
    seq![
        ((x >> 56u64) & 0xffu64) as u8,
        ((x >> 48u64) & 0xffu64) as u8,
        ((x >> 40u64) & 0xffu64) as u8,
        ((x >> 32u64) & 0xffu64) as u8,
        ((x >> 24u64) & 0xffu64) as u8,
        ((x >> 16u64) & 0xffu64) as u8,
        ((x >> 8u64) & 0xffu64) as u8,
        (x & 0xffu64) as u8,
    ]
}

/// The `u64` whose big-endian bytes are the first eight bytes of `b`.
pub open spec fn u64_from_be(b: Seq<u8>) -> u64
    recommends
        b.len() >= 8,
{
    ((b[0] as u64) << 56u64) | ((b[1] as u64) << 48u64) | ((b[2] as u64) << 40u64) | ((
    b[3] as u64) << 32u64) | ((b[4] as u64) << 24u64) | ((b[5] as u64) << 16u64) | ((b[6] as u64)
        << 8u64) | (b[7] as u64)
}

/// Reading back the bytes of a `u64` gives the `u64`.
pub proof fn lemma_u64_be_value_roundtrip(x: u64)
    ensures
        u64_from_be(u64_be_bytes(x)) == x,
{
    assert(((((x >> 56u64) & 0xffu64) as u8) as u64) << 56u64 | ((((x >> 48u64) & 0xffu64) as u8)
        as u64) << 48u64 | ((((x >> 40u64) & 0xffu64) as u8) as u64) << 40u64 | ((((x >> 32u64)
        & 0xffu64) as u8) as u64) << 32u64 | ((((x >> 24u64) & 0xffu64) as u8) as u64) << 24u64
        | ((((x >> 16u64) & 0xffu64) as u8) as u64) << 16u64 | ((((x >> 8u64) & 0xffu64) as u8)
        as u64) << 8u64 | (((x & 0xffu64) as u8) as u64) == x) by (bit_vector);
}

/// Which way a channel's packets travel. Each direction has a byte of its
/// own in the nonce, so the two channels of a connection, though under one
/// key, never seal under the same nonce.
#[derive(Debug, PartialEq, Eq, Structural, Clone, Copy)]
pub enum Direction {
    /// From the client to the server.
    ClientToServer,
    /// From the server to the client.
    ServerToClient,
}

/// The nonce byte of a direction.
pub open spec fn direction_byte(d: Direction) -> u8 {
    match d {
        Direction::ClientToServer => 0u8,
        Direction::ServerToClient => 1u8,
    }
}

/// The nonce byte of a direction.
pub fn direction_nonce_byte(d: Direction) -> (b: u8)
    ensures
        b == direction_byte(d),
{
    match d {
        Direction::ClientToServer => 0u8,
        Direction::ServerToClient => 1u8,
    }
}

/// The 96-bit nonce of packet number `counter` in direction `d`: the
/// number's eight big-endian bytes, the direction's byte, then three zero
/// bytes.
pub open spec fn nonce_for(d: Direction, counter: u64) -> Seq<u8> {
    u64_be_bytes(counter) + seq![direction_byte(d), 0u8, 0u8, 0u8]
}

/// The packet that a channel keyed with `key` and sending in direction `d`
/// sends for `message` as its packet number `counter`: the number's eight
/// big-endian bytes, then the sealing of the message under the nonce of that
/// direction and number.
pub open spec fn sealed_packet(key: Seq<u8>, d: Direction, counter: u64, message: Seq<u8>) -> Seq<
    u8,
> {
    u64_be_bytes(counter) + aes256gcm_seal(key, nonce_for(d, counter), message)
}

/// What a channel keyed with `key` and reading direction `d` makes of
/// `packet` (at least eight bytes): the opening of the bytes after the first
/// eight, under the nonce made of those eight bytes, the direction's byte
/// and three zero bytes.
pub open spec fn opened_packet(key: Seq<u8>, d: Direction, packet: Seq<u8>) -> Option<Seq<u8>> {
    aes256gcm_open(
        key,
        packet.subrange(0, 8) + seq![direction_byte(d), 0u8, 0u8, 0u8],
        packet.subrange(8, packet.len() as int),
    )
}

/// Two packets that differ in direction or in number are sealed under
/// different nonces: under one key, no nonce is ever used twice, neither by
/// one channel nor by the two channels of a connection.
pub proof fn lemma_nonces_distinct(d1: Direction, c1: u64, d2: Direction, c2: u64)
    requires
        d1 != d2 || c1 != c2,
    ensures
        nonce_for(d1, c1) != nonce_for(d2, c2),
{
    lemma_u64_be_value_roundtrip(c1);
    lemma_u64_be_value_roundtrip(c2);
    if nonce_for(d1, c1) == nonce_for(d2, c2) {
        assert(u64_be_bytes(c1) =~= nonce_for(d1, c1).subrange(0, 8));
        assert(u64_be_bytes(c2) =~= nonce_for(d2, c2).subrange(0, 8));
        assert(nonce_for(d1, c1)[8] == direction_byte(d1));
        assert(nonce_for(d2, c2)[8] == direction_byte(d2));
    }
}

/// A sealed packet is its number's bytes followed by the sealing under the
/// nonce of its direction and number, and a channel reading that direction
/// makes the same nonce from those bytes.
pub proof fn lemma_sealed_packet_layout(key: Seq<u8>, d: Direction, counter: u64, message: Seq<u8>)
    ensures
        sealed_packet(key, d, counter, message).subrange(0, 8) == u64_be_bytes(counter),
        sealed_packet(key, d, counter, message).subrange(0, 8) + seq![
            direction_byte(d),
            0u8,
            0u8,
            0u8,
        ] == nonce_for(d, counter),
        sealed_packet(key, d, counter, message).subrange(
            8,
            sealed_packet(key, d, counter, message).len() as int,
        ) == aes256gcm_seal(key, nonce_for(d, counter), message),
{
    let p = sealed_packet(key, d, counter, message);
    assert(p.subrange(0, 8) =~= u64_be_bytes(counter));
    assert(p.subrange(8, p.len() as int) =~= aes256gcm_seal(key, nonce_for(d, counter), message));
}

/// Why a channel operation failed.
#[derive(Debug, PartialEq, Eq, Structural, Clone, Copy)]
pub enum ChannelError {
    /// The cipher refused to seal the message (longer than 2^36 bytes).
    Encrypt,
    /// The packet did not open under the channel's key (wrong key, tampered
    /// bytes, or shorter than a tag).
    Decrypt,
}

/// The key of a connection while it is being agreed: this side's x25519
/// secret and the public key that goes with it.
pub struct RememberSecret {
    secret_key: [u8; 32],
    /// This side's public key, as its 32 bytes.
    pub public_key: [u8; 32],
}

impl Default for RememberSecret {
    fn default() -> (info: Self)
        ensures
            info.wf(),
            info.offered_key() == x25519(info.secret(), x25519_base_point()),
    {
        Self::new()
    }
}

/// The channel key that the holder of `secret` agrees on with the peer
/// whose public key is `peer`: the SHA-256 digest of the x25519 shared
/// secret.
pub open spec fn agreed_key(secret: Seq<u8>, peer: Seq<u8>) -> Seq<u8> {
    sha256(x25519(secret, peer))
}

impl RememberSecret {
    /// This side's secret.
    pub closed spec fn secret(&self) -> Seq<u8> {
        self.secret_key@
    }

    /// The public key this side offers.
    pub closed spec fn offered_key(&self) -> Seq<u8> {
        self.public_key@
    }

    /// The public key is the secret applied to the base point, and any other
    /// secret applied to it agrees with this secret applied to that secret's
    /// public key.
    pub closed spec fn wf(&self) -> bool {
        &&& self.public_key@ == x25519(self.secret_key@, x25519_base_point())
        &&& forall|other: Seq<u8>|
            other.len() == 32 ==> #[trigger] x25519(other, self.public_key@) == x25519(
                self.secret_key@,
                x25519(other, x25519_base_point()),
            )
    }

    /// The channel key this side agrees on with the peer whose public key is
    /// `peer`.
    pub open spec fn key_with(&self, peer: Seq<u8>) -> Seq<u8> {
        agreed_key(self.secret(), peer)
    }

    /// The public key this side offers, as a vector of its 32 bytes.
    pub fn public_key_bytes(&self) -> (v: Vec<u8>)
        ensures
            v@ == self.offered_key(),
            v@.len() == 32,
    {
        let mut v: Vec<u8> = Vec::with_capacity(32);
        let mut i: usize = 0;
        while i < 32
            invariant
                i <= 32,
                v@ == self.public_key@.subrange(0, i as int),
            decreases 32 - i,
        {
            v.push(self.public_key[i]);
            i = i + 1;
            assert(self.public_key@.subrange(0, i as int) =~= self.public_key@.subrange(
                0,
                i - 1 as int,
            ).push(self.public_key@[i - 1]));
        }
        assert(self.public_key@.subrange(0, 32) =~= self.public_key@);
        v
    }

    /// Draws a fresh x25519 secret and computes its public key.
    pub fn new() -> (info: Self)
        ensures
            info.wf(),
            info.offered_key() == x25519(info.secret(), x25519_base_point()),
    {
        let secret_key = random_secret_bytes();
        let base: [u8; 32] = [
            9u8, 0u8, 0u8, 0u8, 0u8, 0u8, 0u8, 0u8, 0u8, 0u8, 0u8, 0u8, 0u8, 0u8, 0u8, 0u8, 0u8,
            0u8, 0u8, 0u8, 0u8, 0u8, 0u8, 0u8, 0u8, 0u8, 0u8, 0u8, 0u8, 0u8, 0u8, 0u8,
        ];
        assert(base@ =~= x25519_base_point());
        let public_key = x25519_mult(&secret_key, &base);
        RememberSecret { secret_key, public_key }
    }

    /// Agrees on the channel key with the peer whose public key is
    /// `public_key_bytes` (32 bytes): the SHA-256 digest of the x25519
    /// shared secret. The secret is used up.
    pub fn derive_key(self, public_key_bytes: Vec<u8>) -> (key: [u8; 32])
        requires
            public_key_bytes@.len() == 32,
        ensures
            key@ == self.key_with(public_key_bytes@),
    {
        let peer = bytes_to_key(&public_key_bytes);
        let shared = x25519_mult(&self.secret_key, &peer);
        key_from_shared_secret(&shared)
    }
}

/// A well-formed side offers its secret applied to the base point, and any
/// other 32-byte secret applied to that offer gives what this secret gives
/// applied to the other secret's public key.
pub proof fn lemma_offered_key(info: RememberSecret, other: Seq<u8>)
    requires
        info.wf(),
        other.len() == 32,
    ensures
        info.offered_key() == x25519(info.secret(), x25519_base_point()),
        x25519(other, info.offered_key()) == x25519(
            info.secret(),
            x25519(other, x25519_base_point()),
        ),
{
}

/// Two parties that each made their secret with `RememberSecret::new` and
/// read the other's public key agree on the channel key.
pub proof fn lemma_exchange_agrees(a: RememberSecret, b: RememberSecret)
    requires
        a.wf(),
        b.wf(),
    ensures
        a.key_with(b.offered_key()) == b.key_with(a.offered_key()),
{
    assert(a.secret().len() == 32);
    assert(b.secret().len() == 32);
    assert(x25519(a.secret(), b.offered_key()) == x25519(
        b.secret(),
        x25519(a.secret(), x25519_base_point()),
    ));
}

/// The 32 bytes of `bytes` (exactly 32 long) as an array.
pub fn bytes_to_key(bytes: &Vec<u8>) -> (arr: [u8; 32])
    requires
        bytes@.len() == 32,
    ensures
        arr@ == bytes@,
{
    let mut arr: [u8; 32] = [0u8; 32];
    let mut i: usize = 0;
    while i < 32
        invariant
            i <= 32,
            bytes@.len() == 32,
            forall|j: int| 0 <= j < i ==> arr@[j] == bytes@[j],
        decreases 32 - i,
    {
        arr[i] = bytes[i];
        i = i + 1;
    }
    assert(arr@ =~= bytes@);
    arr
}

/// The channel key made from an x25519 shared secret: its SHA-256 digest.
pub fn key_from_shared_secret(shared: &[u8; 32]) -> (key: [u8; 32])
    ensures
        key@ == sha256(shared@),
{
    sha256_of(shared)
}

/// One direction of an encrypted connection: AES-256-GCM under the agreed
/// key, the direction the packets travel, and the number of the next packet
/// to seal.
pub struct ChannelSecure {
    nonce_cnt: u64,
    key: [u8; 32],
    direction: Direction,
}

impl ChannelSecure {
    /// The channel's key.
    pub closed spec fn key(&self) -> Seq<u8> {
        self.key@
    }

    /// The direction of the packets this channel seals or opens.
    pub closed spec fn direction(&self) -> Direction {
        self.direction
    }

    /// The number of the next packet this channel seals.
    pub closed spec fn counter(&self) -> u64 {
        self.nonce_cnt
    }

    /// The number of the next packet this channel seals.
    pub fn next_packet_number(&self) -> (n: u64)
        ensures
            n == self.counter(),
    {
        self.nonce_cnt
    }

    /// A channel keyed with `curr_key` for packets travelling in `direction`,
    /// whose first packet is number 0.
    pub fn new(curr_key: [u8; 32], direction: Direction) -> (ch: Self)
        ensures
            ch.key() == curr_key@,
            ch.direction() == direction,
            ch.counter() == 0,
    {
        ChannelSecure { nonce_cnt: 0, key: curr_key, direction }
    }

    /// The nonce for packet number `cnt` in this channel's direction.
    fn nonce(&self, cnt: u64) -> (nonce: [u8; 12])
        ensures
            nonce@ == nonce_for(self.direction(), cnt),
    {
        let mut nonce: [u8; 12] = [0u8; 12];
        nonce[0] = ((cnt >> 56u64) & 0xffu64) as u8;
        nonce[1] = ((cnt >> 48u64) & 0xffu64) as u8;
        nonce[2] = ((cnt >> 40u64) & 0xffu64) as u8;
        nonce[3] = ((cnt >> 32u64) & 0xffu64) as u8;
        nonce[4] = ((cnt >> 24u64) & 0xffu64) as u8;
        nonce[5] = ((cnt >> 16u64) & 0xffu64) as u8;
        nonce[6] = ((cnt >> 8u64) & 0xffu64) as u8;
        nonce[7] = (cnt & 0xffu64) as u8;
        nonce[8] = direction_nonce_byte(self.direction);
        assert(nonce@ =~= nonce_for(self.direction(), cnt));
        nonce
    }

    /// Seals `info` as the next packet: the packet number's eight big-endian
    /// bytes, then the AES-256-GCM sealing of `info` under the nonce of this
    /// channel's direction and that number. On success the number goes up by
    /// one; on failure (a message longer than 2^36 bytes) the channel is
    /// unchanged.
    pub fn encrypt(&mut self, info: &[u8]) -> (res: Result<Vec<u8>, ChannelError>)
        requires
            old(self).counter() < u64::MAX,
        ensures
            res is Ok <==> info@.len() <= MAX_PLAINTEXT_LEN,
            final(self).key() == old(self).key(),
            final(self).direction() == old(self).direction(),
            res matches Ok(packet) ==> packet@ == sealed_packet(
                old(self).key(),
                old(self).direction(),
                old(self).counter(),
                info@,
            ) && final(self).counter() == old(self).counter() + 1,
            res matches Ok(packet) ==> packet@.len() == COUNTER_LEN + info@.len() + TAG_LEN,
            res is Err ==> res == Err::<Vec<u8>, ChannelError>(ChannelError::Encrypt),
            res is Err ==> final(self).counter() == old(self).counter(),
            sealing_step(*old(self), *final(self), info@, packet_of(res)),
    {
        let cnt = self.nonce_cnt;
        let nonce = self.nonce(cnt);
        let sealed = match aes256gcm_encrypt(&self.key, &nonce, info) {
            Ok(c) => c,
            Err(_) => {
                return Err(ChannelError::Encrypt);
            },
        };
        let mut package: Vec<u8> = Vec::with_capacity(8);
        let mut i: usize = 0;
        while i < 8
            invariant
                i <= 8,
                package@ == nonce@.subrange(0, i as int),
            decreases 8 - i,
        {
            package.push(nonce[i]);
            i = i + 1;
            assert(nonce@.subrange(0, i as int) =~= nonce@.subrange(0, i - 1 as int).push(
                nonce@[i - 1],
            ));
        }
        assert(package@ =~= u64_be_bytes(cnt));
        let mut j: usize = 0;
        while j < sealed.len()
            invariant
                j <= sealed@.len(),
                package@ == u64_be_bytes(cnt) + sealed@.subrange(0, j as int),
            decreases sealed@.len() - j,
        {
            package.push(sealed[j]);
            j = j + 1;
            assert(sealed@.subrange(0, j as int) =~= sealed@.subrange(0, j - 1 as int).push(
                sealed@[j - 1],
            ));
        }
        assert(sealed@.subrange(0, sealed@.len() as int) =~= sealed@);
        self.nonce_cnt = cnt + 1;
        Ok(package)
    }

    /// Opens a packet (at least eight bytes): the first eight bytes, this
    /// channel's direction byte and three zero bytes are the nonce, the rest
    /// is ciphertext and tag. The channel is left as it was. A packet that a
    /// channel with the same key sealed in this channel's direction opens to
    /// the message it sealed.
    pub fn decrypt(&mut self, crypted_content: &[u8]) -> (res: Result<Vec<u8>, ChannelError>)
        requires
            crypted_content@.len() >= COUNTER_LEN,
        ensures
            *final(self) == *old(self),
            match res {
                Ok(p) => opened_packet(old(self).key(), old(self).direction(), crypted_content@)
                    == Some(p@),
                Err(e) => e == ChannelError::Decrypt && opened_packet(
                    old(self).key(),
                    old(self).direction(),
                    crypted_content@,
                ) is None,
            },
            forall|counter: u64, message: Seq<u8>|
                message.len() <= MAX_PLAINTEXT_LEN && crypted_content@ == #[trigger] sealed_packet(
                    old(self).key(),
                    old(self).direction(),
                    counter,
                    message,
                ) ==> (res is Ok && res->Ok_0@ == message),
    {
        let mut nonce: [u8; 12] = [0u8; 12];
        let mut i: usize = 0;
        while i < 8
            invariant
                i <= 8,
                crypted_content@.len() >= 8,
                forall|j: int| 0 <= j < i ==> nonce@[j] == crypted_content@[j],
                forall|j: int| i <= j < 12 ==> nonce@[j] == 0u8,
            decreases 8 - i,
        {
            nonce[i] = crypted_content[i];
            i = i + 1;
        }
        nonce[8] = direction_nonce_byte(self.direction);
        assert(nonce@ =~= crypted_content@.subrange(0, 8) + seq![
            direction_byte(self.direction()),
            0u8,
            0u8,
            0u8,
        ]);
        let body = slice_subrange(crypted_content, 8, crypted_content.len());
        let res = match aes256gcm_decrypt(&self.key, &nonce, body) {
            Ok(p) => Ok(p),
            Err(_) => Err(ChannelError::Decrypt),
        };
        proof {
            assert forall|counter: u64, message: Seq<u8>|
                message.len() <= MAX_PLAINTEXT_LEN && crypted_content@ == #[trigger] sealed_packet(
                    self.key(),
                    self.direction(),
                    counter,
                    message,
                ) implies (res is Ok && res->Ok_0@ == message) by {
                lemma_sealed_packet_layout(self.key(), self.direction(), counter, message);
            }
        }
        res
    }
}

/// The packet a call of `encrypt` returned, or nothing when it failed.
pub open spec fn packet_of(res: Result<Vec<u8>, ChannelError>) -> Option<Seq<u8>> {
    match res {
        Ok(p) => Some(p@),
        Err(_) => None,
    }
}

/// What one sealing does to a channel, from `before` to `after`, for the
/// message `info`, with `out` the packet made (or nothing on failure): key
/// and direction stay; a message of at most 2^36 bytes is sealed as the
/// packet of the channel's current number, which then goes up by one; a
/// longer one is refused and the number stays.
pub open spec fn sealing_step(
    before: ChannelSecure,
    after: ChannelSecure,
    info: Seq<u8>,
    out: Option<Seq<u8>>,
) -> bool {
    &&& after.key() == before.key()
    &&& after.direction() == before.direction()
    &&& (out is Some <==> info.len() <= MAX_PLAINTEXT_LEN)
    &&& match out {
        Some(p) => p == sealed_packet(before.key(), before.direction(), before.counter(), info)
            && after.counter() == before.counter() + 1,
        None => after.counter() == before.counter(),
    }
}

/// How many of `outs` are packets (successful sealings).
pub open spec fn sealed_count(outs: Seq<Option<Seq<u8>>>) -> nat
    decreases outs.len(),
{
    if outs.len() == 0 {
        0
    } else {
        sealed_count(outs.drop_last()) + if outs.last() is Some {
            1nat
        } else {
            0nat
        }
    }
}

/// A successful sealing at `i` counts before any later position `j`.
proof fn lemma_sealed_count_grows(outs: Seq<Option<Seq<u8>>>, i: int, j: int)
    requires
        0 <= i < j <= outs.len(),
        outs[i] is Some,
    ensures
        sealed_count(outs.subrange(0, i)) + 1 <= sealed_count(outs.subrange(0, j)),
    decreases j,
{
    let t = outs.subrange(0, j);
    assert(t.drop_last() =~= outs.subrange(0, j - 1));
    if j == i + 1 {
        assert(t.last() == outs[i]);
    } else {
        lemma_sealed_count_grows(outs, i, j - 1);
    }
}

/// A run of sealings on one channel, `states[0]` to `states[n]`, with the
/// messages `infos` and the packets (or failures) `outs`: key and direction
/// never change; before call `i` the channel's number is its first number
/// plus the count of earlier successes, so failed calls use no number; the
/// packet of a successful call is the sealing under that number; and two
/// successful calls always have different numbers and different nonces.
pub proof fn lemma_sealing_run(
    states: Seq<ChannelSecure>,
    infos: Seq<Seq<u8>>,
    outs: Seq<Option<Seq<u8>>>,
)
    requires
        states.len() == outs.len() + 1,
        infos.len() == outs.len(),
        forall|i: int|
            0 <= i < outs.len() ==> sealing_step(
                #[trigger] states[i],
                states[i + 1],
                infos[i],
                outs[i],
            ),
    ensures
        forall|i: int|
            0 <= i <= outs.len() ==> (#[trigger] states[i]).key() == states[0].key()
                && states[i].direction() == states[0].direction() && states[i].counter()
                == states[0].counter() + sealed_count(outs.subrange(0, i)),
        forall|i: int|
            0 <= i < outs.len() && outs[i] is Some ==> #[trigger] outs[i] == Some(
                sealed_packet(states[0].key(), states[0].direction(), states[i].counter(), infos[i]),
            ),
        forall|i: int, j: int|
            0 <= i < j < outs.len() && outs[i] is Some && outs[j] is Some ==> (
            #[trigger] states[i]).counter() < (#[trigger] states[j]).counter() && nonce_for(
                states[0].direction(),
                states[i].counter(),
            ) != nonce_for(states[0].direction(), states[j].counter()),
    decreases outs.len(),
{
    let n = outs.len();
    if n == 0 {
        assert(outs.subrange(0, 0) =~= Seq::<Option<Seq<u8>>>::empty());
    } else {
        let s2 = states.subrange(0, n as int);
        let i2 = infos.subrange(0, n - 1);
        let o2 = outs.subrange(0, n - 1);
        assert forall|i: int| 0 <= i < o2.len() implies sealing_step(
            #[trigger] s2[i],
            s2[i + 1],
            i2[i],
            o2[i],
        ) by {
            assert(s2[i] == states[i] && s2[i + 1] == states[i + 1]);
            assert(sealing_step(states[i], states[i + 1], infos[i], outs[i]));
        }
        lemma_sealing_run(s2, i2, o2);
        assert forall|i: int| 0 <= i <= n implies (#[trigger] states[i]).key() == states[0].key()
            && states[i].direction() == states[0].direction() && states[i].counter()
            == states[0].counter() + sealed_count(outs.subrange(0, i)) by {
            if i < n {
                assert(s2[i] == states[i]);
                assert(o2.subrange(0, i) =~= outs.subrange(0, i));
            } else {
                assert(s2[n - 1] == states[n - 1]);
                assert(o2.subrange(0, n - 1) =~= outs.subrange(0, n - 1));
                assert(sealing_step(states[n - 1], states[n as int], infos[n - 1], outs[n - 1]));
                assert(outs.subrange(0, n as int).drop_last() =~= outs.subrange(0, n - 1));
                assert(outs.subrange(0, n as int).last() == outs[n - 1]);
            }
        }
        assert forall|i: int| 0 <= i < n && outs[i] is Some implies #[trigger] outs[i] == Some(
            sealed_packet(states[0].key(), states[0].direction(), states[i].counter(), infos[i]),
        ) by {
            assert(sealing_step(states[i], states[i + 1], infos[i], outs[i]));
        }
        assert forall|i: int, j: int|
            0 <= i < j < n && outs[i] is Some && outs[j] is Some implies (
            #[trigger] states[i]).counter() < (#[trigger] states[j]).counter() && nonce_for(
                states[0].direction(),
                states[i].counter(),
            ) != nonce_for(states[0].direction(), states[j].counter()) by {
            lemma_sealed_count_grows(outs, i, j);
            lemma_nonces_distinct(
                states[0].direction(),
                states[i].counter(),
                states[0].direction(),
                states[j].counter(),
            );
        }
    }
}

} // verus!
