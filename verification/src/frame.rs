//! Length-prefixed framing of byte payloads: a frame is the payload's
//! length as a big-endian `u32`, followed by the payload itself.
use vstd::prelude::*;

verus! {

/// Number of bytes of the length header in front of every frame.
pub const FRAME_HEADER_LEN: usize = 4;

/// The four big-endian bytes of `x`.
pub open spec fn u32_be_bytes(x: u32) -> Seq<u8> {
    seq![
        ((x >> 24u32) & 0xffu32) as u8,
        ((x >> 16u32) & 0xffu32) as u8,
        ((x >> 8u32) & 0xffu32) as u8,
        (x & 0xffu32) as u8,
    ]
}

/// The `u32` whose big-endian bytes are the first four bytes of `b`.
pub open spec fn u32_from_be(b: Seq<u8>) -> u32
    recommends
        b.len() >= 4,
{
    ((b[0] as u32) << 24u32) | ((b[1] as u32) << 16u32) | ((b[2] as u32) << 8u32) | (b[3] as u32)
}

/// Reading back the bytes of a `u32` gives the `u32`.
pub proof fn lemma_u32_be_value_roundtrip(x: u32)
    ensures
        u32_from_be(u32_be_bytes(x)) == x,
{
    assert(
        ((((x >> 24u32) & 0xffu32) as u8) as u32) << 24u32 | ((((x >> 16u32) & 0xffu32) as u8) as u32)
            << 16u32 | ((((x >> 8u32) & 0xffu32) as u8) as u32) << 8u32 | (((x & 0xffu32) as u8)
            as u32) == x
    ) by (bit_vector);
}

/// Writing out the value of four bytes gives the same four bytes.
pub proof fn lemma_u32_be_bytes_roundtrip(b: Seq<u8>)
    requires
        b.len() == 4,
    ensures
        u32_be_bytes(u32_from_be(b)) == b,
{
    let b0 = b[0];
    let b1 = b[1];
    let b2 = b[2];
    let b3 = b[3];
    let x = u32_from_be(b);
    assert(x == ((b0 as u32) << 24u32) | ((b1 as u32) << 16u32) | ((b2 as u32) << 8u32) | (
    b3 as u32));
    assert(((x >> 24u32) & 0xffu32) as u8 == b0 && ((x >> 16u32) & 0xffu32) as u8 == b1 && ((x
        >> 8u32) & 0xffu32) as u8 == b2 && (x & 0xffu32) as u8 == b3) by (bit_vector)
        requires
            x == ((b0 as u32) << 24u32) | ((b1 as u32) << 16u32) | ((b2 as u32) << 8u32) | (
            b3 as u32),
    ;
    assert(u32_be_bytes(x) =~= b);
}

/// The value the header carries for a payload of `n` bytes: `n` taken modulo
/// 2^32, as the cast of a length to `u32` does.
pub open spec fn length_field(n: nat) -> u32 {
    (n % 0x1_0000_0000) as u32
}

/// The frame that carries `payload`.
pub open spec fn frame_of(payload: Seq<u8>) -> Seq<u8> {
    u32_be_bytes(length_field(payload.len())) + payload
}

/// What reading one frame from the start of `stream` yields: the payload and
/// the number of bytes the frame took, or nothing when `stream` ends before
/// the header or before the payload is complete.
pub open spec fn read_frame(stream: Seq<u8>) -> Option<(Seq<u8>, nat)> {
    if stream.len() < 4 {
        None
    } else {
        let n = u32_from_be(stream) as nat;
        if stream.len() < 4 + n {
            None
        } else {
            Some((stream.subrange(4, 4 + n as int), 4 + n))
        }
    }
}

/// Builds the frame that carries `data`: its length as a big-endian `u32`
/// (the length is cut to 32 bits, as a cast does), then `data`.
pub fn encode_frame(data: &[u8]) -> (out: Vec<u8>)
    ensures
        out@ == frame_of(data@),
{
    let n: u64 = data.len() as u64;
    let len: u32 = (n % 0x1_0000_0000u64) as u32;
    let mut out: Vec<u8> = Vec::with_capacity(4);
    out.push(((len >> 24u32) & 0xffu32) as u8);
    out.push(((len >> 16u32) & 0xffu32) as u8);
    out.push(((len >> 8u32) & 0xffu32) as u8);
    out.push((len & 0xffu32) as u8);
    assert(out@ =~= u32_be_bytes(length_field(data@.len())));
    let mut i: usize = 0;
    while i < data.len()
        invariant
            i <= data@.len(),
            out@ == u32_be_bytes(length_field(data@.len())) + data@.subrange(0, i as int),
        decreases data@.len() - i,
    {
        out.push(data[i]);
        i = i + 1;
        assert(data@.subrange(0, i as int) =~= data@.subrange(0, i - 1 as int).push(data@[i - 1]));
    }
    assert(data@.subrange(0, data@.len() as int) =~= data@);
    out
}

/// The payload length that a frame header announces.
pub fn frame_payload_len(header: [u8; 4]) -> (len: usize)
    ensures
        len as nat == u32_from_be(header@) as nat,
{
    let v: u32 = ((header[0] as u32) << 24u32) | ((header[1] as u32) << 16u32) | ((
    header[2] as u32) << 8u32) | (header[3] as u32);
    v as usize
}

/// Reads one frame from the start of `stream`: the payload and the number of
/// bytes that the frame took, or `None` when `stream` ends too early.
pub fn decode_frame(stream: &[u8]) -> (res: Option<(Vec<u8>, usize)>)
    ensures
        match res {
            Some((payload, used)) => read_frame(stream@) == Some((payload@, used as nat)),
            None => read_frame(stream@) is None,
        },
{
    if stream.len() < FRAME_HEADER_LEN {
        return None;
    }
    let header: [u8; 4] = [stream[0], stream[1], stream[2], stream[3]];
    assert(header@ =~= stream@.subrange(0, 4));
    let n = frame_payload_len(header);
    if stream.len() - FRAME_HEADER_LEN < n {
        return None;
    }
    let mut payload: Vec<u8> = Vec::with_capacity(n);
    let mut i: usize = 0;
    while i < n
        invariant
            n + 4 <= stream@.len(),
            stream@.len() == stream.len(),
            i <= n,
            payload@ == stream@.subrange(4, 4 + i as int),
        decreases n - i,
    {
        payload.push(stream[4 + i]);
        i = i + 1;
        assert(stream@.subrange(4, 4 + i as int) =~= stream@.subrange(4, 4 + (i - 1) as int).push(
            stream@[4 + i - 1],
        ));
    }
    Some((payload, n + FRAME_HEADER_LEN))
}

/// A frame read from a stream that starts with the frame of `payload` gives
/// back `payload` and the frame's size, whatever follows it in the stream,
/// for every payload whose length fits in the header.
pub proof fn lemma_frame_roundtrip(payload: Seq<u8>, rest: Seq<u8>)
    requires
        payload.len() <= u32::MAX,
    ensures
        read_frame(frame_of(payload) + rest) == Some((payload, payload.len() + 4)),
{
    let s = frame_of(payload) + rest;
    let h = u32_be_bytes(length_field(payload.len()));
    lemma_u32_be_value_roundtrip(length_field(payload.len()));
    assert(length_field(payload.len()) == payload.len());
    assert(s.subrange(0, 4) =~= h);
    assert(u32_from_be(s) == u32_from_be(h));
    assert(s.subrange(4, 4 + payload.len() as int) =~= payload);
}

/// The header of the frame of `payload` announces the payload's length.
pub proof fn lemma_frame_header_announces_length(payload: Seq<u8>)
    requires
        payload.len() <= u32::MAX,
    ensures
        u32_from_be(frame_of(payload)) as nat == payload.len(),
{
    let h = u32_be_bytes(length_field(payload.len()));
    let s = frame_of(payload);
    lemma_u32_be_value_roundtrip(length_field(payload.len()));
    assert(s[0] == h[0] && s[1] == h[1] && s[2] == h[2] && s[3] == h[3]);
    assert(u32_from_be(s) == u32_from_be(h));
}

} // verus!
