//! What goes on the wire for one message: its bytes sealed by the sending
//! channel, in a frame.
use crate::criptare::{ChannelError, ChannelSecure, MAX_PLAINTEXT_LEN, sealed_packet, sealing_step};
use crate::frame::{lemma_frame_roundtrip, read_frame};
use crate::frame::{encode_frame, frame_of};
use vstd::prelude::*;

verus! {

/// The packet inside a frame that `seal_for_wire` returned (all but the
/// four header bytes), or nothing when it failed.
pub open spec fn wire_packet(res: Result<Vec<u8>, ChannelError>) -> Option<Seq<u8>> {
    match res {
        Ok(f) => Some(f@.subrange(4, f@.len() as int)),
        Err(_) => None,
    }
}

/// Seals `payload` as the channel's next packet and frames the packet. On
/// success the channel's packet number goes up by one; on failure (a
/// payload longer than 2^36 bytes) nothing changes.
pub fn seal_for_wire(channel: &mut ChannelSecure, payload: &[u8]) -> (res: Result<
    Vec<u8>,
    ChannelError,
>)
    requires
        old(channel).counter() < u64::MAX,
    ensures
        res is Ok <==> payload@.len() <= MAX_PLAINTEXT_LEN,
        final(channel).key() == old(channel).key(),
        final(channel).direction() == old(channel).direction(),
        res matches Ok(f) ==> f@ == frame_of(
            sealed_packet(old(channel).key(), old(channel).direction(), old(channel).counter(), payload@),
        ) && final(channel).counter() == old(channel).counter() + 1,
        res matches Ok(f) ==> f@.len() == payload@.len() + 28,
        res matches Ok(f) ==> (payload@.len() + 24 <= u32::MAX ==> read_frame(f@) == Some(
            (
                sealed_packet(
                    old(channel).key(),
                    old(channel).direction(),
                    old(channel).counter(),
                    payload@,
                ),
                f@.len() as nat,
            ),
        )),
        res matches Err(e) ==> e == ChannelError::Encrypt && final(channel).counter() == old(
            channel,
        ).counter(),
        sealing_step(*old(channel), *final(channel), payload@, wire_packet(res)),
{
    match channel.encrypt(payload) {
        Ok(packet) => {
            let f = encode_frame(&packet);
            proof {
                assert(f@.subrange(4, f@.len() as int) =~= packet@);
                if packet@.len() <= u32::MAX {
                    lemma_frame_roundtrip(packet@, Seq::empty());
                    assert(frame_of(packet@) + Seq::<u8>::empty() =~= frame_of(packet@));
                }
            }
            Ok(f)
        },
        Err(e) => Err(e),
    }
}

} // verus!
