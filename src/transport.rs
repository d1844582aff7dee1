//! What each endpoint does with one captured frame and with one received packet.

use vstd::prelude::*;
use crate::cipher::{AudioEncryptor, decrypted_frame, encrypted_frame};
use crate::jitter::{JitterBuffer, after_append};
use crate::mixer::{convert_to_mono, downmixed};

verus! {

/// The packet to send for a captured frame of `channels` interleaved channels.
/// A frame that the volume gate closed on sends nothing; any other is
/// downmixed to mono and encrypted.
pub fn outgoing_packet(
    encryptor: &AudioEncryptor,
    frame: &[i16],
    channels: usize,
    gate_open: bool,
) -> (r: Option<Vec<u8>>)
    requires
        channels >= 1,
        2 * frame@.len() + 32 <= usize::MAX,
    ensures
        gate_open ==> (r matches Some(p) && p@ == encrypted_frame(
            encryptor.key_bytes(),
            downmixed(frame@, channels as nat),
        )),
        !gate_open ==> r is None,
{
    if !gate_open {
        return None;
    }
    let mono = convert_to_mono(frame, channels);
    proof {
        let len = frame@.len();
        let n = channels as nat;
        assert(len / n <= len) by (nonlinear_arith)
            requires n >= 1;
    }
    match encryptor.encrypt(mono.as_slice()) {
        Ok(p) => Some(p),
        Err(_) => None,
    }
}

/// Handles one received packet: a packet that decrypts goes into the
/// playback queue; any other is dropped and leaves the queue as it was.
/// Returns whether the packet was taken.
pub fn accept_packet(encryptor: &AudioEncryptor, queue: &mut JitterBuffer, packet: &[u8]) -> (r:
    bool)
    ensures
        r == (packet@.len() % 16 == 0),
        r ==> final(queue)@ == after_append(
            old(queue)@,
            decrypted_frame(encryptor.key_bytes(), packet@),
        ),
        !r ==> final(queue)@ == old(queue)@,
{
    match encryptor.decrypt(packet) {
        Ok(samples) => {
            queue.append(samples.as_slice());
            true
        },
        Err(_) => false,
    }
}

} // verus!
