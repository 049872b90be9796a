//! Reconstruction of the PCM sample stream from sequenced audio packets.
//!
//! Packets carry a strictly incrementing, wrapping sequence number. A gap
//! in that sequence means packets were lost; since the protocol has no
//! retransmission, the decoder inserts one packet's worth of silent
//! samples per detected gap so the fixed-cadence reader keeps pace, then
//! feeds the packet's interleaved samples to the jitter buffer.

use crate::protocol::AudioStream;
use crate::ringbuffer::{lemma_push_all_snoc, spec_push_all, RingBuffer};
use vstd::prelude::*;

verus! {

/// Silent samples inserted for one detected sequence gap: one packet's
/// worth of interleaved stereo samples.
pub const SILENCE_SAMPLES: usize = 384;

/// The sequence number expected after `seq`, wrapping at the 16-bit
/// boundary.
pub open spec fn wrapping_next(seq: u16) -> u16 {
    if seq == 0xFFFF {
        0
    } else {
        (seq + 1) as u16
    }
}

/// Whether a packet numbered `seq` reveals a loss, given the previously
/// processed number: true exactly when a predecessor exists and `seq` is
/// not its direct successor.
pub open spec fn gap_before(prev: Option<u16>, seq: u16) -> bool {
    match prev {
        Some(p) => seq != wrapping_next(p),
        None => false,
    }
}

/// `n` silent (zero-valued) samples.
pub open spec fn silence(n: nat) -> Seq<i16> {
    Seq::new(n, |i: int| 0i16)
}

/// The stereo pairs flattened in interleaved order: left then right.
pub open spec fn interleaved(pairs: Seq<(i16, i16)>) -> Seq<i16> {
    Seq::new(
        2 * pairs.len(),
        |i: int|
            if i % 2 == 0 {
                pairs[i / 2].0
            } else {
                pairs[i / 2].1
            },
    )
}

/// Everything one packet contributes to the jitter buffer: silence first
/// when a gap was detected, then the packet's samples.
pub open spec fn decoded_samples(prev: Option<u16>, seq: u16, pairs: Seq<(i16, i16)>) -> Seq<i16> {
    if gap_before(prev, seq) {
        silence(SILENCE_SAMPLES as nat) + interleaved(pairs)
    } else {
        interleaved(pairs)
    }
}

/// Detects packet loss via sequence continuity and converts packets into
/// the sample stream handed to a jitter buffer.
pub struct AudioDecoder {
    previous_seq: Option<u16>,
}

impl AudioDecoder {
    /// The sequence number of the last processed packet, if any.
    pub closed spec fn last_seq(&self) -> Option<u16> {
        self.previous_seq
    }

    /// A fresh decoder: no packet processed yet, so the first packet can
    /// never be taken for a gap.
    pub fn new() -> (decoder: Self)
        ensures
            decoder.last_seq() is None,
    {
        AudioDecoder { previous_seq: None }
    }

    /// Feeds one parsed packet: pushes silence for a detected gap, then the
    /// packet's samples in interleaved order, and records its sequence
    /// number.
    pub fn process(&mut self, packet: &AudioStream, buffer: &mut RingBuffer<i16>)
        ensures
            final(self).last_seq() == Some(packet.seq),
            final(buffer)@ == spec_push_all(
                old(buffer)@,
                old(buffer).capacity(),
                decoded_samples(old(self).last_seq(), packet.seq, packet.data@),
            ),
            final(buffer).capacity() == old(buffer).capacity(),
            final(buffer).threshold() == old(buffer).threshold(),
            old(buffer).wf() ==> final(buffer).wf(),
    {
        let ghost initial = buffer@;
        let ghost cap = buffer.capacity();
        let gap = match self.previous_seq {
            Some(p) => {
                let expected: u16 = if p == 0xFFFF {
                    0
                } else {
                    p + 1
                };
                packet.seq != expected
            },
            None => false,
        };
        let ghost lead = if gap {
            silence(SILENCE_SAMPLES as nat)
        } else {
            Seq::<i16>::empty()
        };
        if gap {
            for n in 0..SILENCE_SAMPLES
                invariant
                    buffer@ == spec_push_all(initial, cap, silence(n as nat)),
                    buffer.capacity() == cap,
                    buffer.threshold() == old(buffer).threshold(),
                    old(buffer).wf() ==> buffer.wf(),
            {
                buffer.push(0i16);
                proof {
                    lemma_push_all_snoc(initial, cap, silence(n as nat), 0i16);
                    assert(silence(n as nat).push(0i16) =~= silence((n + 1) as nat));
                }
            }
        }
        proof {
            assert(buffer@ == spec_push_all(initial, cap, lead));
            assert(lead + interleaved(packet.data@.take(0)) =~= lead);
        }
        self.previous_seq = Some(packet.seq);
        for k in 0..packet.data.len()
            invariant
                buffer@ == spec_push_all(initial, cap, lead + interleaved(packet.data@.take(k as int))),
                buffer.capacity() == cap,
                buffer.threshold() == old(buffer).threshold(),
                old(buffer).wf() ==> buffer.wf(),
        {
            let pair = packet.data[k];
            let ghost before = lead + interleaved(packet.data@.take(k as int));
            buffer.push(pair.0);
            buffer.push(pair.1);
            proof {
                lemma_push_all_snoc(initial, cap, before, pair.0);
                lemma_push_all_snoc(initial, cap, before.push(pair.0), pair.1);
                assert(lead + interleaved(packet.data@.take(k + 1)) =~= before.push(pair.0).push(
                    pair.1,
                ));
            }
        }
        proof {
            assert(packet.data@.take(packet.data@.len() as int) =~= packet.data@);
            assert(lead + interleaved(packet.data@) =~= decoded_samples(
                old(self).last_seq(),
                packet.seq,
                packet.data@,
            ));
        }
    }
}

} // verus!
