//! Reassembly of complete video frames from per-line packets.
//!
//! A stream may be joined mid-frame, so the assembler starts in a warm-up
//! state and discards every payload — including the one carrying the first
//! end-of-frame marker — until that first marker has been seen. From then
//! on payloads are accumulated in arrival order and a frame is emitted
//! whenever a marker packet completes it.

use crate::protocol::{is_end_of_frame, VideoStream};
use vstd::prelude::*;

verus! {

/// Abstract effect of feeding one packet (its `line` field and payload) to
/// an assembler in state `(synced, pending)`: the successor state and the
/// frame emitted, if any.
pub open spec fn asm_step(synced: bool, pending: Seq<u8>, line: u16, payload: Seq<u8>) -> (
    bool,
    Seq<u8>,
    Option<Seq<u8>>,
) {
    if !synced {
        (is_end_of_frame(line), pending, None)
    } else if is_end_of_frame(line) {
        (true, Seq::<u8>::empty(), Some(pending + payload))
    } else {
        (true, pending + payload, None)
    }
}

/// Abstract effect of feeding a sequence of packets, collecting every
/// emitted frame in order.
pub open spec fn asm_run(synced: bool, pending: Seq<u8>, pkts: Seq<(u16, Seq<u8>)>) -> (
    bool,
    Seq<u8>,
    Seq<Seq<u8>>,
)
    decreases pkts.len(),
{
    if pkts.len() == 0 {
        (synced, pending, Seq::<Seq<u8>>::empty())
    } else {
        let step = asm_step(synced, pending, pkts.first().0, pkts.first().1);
        let rest = asm_run(step.0, step.1, pkts.drop_first());
        let frames = match step.2 {
            Some(frame) => seq![frame] + rest.2,
            None => rest.2,
        };
        (rest.0, rest.1, frames)
    }
}

/// The payloads of `pkts` concatenated in arrival order.
pub open spec fn concat_payloads(pkts: Seq<(u16, Seq<u8>)>) -> Seq<u8>
    decreases pkts.len(),
{
    if pkts.len() == 0 {
        Seq::<u8>::empty()
    } else {
        pkts.first().1 + concat_payloads(pkts.drop_first())
    }
}

/// The emitted frame as a sequence, for relating an exec result to
/// [`asm_step`].
pub open spec fn frame_view(frame: Option<Vec<u8>>) -> Option<Seq<u8>> {
    match frame {
        Some(f) => Some(f@),
        None => None,
    }
}

/// Accumulates video packet payloads into whole frames.
pub struct FrameAssembler {
    first_run: bool,
    frame_data: Vec<u8>,
}

impl FrameAssembler {
    /// Whether the warm-up period has ended: an end-of-frame marker has
    /// been seen, so the next payloads belong to a frame whose start was
    /// not missed.
    pub closed spec fn synced(&self) -> bool {
        !self.first_run
    }

    /// The payload bytes accumulated for the frame in progress.
    pub closed spec fn pending(&self) -> Seq<u8> {
        self.frame_data@
    }

    /// A fresh assembler: in warm-up, with nothing accumulated.
    pub fn new() -> (assembler: Self)
        ensures
            !assembler.synced(),
            assembler.pending() == Seq::<u8>::empty(),
    {
        FrameAssembler { first_run: true, frame_data: Vec::new() }
    }

    /// Feeds one parsed packet; returns the completed frame when the packet
    /// carries the end-of-frame marker and the warm-up period is over.
    pub fn process(&mut self, packet: &VideoStream) -> (frame: Option<Vec<u8>>)
        ensures
            (final(self).synced(), final(self).pending(), frame_view(frame)) == asm_step(
                old(self).synced(),
                old(self).pending(),
                packet.line,
                packet.data@,
            ),
            !old(self).synced() ==> frame is None && final(self).pending() == old(self).pending()
                && final(self).synced() == is_end_of_frame(packet.line),
            old(self).synced() && !is_end_of_frame(packet.line) ==> frame is None
                && final(self).pending() == old(self).pending() + packet.data@,
            old(self).synced() && is_end_of_frame(packet.line) ==> (frame matches Some(f) && f@
                == old(self).pending() + packet.data@) && final(self).pending()
                == Seq::<u8>::empty(),
    {
        let end = packet.end_of_frame();
        if self.first_run {
            if end {
                self.first_run = false;
            }
            return None;
        }
        for i in 0..packet.data.len()
            invariant
                self.frame_data@ == old(self).pending() + packet.data@.take(i as int),
                !self.first_run,
        {
            self.frame_data.push(packet.data[i]);
            proof {
                assert(packet.data@.take(i + 1) =~= packet.data@.take(i as int).push(
                    packet.data@[i as int],
                ));
            }
        }
        proof {
            assert(packet.data@.take(packet.data@.len() as int) =~= packet.data@);
        }
        if end {
            let mut frame = Vec::<u8>::new();
            std::mem::swap(&mut frame, &mut self.frame_data);
            Some(frame)
        } else {
            None
        }
    }
}

/// Law: during warm-up every packet is fully discarded — nothing is
/// emitted and nothing is accumulated; the marker only ends the warm-up.
pub proof fn lemma_warmup_discards_payload(pending: Seq<u8>, line: u16, payload: Seq<u8>)
    ensures
        asm_step(false, pending, line, payload).1 == pending,
        asm_step(false, pending, line, payload).2 is None,
        asm_step(false, pending, line, payload).0 == is_end_of_frame(line),
{
}

/// Law: when a stream starts mid-frame, the packet carrying the first
/// end-of-frame marker contributes nothing: the run continues exactly as a
/// synced run over the remaining packets, so only the next completed frame
/// is emitted.
pub proof fn lemma_first_marker_packet_discarded(pkts: Seq<(u16, Seq<u8>)>)
    requires
        pkts.len() >= 1,
        is_end_of_frame(pkts.first().0),
    ensures
        asm_run(false, Seq::<u8>::empty(), pkts) == asm_run(
            true,
            Seq::<u8>::empty(),
            pkts.drop_first(),
        ),
{
}

/// Law: before the first marker arrives, a warming-up assembler emits no
/// frame at all, however many packets it is fed.
pub proof fn lemma_warmup_emits_no_frame(pkts: Seq<(u16, Seq<u8>)>)
    requires
        forall|i: int| 0 <= i < pkts.len() ==> !is_end_of_frame(#[trigger] pkts[i].0),
    ensures
        asm_run(false, Seq::<u8>::empty(), pkts).2 == Seq::<Seq<u8>>::empty(),
    decreases pkts.len(),
{
    if pkts.len() > 0 {
        assert(!is_end_of_frame(pkts[0].0));
        lemma_warmup_emits_no_frame(pkts.drop_first());
        assert(forall|i: int|
            0 <= i < pkts.drop_first().len() ==> !is_end_of_frame(
                #[trigger] pkts.drop_first()[i].0,
            ));
    }
}

/// Law: a synced assembler fed packets of which exactly the last carries
/// the end-of-frame marker emits exactly one frame: the pending bytes
/// followed by all payloads in arrival order, and starts the next frame
/// empty.
pub proof fn lemma_single_marker_emits_one_frame(pending: Seq<u8>, pkts: Seq<(u16, Seq<u8>)>)
    requires
        pkts.len() >= 1,
        forall|i: int| 0 <= i < pkts.len() - 1 ==> !is_end_of_frame(#[trigger] pkts[i].0),
        is_end_of_frame(pkts.last().0),
    ensures
        asm_run(true, pending, pkts) == (
            true,
            Seq::<u8>::empty(),
            seq![pending + concat_payloads(pkts)],
        ),
    decreases pkts.len(),
{
    let first = pkts.first();
    if pkts.len() == 1 {
        reveal_with_fuel(asm_run, 2);
        reveal_with_fuel(concat_payloads, 2);
        assert(pkts.last() == first);
        assert(pending + concat_payloads(pkts) =~= pending + first.1);
        assert(asm_run(true, pending, pkts).2 =~= seq![pending + concat_payloads(pkts)]);
    } else {
        assert(!is_end_of_frame(first.0));
        let rest = pkts.drop_first();
        assert(forall|i: int|
            0 <= i < rest.len() - 1 ==> !is_end_of_frame(#[trigger] rest[i].0)) by {
            assert(forall|i: int|
                0 <= i < rest.len() - 1 ==> rest[i] == pkts[i + 1] && !is_end_of_frame(
                    #[trigger] pkts[i + 1].0,
                ));
        }
        assert(rest.last() == pkts.last());
        lemma_single_marker_emits_one_frame(pending + first.1, rest);
        assert((pending + first.1) + concat_payloads(rest) =~= pending + concat_payloads(pkts));
    }
}

} // verus!
