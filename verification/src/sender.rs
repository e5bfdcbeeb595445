//! The output side of a channel: RGBA→BGRA conversion for the wire, and
//! the non-blocking single-slot handoff to the sender thread. When the
//! previous frame is still being sent, the current frame is dropped: the
//! render loop must never wait on the network.

use vstd::prelude::*;

use crate::frame::Frame;

verus! {

/// The buffer with its first and third channel of every pixel exchanged:
/// RGBA becomes BGRA and back.
pub open spec fn swapped_channels(bytes: Seq<u8>) -> Seq<u8> {
    Seq::new(
        bytes.len(),
        |i: int|
            if i % 4 == 0 {
                bytes[i + 2]
            } else if i % 4 == 2 {
                bytes[i - 2]
            } else {
                bytes[i]
            },
    )
}

/// Swapping channels twice gives back the original bytes.
pub proof fn lemma_swap_involution(bytes: Seq<u8>)
    requires
        bytes.len() % 4 == 0,
    ensures
        swapped_channels(swapped_channels(bytes)) == bytes,
{
    let once = swapped_channels(bytes);
    let twice = swapped_channels(once);
    assert forall|i: int| 0 <= i < bytes.len() implies twice[i] == bytes[i] by {
        if i % 4 == 0 {
            assert((i + 2) % 4 == 2) by (nonlinear_arith)
                requires i % 4 == 0;
            assert(i + 2 < bytes.len()) by (nonlinear_arith)
                requires i % 4 == 0, bytes.len() % 4 == 0, 0 <= i < bytes.len();
        } else if i % 4 == 2 {
            assert((i - 2) % 4 == 0) by (nonlinear_arith)
                requires i % 4 == 2;
        }
    }
    assert(twice =~= bytes);
}

/// Exchange the R and B channel of every pixel, RGBA→BGRA (or back).
pub fn swap_channels(bytes: &Vec<u8>) -> (r: Vec<u8>)
    requires
        bytes@.len() % 4 == 0,
    ensures
        r@ == swapped_channels(bytes@),
{
    let len: usize = bytes.len();
    let mut out: Vec<u8> = Vec::new();
    let mut i: usize = 0;
    while i < len
        invariant
            i <= len,
            i % 4 == 0,
            len % 4 == 0,
            len == bytes@.len(),
            out@.len() == i,
            forall|j: int| 0 <= j < i ==> out@[j] == swapped_channels(bytes@)[j],
        decreases len - i,
    {
        assert(i + 4 <= len) by (nonlinear_arith)
            requires i % 4 == 0, len % 4 == 0, 0 <= i < len;
        out.push(bytes[i + 2]);
        out.push(bytes[i + 1]);
        out.push(bytes[i]);
        out.push(bytes[i + 3]);
        i = i + 4;
        assert forall|j: int| 0 <= j < i implies out@[j] == swapped_channels(bytes@)[j] by {
            if j >= i - 4 {
                assert(j % 4 == j - (i - 4)) by (nonlinear_arith)
                    requires i % 4 == 0, i - 4 <= j < i;
            }
        }
    }
    assert(out@ =~= swapped_channels(bytes@));
    out
}

/// The BGRA wire bytes of a finished canvas.
pub fn bgra_bytes(canvas: &Frame) -> (r: Vec<u8>)
    requires
        canvas.wf(),
    ensures
        r@ == swapped_channels(canvas.data@),
        r@.len() == canvas.data@.len(),
{
    proof {
        vstd::arithmetic::div_mod::lemma_mod_multiples_basic(canvas.pixels(), 4);
        assert(4 * canvas.pixels() == canvas.pixels() * 4);
    }
    swap_channels(&canvas.data)
}

/// The single-slot handoff to the sender thread. Unlike the mailbox, a
/// send into an occupied slot does not overwrite: the new frame is
/// dropped, so a slow consumer never delays the producer.
pub struct SendSlot {
    pub slot: Option<Vec<u8>>,
}

impl SendSlot {
    /// The buffer currently waiting to be sent, if any.
    pub open spec fn view_slot(self) -> Option<Vec<u8>> {
        self.slot
    }

    /// An empty handoff slot.
    pub fn new() -> (r: SendSlot)
        ensures
            r.view_slot() is None,
    {
        SendSlot { slot: None }
    }

    /// Offer a buffer without blocking: accepted exactly when the slot is
    /// free; otherwise the buffer is dropped and the slot is unchanged.
    pub fn try_send(&mut self, buf: Vec<u8>) -> (accepted: bool)
        ensures
            accepted == (old(self).view_slot() is None),
            accepted ==> final(self).view_slot() == Some(buf),
            !accepted ==> final(self).view_slot() == old(self).view_slot(),
    {
        if self.slot.is_none() {
            self.slot = Some(buf);
            true
        } else {
            false
        }
    }

    /// Remove and return the waiting buffer, or none.
    pub fn recv(&mut self) -> (r: Option<Vec<u8>>)
        ensures
            r == old(self).view_slot(),
            final(self).view_slot() is None,
    {
        self.slot.take()
    }
}

/// One call on a send slot, for stating what interleaved histories do.
pub enum SendOp {
    Send,
    Recv,
}

/// Whether the slot is occupied after a history of calls: a send fills a
/// free slot (and is dropped on a full one), a receive empties it.
pub open spec fn slot_occupied(ops: Seq<SendOp>) -> bool
    decreases ops.len(),
{
    if ops.len() == 0 {
        false
    } else {
        match ops.last() {
            SendOp::Send => true,
            SendOp::Recv => false,
        }
    }
}

/// How many sends were accepted: those that found the slot free.
pub open spec fn accepted_sends(ops: Seq<SendOp>) -> int
    decreases ops.len(),
{
    if ops.len() == 0 {
        0
    } else {
        accepted_sends(ops.drop_last()) + match ops.last() {
            SendOp::Send => if slot_occupied(ops.drop_last()) {
                0int
            } else {
                1int
            },
            SendOp::Recv => 0int,
        }
    }
}

/// How many receives delivered a buffer: those that found the slot full.
pub open spec fn delivered_buffers(ops: Seq<SendOp>) -> int
    decreases ops.len(),
{
    if ops.len() == 0 {
        0
    } else {
        delivered_buffers(ops.drop_last()) + match ops.last() {
            SendOp::Recv => if slot_occupied(ops.drop_last()) {
                1int
            } else {
                0int
            },
            SendOp::Send => 0int,
        }
    }
}

/// How many sends there were in all; the excess over the accepted ones
/// was dropped.
pub open spec fn total_sends(ops: Seq<SendOp>) -> int
    decreases ops.len(),
{
    if ops.len() == 0 {
        0
    } else {
        total_sends(ops.drop_last()) + match ops.last() {
            SendOp::Send => 1int,
            SendOp::Recv => 0int,
        }
    }
}

/// Sender backpressure balance: however publish and send rates interleave,
/// the accepted sends are exactly the delivered buffers plus the one still
/// waiting in the slot; every further send was dropped.
pub proof fn lemma_send_slot_balance(ops: Seq<SendOp>)
    ensures
        accepted_sends(ops) == delivered_buffers(ops) + if slot_occupied(ops) {
            1int
        } else {
            0int
        },
        0 <= accepted_sends(ops) <= total_sends(ops),
    decreases ops.len(),
{
    if ops.len() > 0 {
        lemma_send_slot_balance(ops.drop_last());
    }
}

} // verus!
