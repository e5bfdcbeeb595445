//! The single-slot frame mailbox between one producer and the render loop:
//! `publish` overwrites any unread frame, `take` removes and returns the
//! held frame. Overwrite-and-drop is the intended backpressure: the
//! consumer only ever sees the freshest frame.

use vstd::prelude::*;

use crate::frame::Frame;

verus! {

/// A single-slot holder of the latest published frame. The caller that
/// shares it between threads wraps it in a lock; every operation here is a
/// plain read-modify-write of the one slot.
pub struct Mailbox {
    pub slot: Option<Frame>,
}

impl Mailbox {
    /// The frame currently held, if any.
    pub open spec fn view_slot(self) -> Option<Frame> {
        self.slot
    }

    /// An empty mailbox.
    pub fn new() -> (r: Mailbox)
        ensures
            r.view_slot() is None,
    {
        Mailbox { slot: None }
    }

    /// Publish a frame, replacing any unread one (overwrite semantics).
    pub fn publish(&mut self, f: Frame)
        ensures
            final(self).view_slot() == Some(f),
    {
        self.slot = Some(f);
    }

    /// Atomically remove and return the held frame, or none.
    pub fn take(&mut self) -> (r: Option<Frame>)
        ensures
            r == old(self).view_slot(),
            final(self).view_slot() is None,
    {
        self.slot.take()
    }

    /// Whether a frame is waiting, without taking it.
    pub fn is_full(&self) -> (r: bool)
        ensures
            r == (self.view_slot() is Some),
    {
        self.slot.is_some()
    }
}

/// One call on a mailbox, for stating what interleaved histories do.
pub enum MailboxOp {
    Publish,
    Take,
}

/// The state of the slot after one call: a publish fills it with that
/// call's frame (identified by its position in the history), a take
/// empties it. Mirrors the contracts of `publish` and `take`.
pub open spec fn mailbox_step(op: MailboxOp, idx: int) -> Option<int> {
    match op {
        MailboxOp::Publish => Some(idx),
        MailboxOp::Take => None,
    }
}

/// The slot content (as the index of the publish that filled it) after a
/// history of calls.
pub open spec fn mailbox_slot(ops: Seq<MailboxOp>) -> Option<int>
    decreases ops.len(),
{
    if ops.len() == 0 {
        None
    } else {
        mailbox_step(ops.last(), ops.len() - 1)
    }
}

/// What the take at position `k` of the history returns: the slot content
/// just before it.
pub open spec fn take_result(ops: Seq<MailboxOp>, k: int) -> Option<int> {
    mailbox_slot(ops.take(k))
}

/// A take returns the most recent unread publish: if the take at `k`
/// returns a frame, that frame was published before `k`, no later publish
/// preceded the take, and no take in between read it first.
pub proof fn lemma_take_returns_latest_unread(ops: Seq<MailboxOp>, k: int)
    requires
        0 <= k < ops.len(),
        ops[k] is Take,
        take_result(ops, k) is Some,
    ensures
        ops[take_result(ops, k)->0] is Publish,
        0 <= take_result(ops, k)->0 < k,
        forall|m: int| take_result(ops, k)->0 < m < k ==> !(#[trigger] ops[m] is Publish),
        forall|m: int| take_result(ops, k)->0 < m < k ==> !(#[trigger] ops[m] is Take),
{
    let t = ops.take(k);
    if t.len() > 0 {
        assert(t.last() == ops[k - 1]);
    }
}

/// No frame is returned twice: two takes that both return a frame return
/// frames from two different publishes.
pub proof fn lemma_no_frame_returned_twice(ops: Seq<MailboxOp>, k1: int, k2: int)
    requires
        0 <= k1 < k2 < ops.len(),
        ops[k1] is Take,
        ops[k2] is Take,
        take_result(ops, k1) is Some,
        take_result(ops, k2) is Some,
    ensures
        take_result(ops, k1)->0 != take_result(ops, k2)->0,
{
    lemma_take_returns_latest_unread(ops, k1);
    lemma_take_returns_latest_unread(ops, k2);
    let j1 = take_result(ops, k1)->0;
    let j2 = take_result(ops, k2)->0;
    if j1 == j2 {
        // the take at k1 lies strictly between the publish j2 and the
        // take k2, which the take at k2 rules out
        assert(j2 < k1 < k2);
        assert(!(ops[k1] is Take));
    }
}

} // verus!
