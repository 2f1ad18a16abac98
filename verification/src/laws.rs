//! The laws of the single-buffer protocol, stated over the spec-level steps
//! that the buffer operations promise in their contracts.

use crate::buffer::BlipBuf;
use vstd::prelude::*;

verus! {

/// One publish step, as promised by releasing a reservation: `data` is
/// installed at the end of the published region and `valid` advances by its
/// length, while the consumed count stays put.
pub open spec fn publish_step(pre: BlipBuf, post: BlipBuf, data: Seq<u8>) -> bool {
    &&& post.storage() == pre.storage().take(pre.valid()) + data + pre.storage().skip(
        pre.valid() + data.len(),
    )
    &&& post.valid() == pre.valid() + data.len()
    &&& post.extracted() == pre.extracted()
}

/// One extraction step, as promised by `extract_valid`: `out` is the
/// published-but-unextracted window, and the consumed count catches up with
/// the published count; nothing else moves.
pub open spec fn extract_step(pre: BlipBuf, post: BlipBuf, out: Seq<u8>) -> bool {
    &&& out == pre.window()
    &&& post.storage() == pre.storage()
    &&& post.valid() == pre.valid()
    &&& post.extracted() == pre.valid()
}

/// Publishing extends the pending window by exactly the published bytes:
/// everything already pending stays, in order, and `data` follows it.
pub proof fn lemma_publish_extends_window(b0: BlipBuf, b1: BlipBuf, data: Seq<u8>)
    requires
        b0.wf(),
        b0.valid() + data.len() <= b0.storage().len(),
        publish_step(b0, b1, data),
    ensures
        b1.window() == b0.window() + data,
        b1.wf(),
{
    assert(b1.window() =~= b0.window() + data);
}

/// After a release publishes `data`, one extraction yields exactly the bytes
/// pending before it followed by `data` — all published bytes, in order —
/// and a further extraction without an intervening publish yields nothing:
/// each published byte is handed to the reader exactly once.
pub proof fn lemma_publish_then_extract_exact(
    b0: BlipBuf,
    b1: BlipBuf,
    b2: BlipBuf,
    b3: BlipBuf,
    data: Seq<u8>,
    out: Seq<u8>,
    again: Seq<u8>,
)
    requires
        b0.wf(),
        b0.valid() + data.len() <= b0.storage().len(),
        publish_step(b0, b1, data),
        extract_step(b1, b2, out),
        extract_step(b2, b3, again),
    ensures
        out == b0.window() + data,
        again == Seq::<u8>::empty(),
{
    lemma_publish_extends_window(b0, b1, data);
    assert(again =~= Seq::<u8>::empty());
}

/// The protocol bounds that every operation preserves: consumption never
/// overtakes publication, and publication never overruns the storage.
pub proof fn lemma_counter_bounds(b: BlipBuf)
    requires
        b.wf(),
    ensures
        0 <= b.extracted() <= b.valid() <= b.storage().len(),
{
}

/// The delivered bytes of a pass are always a prefix of the published bytes,
/// and what separates them is exactly the pending window: no byte is
/// delivered before it is published, none is delivered twice, and none is
/// skipped.
pub proof fn lemma_delivered_prefix_of_published(b: BlipBuf)
    requires
        b.wf(),
    ensures
        b.delivered().len() <= b.published().len(),
        b.delivered() == b.published().subrange(0, b.delivered().len() as int),
        b.delivered() + b.window() == b.published(),
{
    assert(b.delivered() =~= b.published().subrange(0, b.delivered().len() as int));
    assert(b.delivered() + b.window() =~= b.published());
}

} // verus!
