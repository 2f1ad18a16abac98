//! The multi-buffer stream queue: a pool of buffers chained into one
//! continuous byte stream with recycling.

use crate::blip::Blip;
use crate::buffer::BlipBuf;
use crate::buffer::BlipBufReservation;
use crate::buffer::BlipBufWriter;
use vstd::prelude::*;

verus! {

/// The bytes still in flight: the concatenation, in queue order, of every
/// queued buffer's published-but-unextracted window.
pub open spec fn fifo_bytes(bufs: Seq<BlipBuf>, fifo: Seq<usize>) -> Seq<u8>
    decreases fifo.len(),
{
    if fifo.len() == 0 {
        Seq::empty()
    } else {
        bufs[fifo[0] as int].window() + fifo_bytes(bufs, fifo.drop_first())
    }
}

/// The bytes the next successful `recv` hands out: the window of the oldest
/// queued buffer whose window is not empty.
pub open spec fn next_chunk(bufs: Seq<BlipBuf>, fifo: Seq<usize>) -> Seq<u8>
    decreases fifo.len(),
{
    if fifo.len() == 0 {
        Seq::empty()
    } else if bufs[fifo[0] as int].window().len() > 0 {
        bufs[fifo[0] as int].window()
    } else {
        next_chunk(bufs, fifo.drop_first())
    }
}

/// Buffers that show the same windows at every queued position make the same
/// next chunk.
proof fn lemma_next_chunk_congruence(bufs1: Seq<BlipBuf>, bufs2: Seq<BlipBuf>, fifo: Seq<usize>)
    requires
        forall|j: int|
            0 <= j < fifo.len() ==> bufs1[#[trigger] fifo[j] as int].window()
                == bufs2[fifo[j] as int].window(),
    ensures
        next_chunk(bufs1, fifo) == next_chunk(bufs2, fifo),
    decreases fifo.len(),
{
    if fifo.len() > 0 {
        assert(bufs1[fifo[0] as int].window() == bufs2[fifo[0] as int].window());
        assert forall|j: int|
            0 <= j < fifo.drop_first().len() implies bufs1[#[trigger] fifo.drop_first()[j] as int].window()
            == bufs2[fifo.drop_first()[j] as int].window() by {
            assert(fifo.drop_first()[j] == fifo[j + 1]);
        }
        lemma_next_chunk_congruence(bufs1, bufs2, fifo.drop_first());
    }
}

/// Buffers that show the same windows at every queued position make the same
/// in-flight byte sequence.
proof fn lemma_fifo_bytes_congruence(bufs1: Seq<BlipBuf>, bufs2: Seq<BlipBuf>, fifo: Seq<usize>)
    requires
        forall|j: int|
            0 <= j < fifo.len() ==> bufs1[#[trigger] fifo[j] as int].window()
                == bufs2[fifo[j] as int].window(),
    ensures
        fifo_bytes(bufs1, fifo) == fifo_bytes(bufs2, fifo),
    decreases fifo.len(),
{
    if fifo.len() > 0 {
        assert(bufs1[fifo[0] as int].window() == bufs2[fifo[0] as int].window());
        assert forall|j: int|
            0 <= j < fifo.drop_first().len() implies bufs1[#[trigger] fifo.drop_first()[j] as int].window()
            == bufs2[fifo.drop_first()[j] as int].window() by {
            assert(fifo.drop_first()[j] == fifo[j + 1]);
        }
        lemma_fifo_bytes_congruence(bufs1, bufs2, fifo.drop_first());
    }
}

/// The in-flight bytes split at the last queued buffer.
proof fn lemma_fifo_bytes_split_last(bufs: Seq<BlipBuf>, fifo: Seq<usize>)
    requires
        fifo.len() > 0,
    ensures
        fifo_bytes(bufs, fifo) == fifo_bytes(bufs, fifo.drop_last()) + bufs[fifo.last() as int].window(),
    decreases fifo.len(),
{
    if fifo.len() == 1 {
        assert(fifo.last() == fifo[0]);
        assert(fifo.drop_first().len() == 0);
        assert(fifo.drop_last().len() == 0);
        assert(fifo_bytes(bufs, fifo.drop_first()) =~= Seq::<u8>::empty());
        assert(fifo_bytes(bufs, fifo.drop_last()) =~= Seq::<u8>::empty());
        assert(fifo_bytes(bufs, fifo) == bufs[fifo[0] as int].window() + fifo_bytes(
            bufs,
            fifo.drop_first(),
        ));
        assert(fifo_bytes(bufs, fifo) =~= fifo_bytes(bufs, fifo.drop_last()) + bufs[fifo.last() as int].window());
    } else {
        lemma_fifo_bytes_split_last(bufs, fifo.drop_first());
        assert(fifo.drop_first().drop_last() =~= fifo.drop_last().drop_first());
        assert(fifo.drop_first().last() == fifo.last());
        assert(fifo.drop_last()[0] == fifo[0]);
        assert(fifo_bytes(bufs, fifo) == bufs[fifo[0] as int].window() + (fifo_bytes(
            bufs,
            fifo.drop_last().drop_first(),
        ) + bufs[fifo.last() as int].window()));
        assert(fifo_bytes(bufs, fifo) =~= fifo_bytes(bufs, fifo.drop_last()) + bufs[fifo.last() as int].window());
    }
}

/// A sequence that concatenates with a rest to give `whole` is a prefix of
/// `whole`.
proof fn lemma_concat_is_prefix(prefix: Seq<u8>, rest: Seq<u8>, whole: Seq<u8>)
    requires
        prefix + rest == whole,
    ensures
        prefix.len() <= whole.len(),
        prefix == whole.subrange(0, prefix.len() as int),
{
    assert(prefix =~= whole.subrange(0, prefix.len() as int));
}

/// The state shared between the sender and the receiver: the buffer pool, the
/// FIFO of in-flight buffers, and the ghost history of the byte stream.
///
/// In a deployment this is the state a mutual-exclusion lock would protect;
/// here the protection is explicit: every queue operation takes the shared
/// state by exclusive reference, so sender and receiver steps interleave but
/// never overlap.
///
/// `sent` is every byte published through the queue, in order; `received` is
/// every byte handed out by [`BlipQueueReceiver::recv`], in order. The
/// invariant [`BlipQueueShared::wf`] says that `received` followed by the
/// bytes still in flight is exactly `sent`: the receiver observes the sent
/// stream byte for byte, with no loss, duplication or reordering, and with
/// buffer-pass boundaries invisible.
pub struct BlipQueueShared {
    bufs: Vec<BlipBuf>,
    fifo: Vec<usize>,
    sent: Ghost<Seq<u8>>,
    received: Ghost<Seq<u8>>,
}

impl BlipQueueShared {
    /// The buffer pool; a buffer's identity is its position here.
    pub closed spec fn bufs(&self) -> Seq<BlipBuf> {
        self.bufs@
    }

    /// Pool positions of the in-flight buffers, oldest first.
    pub closed spec fn fifo(&self) -> Seq<usize> {
        self.fifo@
    }

    /// Every byte published through the queue so far, in order.
    pub closed spec fn sent(&self) -> Seq<u8> {
        self.sent@
    }

    /// Every byte handed out by the receiver so far, in order.
    pub closed spec fn received(&self) -> Seq<u8> {
        self.received@
    }

    /// The queue invariant.
    ///
    /// Each pooled buffer is well formed and knows its position; the FIFO
    /// holds valid, pairwise distinct positions; every queued buffer except
    /// possibly the newest is completed; and the received bytes followed by
    /// the in-flight bytes are exactly the sent bytes.
    pub open spec fn wf(&self) -> bool {
        &&& forall|i: int|
            0 <= i < self.bufs().len() ==> (#[trigger] self.bufs()[i]).wf() && self.bufs()[i].id()
                == i
        &&& forall|j: int| 0 <= j < self.fifo().len() ==> (#[trigger] self.fifo()[j]) < self.bufs().len()
        &&& forall|j1: int, j2: int|
            0 <= j1 < j2 < self.fifo().len() ==> #[trigger] self.fifo()[j1] != #[trigger] self.fifo()[j2]
        &&& forall|j: int|
            0 <= j < self.fifo().len() - 1 ==> (#[trigger] self.bufs()[self.fifo()[j] as int]).completed()
        &&& self.received() + fifo_bytes(self.bufs(), self.fifo()) == self.sent()
    }
}

/// The write-side half of a queue: holds the pass state of the buffer
/// currently being filled, if any. Not cloneable: there is exactly one
/// sender.
pub struct BlipQueueSender {
    writer: Option<BlipBufWriter>,
    active: usize,
}

/// The read-side half of a queue. Not cloneable: there is exactly one
/// receiver. It carries no state of its own: everything the receiver needs
/// lives in the shared state, and the value exists to keep the read side in
/// one hand.
pub struct BlipQueueReceiver {}

impl BlipQueueSender {
    /// The writer of the buffer currently being filled, if a pass is open.
    pub closed spec fn writer_spec(&self) -> Option<BlipBufWriter> {
        self.writer
    }

    /// Pool position of the buffer currently being filled; meaningful only
    /// while a pass is open.
    pub closed spec fn active_spec(&self) -> int {
        self.active as int
    }

    /// A pass is open: some buffer is being filled.
    pub open spec fn has_writer(&self) -> bool {
        self.writer_spec() is Some
    }

    /// A reservation handed out by `reserve_send` has not been released yet.
    pub open spec fn has_pending(&self) -> bool {
        self.writer_spec() matches Some(w) && w.pending()
    }

    /// The sender's invariant over the shared state.
    ///
    /// While a pass is open, the buffer being filled is the newest in the
    /// FIFO, it is the only one with a writer, and it is not completed; the
    /// writer's offset agrees with the buffer. With no pass open, no buffer
    /// has a writer and every queued buffer is completed.
    pub open spec fn wf_for(&self, q: BlipQueueShared) -> bool {
        match self.writer_spec() {
            Some(w) => {
                &&& 0 <= self.active_spec() < q.bufs().len()
                &&& q.fifo().len() > 0
                &&& q.fifo().last() as int == self.active_spec()
                &&& q.bufs()[self.active_spec()].writing()
                &&& !q.bufs()[self.active_spec()].completed()
                &&& (!w.pending() ==> w.offset() == q.bufs()[self.active_spec()].valid())
                &&& w.offset() <= q.bufs()[self.active_spec()].storage().len()
                &&& forall|i: int|
                    0 <= i < q.bufs().len() && i != self.active_spec() ==> !(
                    #[trigger] q.bufs()[i]).writing()
            },
            None => {
                &&& forall|i: int| 0 <= i < q.bufs().len() ==> !(#[trigger] q.bufs()[i]).writing()
                &&& forall|j: int|
                    0 <= j < q.fifo().len() ==> (#[trigger] q.bufs()[q.fifo()[j] as int]).completed()
            },
        }
    }

    /// The reservation `r` is the one outstanding from this sender: releasing
    /// it will publish its bytes at the end of the active buffer.
    pub open spec fn outstanding(&self, r: BlipBufReservation, q: BlipQueueShared) -> bool {
        &&& self.writer_spec() matches Some(w) && w.pending() && r.start()
            == q.bufs()[self.active_spec()].valid() && r.start() + r@.len() == w.offset()
    }
}

/// A buffer at pool position `i` can host a fresh pass for a reservation of
/// `len` bytes: it is not in flight, nothing pins it, and it is big enough.
pub open spec fn is_selectable(q: BlipQueueShared, i: int, len: usize) -> bool {
    &&& 0 <= i < q.bufs().len()
    &&& !q.fifo().contains(i as usize)
    &&& q.bufs()[i].views() == 0
    &&& !q.bufs()[i].writing()
    &&& len <= q.bufs()[i].storage().len()
}

/// `reserve_send` can grant a reservation of `len` bytes: either it fits in
/// the buffer currently being filled, or some pooled buffer can host a fresh
/// pass for it.
pub open spec fn can_reserve(s: BlipQueueSender, q: BlipQueueShared, len: usize) -> bool {
    ||| (s.writer_spec() is Some && q.bufs()[s.active_spec()].valid() + len
        <= q.bufs()[s.active_spec()].storage().len())
    ||| exists|i: int| is_selectable(q, i, len)
}

/// Whether `idx` is one of the in-flight pool positions.
fn fifo_contains(fifo: &Vec<usize>, idx: usize) -> (r: bool)
    ensures
        r == fifo@.contains(idx),
{
    let n = fifo.len();
    let mut j: usize = 0;
    while j < n
        invariant
            j <= n == fifo@.len(),
            forall|k: int| 0 <= k < j ==> fifo@[k] != idx,
        decreases n - j,
    {
        if fifo[j] == idx {
            return true;
        }
        j = j + 1;
    }
    false
}

impl BlipQueueSender {
    /// Reserve `len` bytes of the stream for writing.
    ///
    /// If the buffer currently being filled has room, the reservation comes
    /// from it. Otherwise that buffer's pass is completed and retired, and a
    /// pooled buffer that can host a fresh pass is selected, enqueued for the
    /// receiver (once per pass, in publish order), and reserved from — a
    /// reservation never straddles two buffers. If no pooled buffer is free,
    /// `None` reports backpressure: the pool is a fixed resource, and the
    /// caller retries once views have been released. Nothing is published
    /// until the reservation is released.
    pub fn reserve_send(&mut self, q: &mut BlipQueueShared, len: usize) -> (r: Option<
        BlipBufReservation,
    >)
        requires
            old(q).wf(),
            old(self).wf_for(*old(q)),
            !old(self).has_pending(),
        ensures
            final(q).wf(),
            final(self).wf_for(*final(q)),
            final(q).sent() == old(q).sent(),
            final(q).received() == old(q).received(),
            final(q).bufs().len() == old(q).bufs().len(),
            r is Some <==> can_reserve(*old(self), *old(q), len),
            r matches Some(res) ==> final(self).outstanding(res, *final(q)) && res@.len() == len
                && final(self).has_writer()
                && res@ == final(q).bufs()[final(self).active_spec()].storage().subrange(
                res.start(),
                res.start() + len,
            ),
            r is None ==> !final(self).has_pending(),
            r is None ==> final(q).fifo() == old(q).fifo(),
            forall|j: int|
                0 <= j < old(q).fifo().len() ==> final(q).bufs()[
                    #[trigger] old(q).fifo()[j] as int
                ].window() == old(q).bufs()[old(q).fifo()[j] as int].window(),
            r is Some ==> final(q).fifo() == old(q).fifo() || (final(q).fifo() == old(
                q,
            ).fifo().push(final(self).active_spec() as usize)
                && final(q).bufs()[final(self).active_spec()].window() == Seq::<u8>::empty()),
    {
        let ghost mut rolled: bool = false;
        if self.writer.is_some() {
            let idx = self.active;
            let cap = q.bufs[idx].capacity();
            let val = q.bufs[idx].valid_len();
            if len <= cap - val {
                let mut w = self.writer.take().unwrap();
                let b = &mut q.bufs[idx];
                let res = w.reserve(b, len);
                self.writer = Some(w);
                proof {
                    assert(q.bufs() =~= old(q).bufs());
                }
                return res;
            } else {
                let w = self.writer.take().unwrap();
                let b = &mut q.bufs[idx];
                w.complete(b);
                proof {
                    rolled = true;
                    assert forall|j: int| 0 <= j < q.fifo().len() implies old(q).bufs()[
                        #[trigger] q.fifo()[j] as int
                    ].window() == q.bufs()[q.fifo()[j] as int].window() by {}
                    lemma_fifo_bytes_congruence(old(q).bufs(), q.bufs(), q.fifo());
                    assert(q.fifo().contains(idx)) by {
                        assert(q.fifo()[q.fifo().len() - 1] == idx);
                    }
                }
            }
        }
        // No pass is open any more; scan the pool for a buffer that can host
        // a fresh one.
        let ghost mid = *q;
        let n = q.bufs.len();
        let mut i: usize = 0;
        while i < n
            invariant
                i <= n == q.bufs().len(),
                q.wf(),
                self.writer_spec() is None,
                self.wf_for(*q),
                q.bufs() == mid.bufs(),
                q.fifo() == mid.fifo(),
                q.sent() == old(q).sent(),
                q.received() == old(q).received(),
                q.bufs().len() == old(q).bufs().len(),
                forall|k: int| 0 <= k < i ==> !is_selectable(mid, k, len),
                rolled ==> old(self).writer_spec() is Some && mid.bufs().len() == old(
                    q,
                ).bufs().len() && old(q).bufs()[old(self).active_spec()].valid() + len > old(
                    q,
                ).bufs()[old(self).active_spec()].storage().len() && old(q).fifo().contains(
                    old(self).active_spec() as usize,
                ),
                rolled ==> forall|k: int|
                    0 <= k < mid.bufs().len() && k != old(self).active_spec()
                        ==> mid.bufs()[k] == old(q).bufs()[k],
                rolled ==> mid.bufs()[old(self).active_spec()].window() == old(q).bufs()[old(
                    self,
                ).active_spec()].window(),
                !rolled ==> mid.bufs() == old(q).bufs() && old(self).writer_spec() is None,
                mid.fifo() == old(q).fifo(),
            decreases n - i,
        {
            if !fifo_contains(&q.fifo, i) {
                let cap = q.bufs[i].capacity();
                if len <= cap {
                    let b = &mut q.bufs[i];
                    let regenerated = b.try_regenerate();
                    match regenerated {
                        Some(mut w) => {
                            q.fifo.push(i);
                            proof {
                                assert(q.fifo().drop_last() =~= mid.fifo());
                                assert(q.fifo().last() == i);
                                assert(!mid.fifo().contains(i));
                                assert forall|j: int| 0 <= j < mid.fifo().len() implies mid.bufs()[
                                    #[trigger] mid.fifo()[j] as int
                                ].window() == q.bufs()[mid.fifo()[j] as int].window() by {
                                    assert(mid.fifo()[j] != i);
                                }
                                lemma_fifo_bytes_congruence(mid.bufs(), q.bufs(), mid.fifo());
                                lemma_fifo_bytes_split_last(q.bufs(), q.fifo());
                                assert(q.bufs()[i as int].window() =~= Seq::<u8>::empty());
                                assert(fifo_bytes(q.bufs(), q.fifo()) =~= fifo_bytes(
                                    mid.bufs(),
                                    mid.fifo(),
                                ));
                                assert(q.received() + fifo_bytes(q.bufs(), q.fifo()) =~= q.sent());
                                assert forall|j1: int, j2: int|
                                    0 <= j1 < j2 < q.fifo().len() implies q.fifo()[j1]
                                    != q.fifo()[j2] by {
                                    if j2 == q.fifo().len() - 1 {
                                        assert(mid.fifo()[j1] != i);
                                    } else {
                                        assert(mid.fifo()[j1] != mid.fifo()[j2]);
                                    }
                                }
                                assert forall|j: int|
                                    0 <= j < q.fifo().len() - 1 implies (q.bufs()[
                                    #[trigger] q.fifo()[j] as int
                                ]).completed() by {
                                    assert(mid.bufs()[mid.fifo()[j] as int].completed());
                                    assert(mid.fifo()[j] != i);
                                }
                                assert(q.wf());
                            }
                            let ghost qb = q.bufs();
                            let ghost qf = q.fifo();
                            let b2 = &mut q.bufs[i];
                            let res = w.reserve(b2, len);
                            self.active = i;
                            self.writer = Some(w);
                            proof {
                                assert(q.bufs() =~= qb);
                                assert(q.fifo() == qf);
                                assert(q.wf());
                                assert(q.bufs()[i as int].writing());
                                assert forall|k: int|
                                    0 <= k < q.bufs().len() && k != i implies !(
                                #[trigger] q.bufs()[k]).writing() by {
                                    assert(!mid.bufs()[k].writing());
                                }
                                assert(self.wf_for(*q));
                                assert(is_selectable(mid, i as int, len));
                                if rolled {
                                    assert(mid.fifo().contains(old(self).active_spec() as usize));
                                    assert(i as int != old(self).active_spec());
                                    assert(old(q).bufs()[i as int] == mid.bufs()[i as int]);
                                }
                                assert(is_selectable(*old(q), i as int, len));
                                assert(can_reserve(*old(self), *old(q), len));
                                assert forall|j: int|
                                    0 <= j < old(q).fifo().len() implies q.bufs()[
                                    #[trigger] old(q).fifo()[j] as int
                                ].window() == old(q).bufs()[old(q).fifo()[j] as int].window() by {
                                    assert(old(q).fifo()[j] == mid.fifo()[j]);
                                    assert(mid.fifo()[j] != i);
                                }
                            }
                            return res;
                        },
                        None => {
                            proof {
                                assert(q.bufs() =~= mid.bufs());
                            }
                        },
                    }
                }
            }
            i = i + 1;
        }
        proof {
            assert forall|k: int| !is_selectable(*old(q), k, len) by {
                if 0 <= k < mid.bufs().len() {
                    assert(!is_selectable(mid, k, len));
                    if rolled && k == old(self).active_spec() {
                        assert(old(q).fifo().contains(k as usize));
                    }
                }
            }
            assert forall|j: int|
                0 <= j < old(q).fifo().len() implies q.bufs()[
                #[trigger] old(q).fifo()[j] as int
            ].window() == old(q).bufs()[old(q).fifo()[j] as int].window() by {
                assert(old(q).fifo()[j] == mid.fifo()[j]);
            }
        }
        None
    }
}

impl BlipQueueSender {
    /// Release the outstanding reservation: install its bytes at the end of
    /// the active buffer and publish them to the stream.
    ///
    /// Publication is unconditional: the sent stream grows by exactly the
    /// reservation's bytes, written or not, and the received stream stays a
    /// prefix of it.
    pub fn release_send(&mut self, q: &mut BlipQueueShared, res: BlipBufReservation)
        requires
            old(q).wf(),
            old(self).wf_for(*old(q)),
            old(self).outstanding(res, *old(q)),
        ensures
            final(q).wf(),
            final(self).wf_for(*final(q)),
            final(self).has_writer(),
            !final(self).has_pending(),
            final(q).sent() == old(q).sent() + res@,
            final(q).received() == old(q).received(),
            final(q).bufs().len() == old(q).bufs().len(),
            final(q).received().len() <= final(q).sent().len(),
            final(q).received() == final(q).sent().subrange(0, final(q).received().len() as int),
            final(q).fifo() == old(q).fifo(),
            final(self).active_spec() == old(self).active_spec(),
            final(q).bufs()[final(self).active_spec()].window() == old(q).bufs()[old(
                self,
            ).active_spec()].window() + res@,
            forall|j: int|
                0 <= j < old(q).fifo().len() - 1 ==> final(q).bufs()[
                    #[trigger] old(q).fifo()[j] as int
                ].window() == old(q).bufs()[old(q).fifo()[j] as int].window(),
    {
        let idx = self.active;
        let ghost data = res@;
        let mut w = self.writer.take().unwrap();
        let b = &mut q.bufs[idx];
        w.release(b, res);
        self.writer = Some(w);
        q.sent = Ghost(q.sent@ + data);
        proof {
            lemma_fifo_bytes_split_last(old(q).bufs(), old(q).fifo());
            lemma_fifo_bytes_split_last(q.bufs(), q.fifo());
            assert(q.fifo() == old(q).fifo());
            assert(old(q).fifo().last() == idx);
            assert forall|j: int|
                0 <= j < old(q).fifo().drop_last().len() implies old(q).bufs()[
                #[trigger] old(q).fifo().drop_last()[j] as int
            ].window() == q.bufs()[old(q).fifo().drop_last()[j] as int].window() by {
                assert(old(q).fifo().drop_last()[j] == old(q).fifo()[j]);
                assert(old(q).fifo()[j] != old(q).fifo()[old(q).fifo().len() - 1]);
            }
            lemma_fifo_bytes_congruence(old(q).bufs(), q.bufs(), old(q).fifo().drop_last());
            assert(q.bufs()[idx as int].window() == old(q).bufs()[idx as int].window() + data);
            assert(fifo_bytes(q.bufs(), q.fifo()) =~= fifo_bytes(old(q).bufs(), old(q).fifo())
                + data);
            assert(q.received() + fifo_bytes(q.bufs(), q.fifo()) =~= q.sent());
            assert forall|j: int|
                0 <= j < q.fifo().len() - 1 implies (#[trigger] q.bufs()[q.fifo()[j] as int]).completed() by {
                assert(old(q).bufs()[old(q).fifo()[j] as int].completed());
                assert(old(q).fifo()[j] != idx);
            }
            assert(q.wf());
            lemma_concat_is_prefix(
                q.received(),
                fifo_bytes(q.bufs(), q.fifo()),
                q.sent(),
            );
        }
    }
}

impl BlipQueueReceiver {
    /// Pull the next published bytes out of the stream.
    ///
    /// Drains the oldest queued buffer first: fully drained, completed
    /// buffers are retired from the FIFO as they are met (they become
    /// recyclable once their views are released), and the first buffer with
    /// published, unextracted bytes yields them as a view. Returns `None`
    /// exactly when every sent byte has already been received — the signal to
    /// wait for the sender.
    pub fn recv(&mut self, q: &mut BlipQueueShared) -> (r: Option<Blip>)
        requires
            old(q).wf(),
        ensures
            final(q).wf(),
            final(q).sent() == old(q).sent(),
            final(q).bufs().len() == old(q).bufs().len(),
            r matches Some(blip) ==> blip.wf() && blip@.len() > 0 && blip.counted() && 0
                <= blip.source_id() < final(q).bufs().len() && final(q).received() == old(
                q,
            ).received() + blip@ && blip@ == next_chunk(old(q).bufs(), old(q).fifo()),
            r is None ==> final(q).received() == old(q).received() && old(q).received() == old(
                q,
            ).sent(),
            old(q).received() == old(q).sent() ==> r is None,
            final(q).received().len() <= final(q).sent().len(),
            final(q).received() == final(q).sent().subrange(0, final(q).received().len() as int),
    {
        while q.fifo.len() > 0
            invariant
                q.wf(),
                q.sent() == old(q).sent(),
                q.received() == old(q).received(),
                q.bufs().len() == old(q).bufs().len(),
                fifo_bytes(q.bufs(), q.fifo()) == fifo_bytes(old(q).bufs(), old(q).fifo()),
                next_chunk(q.bufs(), q.fifo()) == next_chunk(old(q).bufs(), old(q).fifo()),
            decreases q.fifo@.len(),
        {
            let head = q.fifo[0];
            let ghost pre = *q;
            let b = &mut q.bufs[head];
            let out = b.extract_valid();
            match out.0 {
                Some(blip) => {
                    proof {
                        assert(pre.fifo()[0] == head);
                        assert forall|j: int|
                            0 <= j < pre.fifo().drop_first().len() implies pre.bufs()[
                            #[trigger] pre.fifo().drop_first()[j] as int
                        ].window() == q.bufs()[pre.fifo().drop_first()[j] as int].window() by {
                            assert(pre.fifo().drop_first()[j] == pre.fifo()[j + 1]);
                            assert(pre.fifo()[j + 1] != head);
                        }
                        lemma_fifo_bytes_congruence(pre.bufs(), q.bufs(), pre.fifo().drop_first());
                        assert(q.bufs()[head as int].window() =~= Seq::<u8>::empty());
                        assert(fifo_bytes(q.bufs(), q.fifo()) =~= fifo_bytes(
                            pre.bufs(),
                            pre.fifo().drop_first(),
                        ));
                        assert(blip@ == pre.bufs()[head as int].window());
                        assert(blip@ == next_chunk(pre.bufs(), pre.fifo()));
                    }
                    q.received = Ghost(q.received@ + blip@);
                    proof {
                        assert(fifo_bytes(pre.bufs(), pre.fifo()) == pre.bufs()[head as int].window()
                            + fifo_bytes(pre.bufs(), pre.fifo().drop_first()));
                        assert(q.received() + fifo_bytes(q.bufs(), q.fifo()) =~= q.sent());
                        assert forall|j: int|
                            0 <= j < q.fifo().len() - 1 implies (#[trigger] q.bufs()[q.fifo()[j] as int]).completed() by {
                            assert(pre.bufs()[pre.fifo()[j] as int].completed());
                        }
                        assert(q.wf());
                        lemma_concat_is_prefix(
                            q.received(),
                            fifo_bytes(q.bufs(), q.fifo()),
                            q.sent(),
                        );
                    }
                    return Some(blip);
                },
                None => {
                    if out.1 {
                        proof {
                            assert(pre.bufs()[head as int].window() =~= Seq::<u8>::empty());
                        }
                        q.fifo.remove(0);
                        proof {
                            assert(q.fifo() =~= pre.fifo().drop_first());
                            assert forall|j: int|
                                0 <= j < pre.fifo().drop_first().len() implies pre.bufs()[
                                #[trigger] pre.fifo().drop_first()[j] as int
                            ].window() == q.bufs()[pre.fifo().drop_first()[j] as int].window() by {
                                assert(pre.fifo().drop_first()[j] == pre.fifo()[j + 1]);
                                assert(pre.fifo()[j + 1] != head);
                            }
                            lemma_fifo_bytes_congruence(
                                pre.bufs(),
                                q.bufs(),
                                pre.fifo().drop_first(),
                            );
                            lemma_next_chunk_congruence(
                                pre.bufs(),
                                q.bufs(),
                                pre.fifo().drop_first(),
                            );
                            assert(next_chunk(pre.bufs(), pre.fifo()) == next_chunk(
                                pre.bufs(),
                                pre.fifo().drop_first(),
                            ));
                            assert(next_chunk(q.bufs(), q.fifo()) == next_chunk(
                                pre.bufs(),
                                pre.fifo(),
                            ));
                            assert(fifo_bytes(pre.bufs(), pre.fifo()) == pre.bufs()[head as int].window()
                                + fifo_bytes(pre.bufs(), pre.fifo().drop_first()));
                            assert(fifo_bytes(q.bufs(), q.fifo()) =~= fifo_bytes(
                                pre.bufs(),
                                pre.fifo(),
                            ));
                            assert forall|j1: int, j2: int|
                                0 <= j1 < j2 < q.fifo().len() implies q.fifo()[j1]
                                != q.fifo()[j2] by {
                                assert(pre.fifo()[j1 + 1] != pre.fifo()[j2 + 1]);
                            }
                            assert forall|j: int|
                                0 <= j < q.fifo().len() - 1 implies (#[trigger] q.bufs()[q.fifo()[j] as int]).completed() by {
                                assert(pre.bufs()[pre.fifo()[j + 1] as int].completed());
                            }
                            assert(q.wf());
                        }
                    } else {
                        proof {
                            if pre.fifo().len() > 1 {
                                assert(pre.bufs()[pre.fifo()[0] as int].completed());
                            }
                            assert(pre.fifo().len() == 1);
                            assert(pre.bufs()[head as int].window() =~= Seq::<u8>::empty());
                            assert(fifo_bytes(pre.bufs(), pre.fifo()) == pre.bufs()[head as int].window()
                                + fifo_bytes(pre.bufs(), pre.fifo().drop_first()));
                            assert(pre.fifo().drop_first().len() == 0);
                            assert(fifo_bytes(pre.bufs(), pre.fifo()) =~= Seq::<u8>::empty());
                            assert(q.received() =~= q.sent());
                            assert forall|j: int|
                                0 <= j < pre.fifo().len() implies pre.bufs()[
                                #[trigger] pre.fifo()[j] as int
                            ].window() == q.bufs()[pre.fifo()[j] as int].window() by {}
                            lemma_fifo_bytes_congruence(pre.bufs(), q.bufs(), pre.fifo());
                            assert(q.received() + fifo_bytes(q.bufs(), q.fifo()) =~= q.sent());
                            assert forall|j: int|
                                0 <= j < q.fifo().len() - 1 implies (#[trigger] q.bufs()[q.fifo()[j] as int]).completed() by {
                                assert(pre.bufs()[pre.fifo()[j] as int].completed());
                            }
                            assert(q.wf());
                            lemma_concat_is_prefix(
                                q.received(),
                                fifo_bytes(q.bufs(), q.fifo()),
                                q.sent(),
                            );
                        }
                        return None;
                    }
                },
            }
        }
        proof {
            assert(q.fifo().len() == 0);
            assert(fifo_bytes(q.bufs(), q.fifo()) =~= Seq::<u8>::empty());
            assert(q.received() =~= q.sent());
        }
        None
    }

    /// Hand a received view back so its buffer can eventually be recycled.
    ///
    /// Routes the view to the pooled buffer it was extracted from and drops
    /// it; if it was the counted view, that buffer's count of outstanding
    /// views falls by one. Views from elsewhere and uncounted split prefixes
    /// are simply dropped.
    pub fn release(&mut self, q: &mut BlipQueueShared, blip: Blip)
        requires
            old(q).wf(),
        ensures
            final(q).wf(),
            final(q).sent() == old(q).sent(),
            final(q).received() == old(q).received(),
            final(q).bufs().len() == old(q).bufs().len(),
            0 <= blip.source_id() < old(q).bufs().len() && blip.counted() && old(q).bufs()[blip.source_id()].views()
                > 0 ==> final(q).bufs()[blip.source_id()].views() == old(q).bufs()[blip.source_id()].views()
                - 1,
            final(q).fifo() == old(q).fifo(),
            forall|k: int|
                0 <= k < old(q).bufs().len() ==> (#[trigger] final(q).bufs()[k]).window() == old(
                    q,
                ).bufs()[k].window(),
    {
        let idx = blip.source_index();
        if idx < q.bufs.len() {
            let b = &mut q.bufs[idx];
            b.release_view(blip);
            proof {
                assert forall|j: int|
                    0 <= j < q.fifo().len() implies old(q).bufs()[
                    #[trigger] q.fifo()[j] as int
                ].window() == q.bufs()[q.fifo()[j] as int].window() by {}
                lemma_fifo_bytes_congruence(old(q).bufs(), q.bufs(), q.fifo());
                assert(q.received() + fifo_bytes(q.bufs(), q.fifo()) == q.sent());
                assert(q.wf());
            }
        }
    }
}

/// Connect a pool of buffers into a queue, returning the sender, the
/// receiver, and the shared state both operate on.
///
/// Each buffer is given its pool position as identity. The stream starts
/// empty: nothing sent, nothing received, nothing in flight.
pub fn blip_queue(bufs: Vec<BlipBuf>) -> (r: (BlipQueueSender, BlipQueueReceiver, BlipQueueShared))
    requires
        forall|i: int| 0 <= i < bufs@.len() ==> (#[trigger] bufs@[i]).wf() && !bufs@[i].writing(),
    ensures
        r.2.wf(),
        r.0.wf_for(r.2),
        !r.0.has_writer(),
        !r.0.has_pending(),
        r.2.sent() == Seq::<u8>::empty(),
        r.2.received() == Seq::<u8>::empty(),
        r.2.fifo().len() == 0,
        r.2.bufs().len() == bufs@.len(),
        forall|i: int|
            0 <= i < bufs@.len() ==> (#[trigger] r.2.bufs()[i]).storage() == bufs@[i].storage()
                && r.2.bufs()[i].views() == bufs@[i].views() && r.2.bufs()[i].valid() == bufs@[i].valid()
                && r.2.bufs()[i].extracted() == bufs@[i].extracted() && r.2.bufs()[i].completed()
                == bufs@[i].completed(),
{
    let mut pool = bufs;
    let n = pool.len();
    let mut i: usize = 0;
    while i < n
        invariant
            i <= n == pool@.len(),
            forall|k: int|
                0 <= k < pool@.len() ==> (#[trigger] pool@[k]).wf() && !pool@[k].writing()
                    && pool@[k].storage() == bufs@[k].storage() && pool@[k].views()
                    == bufs@[k].views() && pool@[k].valid() == bufs@[k].valid()
                    && pool@[k].extracted() == bufs@[k].extracted() && pool@[k].completed()
                    == bufs@[k].completed(),
            forall|k: int| 0 <= k < i ==> (#[trigger] pool@[k]).id() == k,
        decreases n - i,
    {
        let b = &mut pool[i];
        b.set_id(i);
        i = i + 1;
    }
    let shared = BlipQueueShared {
        bufs: pool,
        fifo: Vec::new(),
        sent: Ghost(Seq::empty()),
        received: Ghost(Seq::empty()),
    };
    let sender = BlipQueueSender { writer: None, active: 0 };
    let receiver = BlipQueueReceiver {  };
    proof {
        assert(fifo_bytes(shared.bufs(), shared.fifo()) =~= Seq::<u8>::empty());
        assert(shared.received() + fifo_bytes(shared.bufs(), shared.fifo()) =~= shared.sent());
    }
    (sender, receiver, shared)
}

} // verus!
