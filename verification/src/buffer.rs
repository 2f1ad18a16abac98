//! The single-buffer publish/consume/recycle protocol.

use crate::blip::Blip;
use crate::storage::Buffer;
use vstd::prelude::*;

verus! {

/// Per-buffer state: the backing storage plus the counters of the
/// publish/consume protocol for one write pass.
///
/// `valid` counts the bytes published so far, `extracted` the bytes already
/// handed to the reader, and `completed` says that no more data will be
/// published in this pass. The protocol invariant is
/// `extracted <= valid <= storage length`.
pub struct BlipBufInternal {
    buf: Buffer,
    valid: usize,
    extracted: usize,
    completed: bool,
}

/// A buffer: the shared state of one backing allocation, together with the
/// bookkeeping that gates recycling.
///
/// `views` counts the outstanding counted [`Blip`]s extracted from this buffer
/// and not yet released back; `writing` says that a [`BlipBufWriter`] for the
/// current pass is outstanding. A new pass can begin only when neither holds,
/// which is what makes recycling safe: no reader view and no writer can still
/// refer to the storage being reset.
pub struct BlipBuf {
    internal: BlipBufInternal,
    views: usize,
    writing: bool,
    id: usize,
}

impl BlipBuf {
    /// The bytes of the backing storage.
    pub closed spec fn storage(&self) -> Seq<u8> {
        self.internal.buf@
    }

    /// Bytes published so far in this pass.
    pub closed spec fn valid(&self) -> int {
        self.internal.valid as int
    }

    /// Bytes already handed to the reader in this pass.
    pub closed spec fn extracted(&self) -> int {
        self.internal.extracted as int
    }

    /// No more data will be published in this pass.
    pub closed spec fn completed(&self) -> bool {
        self.internal.completed
    }

    /// Outstanding counted views extracted from this buffer.
    pub closed spec fn views(&self) -> int {
        self.views as int
    }

    /// A writer for the current pass is outstanding.
    pub closed spec fn writing(&self) -> bool {
        self.writing
    }

    /// Identity used to match released views back to their buffer.
    pub closed spec fn id(&self) -> int {
        self.id as int
    }

    /// The protocol invariant: consumption never overtakes publication, and
    /// publication never overruns the storage.
    pub open spec fn wf(&self) -> bool {
        0 <= self.extracted() <= self.valid() <= self.storage().len()
    }

    /// The published-but-not-yet-extracted window of bytes.
    pub open spec fn window(&self) -> Seq<u8> {
        self.storage().subrange(self.extracted(), self.valid())
    }

    /// Every byte published in this pass so far, in publish order.
    pub open spec fn published(&self) -> Seq<u8> {
        self.storage().subrange(0, self.valid())
    }

    /// Every byte already handed to the reader in this pass, in order.
    pub open spec fn delivered(&self) -> Seq<u8> {
        self.storage().subrange(0, self.extracted())
    }

    /// Create an empty buffer over `buf`: nothing published, nothing
    /// extracted, not completed, no outstanding views or writer.
    pub fn new(buf: Buffer) -> (b: BlipBuf)
        ensures
            b.wf(),
            b.storage() == buf@,
            b.valid() == 0,
            b.extracted() == 0,
            !b.completed(),
            b.views() == 0,
            !b.writing(),
            b.id() == 0,
    {
        BlipBuf {
            internal: BlipBufInternal { buf, valid: 0, extracted: 0, completed: false },
            views: 0,
            writing: false,
            id: 0,
        }
    }

    /// The fixed length of the backing storage.
    pub fn capacity(&self) -> (n: usize)
        ensures
            n == self.storage().len(),
    {
        self.internal.buf.len()
    }

    /// Bytes published so far in this pass.
    pub fn valid_len(&self) -> (n: usize)
        ensures
            n == self.valid(),
    {
        self.internal.valid
    }

    /// Bytes already handed to the reader in this pass.
    pub fn extracted_len(&self) -> (n: usize)
        ensures
            n == self.extracted(),
    {
        self.internal.extracted
    }

    /// Whether the writer has marked this pass completed.
    pub fn is_completed(&self) -> (r: bool)
        ensures
            r == self.completed(),
    {
        self.internal.completed
    }

    /// The number of counted views outstanding.
    pub fn outstanding_views(&self) -> (n: usize)
        ensures
            n == self.views(),
    {
        self.views
    }

    /// Give the buffer the identity `id`; used when a pool is assembled.
    pub(crate) fn set_id(&mut self, id: usize)
        ensures
            final(self).id() == id,
            final(self).storage() == old(self).storage(),
            final(self).valid() == old(self).valid(),
            final(self).extracted() == old(self).extracted(),
            final(self).completed() == old(self).completed(),
            final(self).views() == old(self).views(),
            final(self).writing() == old(self).writing(),
    {
        self.id = id;
    }

    /// Consume every byte published so far: advances `extracted` to `valid`
    /// and hands the newly consumed bytes out as a view, together with the
    /// `completed` flag observed.
    ///
    /// Repeating the call without an intervening publish yields nothing: each
    /// published byte is extracted exactly once.
    ///
    /// The count of outstanding views saturates rather than wrap.
    pub fn extract_valid(&mut self) -> (r: (Option<Blip>, bool))
        requires
            old(self).wf(),
        ensures
            final(self).wf(),
            final(self).storage() == old(self).storage(),
            final(self).valid() == old(self).valid(),
            final(self).completed() == old(self).completed(),
            final(self).writing() == old(self).writing(),
            final(self).id() == old(self).id(),
            final(self).extracted() == old(self).valid(),
            final(self).extracted() >= old(self).extracted(),
            final(self).window().len() == 0,
            r.1 == old(self).completed(),
            final(self).delivered() == final(self).published(),
            final(self).published() == old(self).published(),
            old(self).extracted() < old(self).valid() ==> (r.0 matches Some(blip) && blip.wf()
                && blip@ == old(self).window() && final(self).delivered() == old(self).delivered()
                + blip@ && blip.source_id() == old(self).id()
                && blip.counted() && final(self).views() == if old(self).views() < usize::MAX {
                old(self).views() + 1
            } else {
                old(self).views()
            }),
            old(self).extracted() == old(self).valid() ==> r.0 is None && final(self).views()
                == old(self).views(),
    {
        let completed = self.internal.completed;
        let end = self.internal.valid;
        let start = self.internal.extracted;
        self.internal.extracted = end;
        proof {
            assert(self.delivered() =~= self.published());
            assert(self.delivered() =~= old(self).delivered() + old(self).window());
        }
        if end - start > 0 {
            let bytes = self.internal.buf.read_range(start, end);
            if self.views < usize::MAX {
                self.views = self.views + 1;
            }
            (Some(Blip::from_bytes(bytes, self.id)), completed)
        } else {
            (None, completed)
        }
    }

    /// Attempt to reset the buffer for a new write pass.
    ///
    /// Succeeds exactly when no counted view and no writer is outstanding; it
    /// then resets the counters, clears `completed`, and yields the fresh
    /// pass's exclusive writer. Otherwise it returns `None` and changes
    /// nothing: contention on recycling is an expected, recoverable condition.
    pub fn try_regenerate(&mut self) -> (r: Option<BlipBufWriter>)
        requires
            old(self).wf(),
        ensures
            final(self).wf(),
            final(self).storage() == old(self).storage(),
            final(self).id() == old(self).id(),
            final(self).views() == old(self).views(),
            r is Some <==> old(self).views() == 0 && !old(self).writing(),
            r matches Some(w) ==> final(self).valid() == 0 && final(self).extracted() == 0
                && !final(self).completed() && final(self).writing() && w.offset() == 0
                && !w.pending(),
            r is None ==> *final(self) == *old(self),
    {
        if self.views == 0 && !self.writing {
            self.internal.valid = 0;
            self.internal.extracted = 0;
            self.internal.completed = false;
            self.writing = true;
            Some(BlipBufWriter { reserved: 0, pending: false })
        } else {
            None
        }
    }

    /// Hand a view back to the buffer it was extracted from.
    ///
    /// If the view is the counted one for this buffer, the count of
    /// outstanding views drops by one; a view from another buffer, an
    /// uncounted split prefix, or a stray release leaves the count unchanged.
    pub fn release_view(&mut self, view: Blip)
        requires
            old(self).wf(),
        ensures
            final(self).wf(),
            final(self).storage() == old(self).storage(),
            final(self).valid() == old(self).valid(),
            final(self).extracted() == old(self).extracted(),
            final(self).completed() == old(self).completed(),
            final(self).writing() == old(self).writing(),
            final(self).id() == old(self).id(),
            view.source_id() == old(self).id() && view.counted() && old(self).views() > 0
                ==> final(self).views() == old(self).views() - 1,
            !(view.source_id() == old(self).id() && view.counted() && old(self).views() > 0)
                ==> final(self).views() == old(self).views(),
    {
        if view.source_matches(self.id) && view.is_counted() && self.views > 0 {
            self.views = self.views - 1;
        }
    }
}

/// Exclusive, non-cloneable write-side handle for one pass of one buffer.
///
/// `reserved` is the writer's running offset: the end of everything reserved
/// so far in this pass. `pending` says that a reservation is outstanding and
/// must be released before the next one is granted.
pub struct BlipBufWriter {
    reserved: usize,
    pending: bool,
}

/// A scoped, exclusive write grant covering `[start, start + len)` of a
/// buffer's storage.
///
/// The grant holds a private working copy of that range; writes go to the
/// copy, and releasing the reservation installs the copy and publishes its
/// length. Publication is unconditional on release: a reservation that was
/// never written still advances `valid` by its length, and the reader then
/// observes whatever the storage previously held in that range — a
/// reservation publishes length, not content validity.
pub struct BlipBufReservation {
    start: usize,
    data: Vec<u8>,
}

impl View for BlipBufReservation {
    type V = Seq<u8>;

    closed spec fn view(&self) -> Seq<u8> {
        self.data@
    }
}

impl BlipBufReservation {
    /// Offset of the reserved range in the buffer's storage.
    pub closed spec fn start(&self) -> int {
        self.start as int
    }

    /// The length of the reserved range.
    pub fn len(&self) -> (n: usize)
        ensures
            n == self@.len(),
    {
        self.data.len()
    }

    /// Read the byte at `i` of the reserved range.
    pub fn get(&self, i: usize) -> (v: u8)
        requires
            i < self@.len(),
        ensures
            v == self@[i as int],
    {
        self.data[i]
    }

    /// Write the byte at `i` of the reserved range.
    pub fn write_at(&mut self, i: usize, v: u8)
        requires
            i < old(self)@.len(),
        ensures
            final(self)@ == old(self)@.update(i as int, v),
            final(self).start() == old(self).start(),
    {
        self.data[i] = v;
    }

    /// Fill the whole reserved range with `v`.
    pub fn fill(&mut self, v: u8)
        ensures
            final(self)@.len() == old(self)@.len(),
            forall|j: int| 0 <= j < final(self)@.len() ==> final(self)@[j] == v,
            final(self).start() == old(self).start(),
    {
        let len = self.data.len();
        let mut i: usize = 0;
        while i < len
            invariant
                i <= len == self@.len(),
                forall|j: int| 0 <= j < i ==> self@[j] == v,
                self.start() == old(self).start(),
            decreases len - i,
        {
            self.data[i] = v;
            i = i + 1;
        }
    }

    /// Overwrite the whole reserved range with the bytes of `src`.
    pub fn copy_from(&mut self, src: &Vec<u8>)
        requires
            src@.len() == old(self)@.len(),
        ensures
            final(self)@ == src@,
            final(self).start() == old(self).start(),
    {
        let len = self.data.len();
        let mut i: usize = 0;
        while i < len
            invariant
                i <= len == self@.len(),
                src@.len() == len,
                forall|j: int| 0 <= j < i ==> self@[j] == src@[j],
                self.start() == old(self).start(),
            decreases len - i,
        {
            self.data[i] = src[i];
            i = i + 1;
        }
        proof {
            assert(self@ =~= src@);
        }
    }
}

impl BlipBufWriter {
    /// The writer's running reserved offset.
    pub closed spec fn offset(&self) -> int {
        self.reserved as int
    }

    /// A reservation is outstanding.
    pub closed spec fn pending(&self) -> bool {
        self.pending
    }

    /// Reserve the next `len` bytes of the buffer for writing.
    ///
    /// Succeeds exactly when `len` bytes remain unreserved in the storage;
    /// asking for more fails with `None` and changes nothing, rather than
    /// granting an out-of-bounds range. The reservation starts out as a copy
    /// of the storage it covers, and nothing is published until it is
    /// released.
    ///
    /// The writer must be the one that the buffer's current pass yielded: its
    /// running offset equals the buffer's published count whenever no
    /// reservation is pending, which is what the precondition states.
    pub fn reserve(&mut self, buf: &mut BlipBuf, len: usize) -> (r: Option<BlipBufReservation>)
        requires
            old(buf).wf(),
            old(buf).writing(),
            !old(self).pending(),
            old(self).offset() == old(buf).valid(),
        ensures
            *final(buf) == *old(buf),
            r is Some <==> old(buf).valid() + len <= old(buf).storage().len(),
            r matches Some(res) ==> res.start() == old(buf).valid() && res@.len() == len
                && res@ == old(buf).storage().subrange(
                old(buf).valid(),
                old(buf).valid() + len,
            ) && final(self).pending() && final(self).offset() == old(self).offset() + len
                && final(self).offset() <= old(buf).storage().len(),
            r is None ==> *final(self) == *old(self),
    {
        let cap = buf.internal.buf.len();
        if len <= cap - self.reserved {
            let data = self.internal_snapshot(buf, len);
            let start = self.reserved;
            self.reserved = self.reserved + len;
            self.pending = true;
            Some(BlipBufReservation { start, data })
        } else {
            None
        }
    }

    /// Copy of the storage range about to be reserved.
    fn internal_snapshot(&self, buf: &BlipBuf, len: usize) -> (data: Vec<u8>)
        requires
            self.offset() + len <= buf.storage().len(),
        ensures
            data@ == buf.storage().subrange(self.offset(), self.offset() + len),
    {
        let cap = buf.internal.buf.len();
        assert(self.reserved + len <= cap);
        buf.internal.buf.read_range(self.reserved, self.reserved + len)
    }

    /// Release a reservation: install its bytes and publish its length.
    ///
    /// This is the sole mechanism that advances `valid`; the
    /// published-but-unextracted window grows by exactly the reservation's
    /// bytes, and everything already published stays as it was.
    pub fn release(&mut self, buf: &mut BlipBuf, r: BlipBufReservation)
        requires
            old(buf).wf(),
            old(buf).writing(),
            old(self).pending(),
            r.start() == old(buf).valid(),
            r.start() + r@.len() == old(self).offset(),
            old(self).offset() <= old(buf).storage().len(),
        ensures
            final(buf).wf(),
            final(buf).storage().len() == old(buf).storage().len(),
            final(buf).storage() == old(buf).storage().take(r.start()) + r@
                + old(buf).storage().skip(r.start() + r@.len()),
            final(buf).valid() == old(buf).valid() + r@.len(),
            final(buf).valid() >= old(buf).valid(),
            final(buf).extracted() == old(buf).extracted(),
            final(buf).completed() == old(buf).completed(),
            final(buf).views() == old(buf).views(),
            final(buf).writing(),
            final(buf).id() == old(buf).id(),
            final(buf).window() == old(buf).window() + r@,
            final(buf).published() == old(buf).published() + r@,
            final(buf).delivered() == old(buf).delivered(),
            !final(self).pending(),
            final(self).offset() == old(self).offset(),
    {
        let len = r.data.len();
        buf.internal.buf.write_range(r.start, &r.data);
        buf.internal.valid = r.start + len;
        self.pending = false;
        proof {
            assert(buf.window() =~= old(buf).window() + r@);
            assert(buf.published() =~= old(buf).published() + r@);
            assert(buf.delivered() =~= old(buf).delivered());
        }
    }

    /// End the writer's pass: set the buffer's `completed` flag and give up
    /// the exclusive writer, so that the pass can later be recycled.
    pub fn complete(self, buf: &mut BlipBuf)
        requires
            old(buf).wf(),
            old(buf).writing(),
            !self.pending(),
        ensures
            final(buf).wf(),
            final(buf).storage() == old(buf).storage(),
            final(buf).valid() == old(buf).valid(),
            final(buf).extracted() == old(buf).extracted(),
            final(buf).completed(),
            final(buf).views() == old(buf).views(),
            !final(buf).writing(),
            final(buf).id() == old(buf).id(),
            final(buf).window() == old(buf).window(),
    {
        buf.internal.completed = true;
        buf.writing = false;
    }
}

} // verus!
