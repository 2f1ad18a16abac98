//! Zero-copy reader-side views into published bytes.

use std::rc::Rc;
use vstd::prelude::*;

verus! {

/// A "blip": an immutable, reader-owned window into bytes that were published
/// by a buffer and handed out by a single extraction.
///
/// The extracted bytes live in reference-counted storage that is immutable
/// after construction; a blip is an index pair into that storage, so splitting
/// a blip with [`Blip::extract_to`] shares the bytes instead of copying them.
///
/// A blip also records which buffer it was extracted from (`source_id`) and
/// whether it is the view that the buffer counts as outstanding (`counted`):
/// every extraction is counted once, the count pins the buffer against being
/// recycled, and releasing the counted view back to the buffer unpins it.
/// Views produced by splitting are not counted a second time.
pub struct Blip {
    data: Rc<Vec<u8>>,
    start: usize,
    end: usize,
    source: usize,
    counted: bool,
}

impl View for Blip {
    type V = Seq<u8>;

    closed spec fn view(&self) -> Seq<u8> {
        self.data@.subrange(self.start as int, self.end as int)
    }
}

impl Blip {
    /// The window lies inside the shared storage.
    pub closed spec fn wf(&self) -> bool {
        self.start <= self.end <= self.data@.len()
    }

    /// Identity of the buffer this view was extracted from.
    pub closed spec fn source_id(&self) -> int {
        self.source as int
    }

    /// Whether this view is the one its source buffer counts as outstanding.
    pub closed spec fn counted(&self) -> bool {
        self.counted
    }

    /// Wrap freshly extracted bytes as the counted view of buffer `source`.
    pub(crate) fn from_bytes(data: Vec<u8>, source: usize) -> (b: Blip)
        ensures
            b.wf(),
            b@ == data@,
            b.source_id() == source,
            b.counted(),
    {
        let end = data.len();
        let b = Blip { data: Rc::new(data), start: 0, end, source, counted: true };
        proof {
            assert(b@ =~= b.data@);
        }
        b
    }

    /// Whether this view was extracted from the buffer with identity `id`.
    pub(crate) fn source_matches(&self, id: usize) -> (r: bool)
        ensures
            r == (self.source_id() == id),
    {
        self.source == id
    }

    /// Index-valued identity of the buffer this view was extracted from.
    pub(crate) fn source_index(&self) -> (n: usize)
        ensures
            n == self.source_id(),
    {
        self.source
    }

    /// Whether this view is the counted one for its source buffer.
    pub(crate) fn is_counted(&self) -> (r: bool)
        ensures
            r == self.counted(),
    {
        self.counted
    }

    /// The number of bytes in the view.
    pub fn len(&self) -> (n: usize)
        requires
            self.wf(),
        ensures
            n == self@.len(),
    {
        self.end - self.start
    }

    /// Read the byte at `i` of the view.
    pub fn get(&self, i: usize) -> (v: u8)
        requires
            self.wf(),
            i < self@.len(),
        ensures
            v == self@[i as int],
    {
        (*self.data)[self.start + i]
    }

    /// Copy the viewed bytes out into a fresh vector.
    pub fn to_vec(&self) -> (out: Vec<u8>)
        requires
            self.wf(),
        ensures
            out@ == self@,
    {
        let len = self.len();
        let mut out: Vec<u8> = Vec::new();
        let mut i: usize = 0;
        while i < len
            invariant
                self.wf(),
                i <= len == self@.len(),
                out@ == self@.subrange(0, i as int),
            decreases len - i,
        {
            out.push(self.get(i));
            proof {
                assert(self@.subrange(0, i + 1 as int) == self@.subrange(0, i as int).push(
                    self@[i as int],
                ));
            }
            i = i + 1;
        }
        proof {
            assert(out@ =~= self@);
        }
        out
    }

    /// Extracts `[0, index)` into a new view which is returned, advancing
    /// `self` in place to cover `[index, len)`.
    ///
    /// Both views share the same underlying storage; no bytes are copied.
    /// The returned prefix is not counted by the source buffer: the advanced
    /// remainder keeps that role.
    pub fn extract_to(&mut self, index: usize) -> (prefix: Blip)
        requires
            old(self).wf(),
            index <= old(self)@.len(),
        ensures
            prefix.wf(),
            final(self).wf(),
            prefix@ == old(self)@.subrange(0, index as int),
            final(self)@ == old(self)@.subrange(index as int, old(self)@.len() as int),
            prefix@ + final(self)@ == old(self)@,
            prefix@.len() == index,
            final(self)@.len() == old(self)@.len() - index,
            prefix.source_id() == old(self).source_id(),
            final(self).source_id() == old(self).source_id(),
            !prefix.counted(),
            final(self).counted() == old(self).counted(),
    {
        let prefix = Blip {
            data: self.data.clone(),
            start: self.start,
            end: self.start + index,
            source: self.source,
            counted: false,
        };
        self.start = self.start + index;
        proof {
            assert(prefix@ =~= old(self)@.subrange(0, index as int));
            assert(self@ =~= old(self)@.subrange(index as int, old(self)@.len() as int));
            assert(prefix@ + self@ =~= old(self)@);
        }
        prefix
    }
}

} // verus!
