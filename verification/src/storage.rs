//! Fixed-length owned byte storage.

use vstd::prelude::*;

verus! {

/// Owned, fixed-length byte storage backing one buffer.
///
/// The container handed to [`Buffer::from`] is sequestered here for the whole
/// lifetime of the value: after construction it can no longer be reached as a
/// container, only read and written byte-by-byte through the crate-internal
/// accessors, and its length never changes. This is the deliberate ownership
/// boundary that lets the rest of the crate treat all backing allocations
/// uniformly.
pub struct Buffer {
    bytes: Vec<u8>,
}

impl View for Buffer {
    type V = Seq<u8>;

    closed spec fn view(&self) -> Seq<u8> {
        self.bytes@
    }
}

impl Buffer {
    /// Create a new instance from a byte allocation, taking ownership of it.
    pub fn from(bytes: Vec<u8>) -> (b: Buffer)
        ensures
            b@ == bytes@,
    {
        Buffer { bytes }
    }

    /// The fixed length of the storage, in bytes.
    pub fn len(&self) -> (n: usize)
        ensures
            n == self@.len(),
    {
        self.bytes.len()
    }

    /// Read the byte at `i`.
    pub(crate) fn read_at(&self, i: usize) -> (v: u8)
        requires
            i < self@.len(),
        ensures
            v == self@[i as int],
    {
        self.bytes[i]
    }

    /// Overwrite the byte at `i`.
    pub(crate) fn write_at(&mut self, i: usize, v: u8)
        requires
            i < old(self)@.len(),
        ensures
            final(self)@ == old(self)@.update(i as int, v),
    {
        self.bytes[i] = v;
    }

    /// Copy out the bytes of `[start, end)`.
    pub(crate) fn read_range(&self, start: usize, end: usize) -> (out: Vec<u8>)
        requires
            start <= end <= self@.len(),
        ensures
            out@ == self@.subrange(start as int, end as int),
    {
        let mut out: Vec<u8> = Vec::new();
        let mut i: usize = start;
        while i < end
            invariant
                start <= i <= end <= self@.len(),
                out@ == self@.subrange(start as int, i as int),
            decreases end - i,
        {
            out.push(self.read_at(i));
            proof {
                assert(self@.subrange(start as int, i + 1 as int) == self@.subrange(
                    start as int,
                    i as int,
                ).push(self@[i as int]));
            }
            i = i + 1;
        }
        out
    }

    /// Overwrite `[start, start + data.len())` with the bytes of `data`.
    pub(crate) fn write_range(&mut self, start: usize, data: &Vec<u8>)
        requires
            start + data@.len() <= old(self)@.len(),
        ensures
            final(self)@.len() == old(self)@.len(),
            final(self)@ == old(self)@.take(start as int) + data@ + old(self)@.skip(
                start + data@.len(),
            ),
    {
        let len = data.len();
        let total = self.len();
        let mut i: usize = 0;
        while i < len
            invariant
                i <= len == data@.len(),
                start + len <= total == self@.len(),
                self@.len() == old(self)@.len(),
                forall|j: int| 0 <= j < start ==> self@[j] == old(self)@[j],
                forall|j: int| 0 <= j < i ==> self@[start + j] == data@[j],
                forall|j: int| start + len <= j < self@.len() ==> self@[j] == old(self)@[j],
            decreases len - i,
        {
            self.write_at(start + i, data[i]);
            i = i + 1;
        }
        proof {
            assert(self@ =~= old(self)@.take(start as int) + data@ + old(self)@.skip(
                start + data@.len(),
            ));
        }
    }
}

} // verus!
