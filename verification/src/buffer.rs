//! A byte buffer of fixed capacity, used to stage one chunk of a stream.

use vstd::prelude::*;

verus! {

/// Up to `capacity` bytes of a stream, held between the source and the sink.
///
/// The buffer never grows beyond the capacity it was created with, so the memory
/// that a pipeline holds does not depend on the length of the stream.
pub struct ChunkBuffer {
    data: Vec<u8>,
    capacity: usize,
}

impl View for ChunkBuffer {
    type V = Seq<u8>;

    closed spec fn view(&self) -> Seq<u8> {
        self.data@
    }
}

impl ChunkBuffer {
    /// The buffer holds no more than its capacity.
    pub closed spec fn wf(self) -> bool {
        self.data@.len() <= self.capacity
    }

    /// The number of bytes that the buffer can hold.
    pub closed spec fn spec_capacity(self) -> nat {
        self.capacity as nat
    }

    /// Creates an empty buffer for up to `capacity` bytes.
    pub fn new(capacity: usize) -> (buffer: ChunkBuffer)
        ensures
            buffer.wf(),
            buffer@ == Seq::<u8>::empty(),
            buffer.spec_capacity() == capacity,
    {
        ChunkBuffer { data: Vec::new(), capacity }
    }

    /// Returns the number of bytes that the buffer can hold.
    pub fn capacity(&self) -> (capacity: usize)
        ensures
            capacity == self.spec_capacity(),
    {
        self.capacity
    }

    /// Returns the number of bytes staged.
    pub fn len(&self) -> (len: usize)
        ensures
            len == self@.len(),
    {
        self.data.len()
    }

    /// Stages bytes from the front of `source` until the buffer is full or the
    /// source is used up, and returns how many bytes were taken.
    pub fn fill(&mut self, source: &[u8]) -> (taken: usize)
        requires
            old(self).wf(),
        ensures
            final(self).wf(),
            final(self).spec_capacity() == old(self).spec_capacity(),
            taken as int == if source@.len() <= old(self).spec_capacity() - old(self)@.len() {
                source@.len() as int
            } else {
                old(self).spec_capacity() - old(self)@.len()
            },
            final(self)@ == old(self)@ + source@.take(taken as int),
    {
        let room: usize = self.capacity - self.data.len();
        let count: usize = if source.len() <= room {
            source.len()
        } else {
            room
        };
        let mut i: usize = 0;
        while i < count
            invariant
                i <= count,
                count <= source@.len(),
                self.capacity == old(self).capacity,
                old(self).data@.len() + count <= self.capacity,
                self.data@ == old(self).data@ + source@.take(i as int),
            decreases count - i,
        {
            self.data.push(source[i]);
            i = i + 1;
        }
        count
    }

    /// Returns whether the buffer holds as many bytes as it can.
    pub fn is_full(&self) -> (full: bool)
        ensures
            full <==> self@.len() == self.spec_capacity(),
    {
        self.data.len() == self.capacity
    }

    /// Writes every staged byte to the end of `sink` and leaves the buffer empty.
    pub fn flush(&mut self, sink: &mut Vec<u8>)
        requires
            old(self).wf(),
        ensures
            final(self).wf(),
            final(self).spec_capacity() == old(self).spec_capacity(),
            final(self)@ == Seq::<u8>::empty(),
            final(sink)@ == old(sink)@ + old(self)@,
    {
        let mut i: usize = 0;
        while i < self.data.len()
            invariant
                i <= self.data@.len(),
                self.data@ == old(self).data@,
                self.capacity == old(self).capacity,
                sink@ == old(sink)@ + self.data@.take(i as int),
            decreases self.data@.len() - i,
        {
            sink.push(self.data[i]);
            i = i + 1;
        }
        self.data.clear();
    }

    /// Drops every staged byte.
    pub fn clear(&mut self)
        requires
            old(self).wf(),
        ensures
            final(self).wf(),
            final(self).spec_capacity() == old(self).spec_capacity(),
            final(self)@ == Seq::<u8>::empty(),
    {
        self.data.clear();
    }

    /// Returns a copy of the `count` bytes that start at `start`.
    pub fn copy_out(&self, start: usize, count: usize) -> (bytes: Vec<u8>)
        requires
            start + count <= self@.len(),
        ensures
            bytes@ == self@.subrange(start as int, start + count),
    {
        let len: usize = self.data.len();
        let mut bytes: Vec<u8> = Vec::new();
        let mut i: usize = 0;
        while i < count
            invariant
                i <= count,
                start + count <= len,
                len == self.data@.len(),
                bytes@ == self.data@.subrange(start as int, start + i),
            decreases count - i,
        {
            bytes.push(self.data[start + i]);
            i = i + 1;
        }
        bytes
    }

    /// Replaces the staged bytes that start at `start` by `bytes`.
    pub fn overwrite(&mut self, start: usize, bytes: &[u8])
        requires
            old(self).wf(),
            start + bytes@.len() <= old(self)@.len(),
        ensures
            final(self).wf(),
            final(self).spec_capacity() == old(self).spec_capacity(),
            final(self)@ == old(self)@.take(start as int) + bytes@ + old(self)@.skip(
                start + bytes@.len(),
            ),
    {
        let len: usize = self.data.len();
        let mut i: usize = 0;
        while i < bytes.len()
            invariant
                i <= bytes@.len(),
                start + bytes@.len() <= len,
                len == self.data@.len(),
                self.capacity == old(self).capacity,
                self.data@.len() == old(self).data@.len(),
                self.data@ == old(self).data@.take(start as int) + bytes@.take(i as int) + old(
                    self,
                ).data@.skip(start + i),
            decreases bytes@.len() - i,
        {
            self.data.set(start + i, bytes[i]);
            i = i + 1;
        }
    }

    /// Removes the last `count` staged bytes and returns them.
    pub fn split_last(&mut self, count: usize) -> (bytes: Vec<u8>)
        requires
            old(self).wf(),
            count <= old(self)@.len(),
        ensures
            final(self).wf(),
            final(self).spec_capacity() == old(self).spec_capacity(),
            final(self)@ == old(self)@.take(old(self)@.len() - count),
            bytes@ == old(self)@.skip(old(self)@.len() - count),
    {
        let keep: usize = self.data.len() - count;
        let bytes = self.copy_out(keep, count);
        self.data.truncate(keep);
        bytes
    }
}

/// Appends the bytes of `source` to `target`.
pub fn copy_bytes(source: &[u8], target: &mut Vec<u8>)
    ensures
        final(target)@ == old(target)@ + source@,
{
    let mut i: usize = 0;
    while i < source.len()
        invariant
            i <= source@.len(),
            target@ == old(target)@ + source@.take(i as int),
        decreases source@.len() - i,
    {
        target.push(source[i]);
        i = i + 1;
    }
}

} // verus!
