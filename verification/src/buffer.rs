//! A byte ring with separate read and write cursors over one contiguous
//! allocation. Unread bytes live in `[read..write)`; free space for new
//! bytes lives in `[write..capacity)`. Consuming compacts the unread bytes
//! back to the origin once the read cursor passes half the capacity, so
//! append and consume stay amortized linear.

use vstd::prelude::*;
use vstd::slice::slice_subrange;

verus! {

/// A single-producer/single-consumer byte buffer with contiguous read and
/// write regions, compaction, and on-demand growth.
///
/// The view `self@` is the sequence of unread bytes.
pub struct Buffer {
    pub read: usize,
    pub write: usize,
    pub buf: Vec<u8>,
}

impl View for Buffer {
    type V = Seq<u8>;

    open spec fn view(&self) -> Seq<u8> {
        self.buf@.subrange(self.read as int, self.write as int)
    }
}

impl Buffer {
    /// Cursor ordering: `read <= write <= capacity`.
    pub open spec fn wf(&self) -> bool {
        self.read <= self.write <= self.buf@.len()
    }

    /// Total bytes of backing storage.
    pub open spec fn spec_cap(&self) -> int {
        self.buf@.len() as int
    }

    /// Bytes of free space after the write cursor.
    pub open spec fn spec_space(&self) -> int {
        self.spec_cap() - self.write
    }

    /// A buffer with `cap` bytes of zeroed storage and no unread bytes.
    pub fn with_capacity(cap: usize) -> (r: Buffer)
        ensures
            r.wf(),
            r@ =~= Seq::<u8>::empty(),
            r.spec_cap() == cap,
            r.read == 0,
            r.write == 0,
    {
        let mut v: Vec<u8> = Vec::new();
        while v.len() < cap
            invariant
                v@.len() <= cap,
            decreases cap - v@.len(),
        {
            v.push(0);
        }
        Buffer { read: 0, write: 0, buf: v }
    }

    /// The unread bytes, as one contiguous slice.
    pub fn data_slice(&self) -> (r: &[u8])
        requires
            self.wf(),
        ensures
            r@ == self@,
    {
        slice_subrange(self.buf.as_slice(), self.read, self.write)
    }

    /// Current capacity of the backing storage.
    pub fn cap(&self) -> (r: usize)
        ensures
            r == self.spec_cap(),
    {
        self.buf.len()
    }

    /// Number of unread bytes.
    pub fn data_len(&self) -> (r: usize)
        requires
            self.wf(),
        ensures
            r == self@.len(),
    {
        self.write - self.read
    }

    /// Number of free bytes after the write cursor.
    pub fn space_len(&self) -> (r: usize)
        requires
            self.wf(),
        ensures
            r == self.spec_space(),
    {
        self.buf.len() - self.write
    }

    /// True when no unread bytes remain.
    pub fn is_empty(&self) -> (r: bool)
        requires
            self.wf(),
        ensures
            r == (self@.len() == 0),
    {
        self.data_len() == 0
    }

    /// Slide the unread bytes to the front of the storage.
    fn move_to_begin(&mut self)
        requires
            old(self).wf(),
        ensures
            final(self).wf(),
            final(self)@ == old(self)@,
            final(self).spec_cap() == old(self).spec_cap(),
            final(self).read == 0,
            final(self).write == old(self)@.len(),
    {
        let len: usize = self.write - self.read;
        let mut i: usize = 0;
        while i < len
            invariant
                old(self).wf(),
                len == old(self).write - old(self).read,
                i <= len,
                self.read == old(self).read,
                self.write == old(self).write,
                self.buf@.len() == old(self).buf@.len(),
                forall|j: int| 0 <= j < i ==> self.buf@[j] == old(self).buf@[old(self).read + j],
                forall|j: int|
                    i <= j < self.buf@.len() ==> self.buf@[j] == old(self).buf@[j],
            decreases len - i,
        {
            let b: u8 = self.buf[self.read + i];
            self.buf[i] = b;
            i += 1;
        }
        self.read = 0;
        self.write = len;
        proof {
            assert(self@ =~= old(self)@);
        }
    }

    /// Grow the storage (with zeroed bytes) so that the capacity is at
    /// least `cap`. Never shrinks, and never moves the cursors.
    fn reserve(&mut self, cap: usize)
        requires
            old(self).wf(),
        ensures
            final(self).wf(),
            final(self)@ == old(self)@,
            final(self).read == old(self).read,
            final(self).write == old(self).write,
            final(self).spec_cap() >= old(self).spec_cap(),
            final(self).spec_cap() >= cap,
    {
        while self.buf.len() < cap
            invariant
                old(self).wf(),
                self.read == old(self).read,
                self.write == old(self).write,
                self.buf@.len() >= old(self).buf@.len(),
                forall|j: int|
                    0 <= j < old(self).buf@.len() ==> self.buf@[j] == old(self).buf@[j],
            decreases cap - self.buf@.len(),
        {
            self.buf.push(0);
        }
        proof {
            assert(self@ =~= old(self)@);
        }
    }

    /// Grow so that at least `more` free bytes follow the write cursor.
    fn reserve_more(&mut self, more: usize)
        requires
            old(self).wf(),
            old(self).write + more <= usize::MAX,
        ensures
            final(self).wf(),
            final(self)@ == old(self)@,
            final(self).read == old(self).read,
            final(self).write == old(self).write,
            final(self).spec_cap() >= old(self).spec_cap(),
            final(self).spec_space() >= more,
    {
        let cap: usize = self.write + more;
        self.reserve(cap);
    }

    /// Advance the read cursor past `len` consumed bytes. When the buffer
    /// drains empty both cursors snap to the origin; when the read cursor
    /// passes half the capacity the unread bytes are compacted. Free space
    /// never decreases.
    pub fn skip_read(&mut self, len: usize)
        requires
            old(self).wf(),
            len <= old(self)@.len(),
        ensures
            final(self).wf(),
            final(self)@ == old(self)@.skip(len as int),
            final(self).spec_cap() == old(self).spec_cap(),
            final(self).spec_space() >= old(self).spec_space(),
            (len == old(self)@.len() ==> final(self).read == 0 && final(self).write == 0),
    {
        self.read = self.read + len;
        if self.is_empty_internal() {
            self.write = 0;
            self.read = 0;
            proof {
                assert(self@ =~= old(self)@.skip(len as int));
            }
        } else if self.read >= self.cap() - self.read {
            self.move_to_begin();
            proof {
                assert(self@ =~= old(self)@.skip(len as int));
            }
        } else {
            proof {
                assert(self@ =~= old(self)@.skip(len as int));
            }
        }
    }

    /// `skip_read` under the name the framing layer uses.
    pub fn consume(&mut self, amt: usize)
        requires
            old(self).wf(),
            amt <= old(self)@.len(),
        ensures
            final(self).wf(),
            final(self)@ == old(self)@.skip(amt as int),
            final(self).spec_cap() == old(self).spec_cap(),
            final(self).spec_space() >= old(self).spec_space(),
            (amt == old(self)@.len() ==> final(self).read == 0 && final(self).write == 0),
    {
        self.skip_read(amt);
    }

    /// Copy out and consume up to `n` unread bytes: the consumed prefix
    /// is returned, and the cursor moves past it.
    pub fn read_into(&mut self, n: usize) -> (r: Vec<u8>)
        requires
            old(self).wf(),
        ensures
            final(self).wf(),
            ({
                let m = if n <= old(self)@.len() {
                    n as int
                } else {
                    old(self)@.len() as int
                };
                r@ == old(self)@.take(m) && final(self)@ == old(self)@.skip(m)
            }),
            final(self).spec_cap() == old(self).spec_cap(),
            final(self).spec_space() >= old(self).spec_space(),
    {
        let len: usize = self.data_len();
        let m: usize = if n < len {
            n
        } else {
            len
        };
        let r: Vec<u8> = vstd::slice::slice_to_vec(
            vstd::slice::slice_subrange(self.data_slice(), 0, m),
        );
        self.skip_read(m);
        proof {
            assert(r@ =~= old(self)@.take(m as int));
        }
        r
    }

    fn is_empty_internal(&self) -> (r: bool)
        requires
            self.wf(),
        ensures
            r == (self@.len() == 0),
    {
        self.write == self.read
    }

    /// Advance the write cursor past `len` bytes that were already placed
    /// in the free region.
    pub fn done_write(&mut self, len: usize)
        requires
            old(self).wf(),
            len <= old(self).spec_space(),
        ensures
            final(self).wf(),
            final(self)@ == old(self)@ + old(self).buf@.subrange(
                old(self).write as int,
                old(self).write + len,
            ),
            final(self).spec_cap() == old(self).spec_cap(),
            final(self).read == old(self).read,
            final(self).write == old(self).write + len,
    {
        let cap: usize = self.buf.len();
        proof {
            assert(self.write + len <= cap);
        }
        self.write = self.write + len;
        proof {
            assert(self@ =~= old(self)@ + old(self).buf@.subrange(
                old(self).write as int,
                old(self).write + len,
            ));
        }
    }

    /// Append `data` after the unread bytes, compacting and growing as
    /// needed. Capacity never decreases.
    pub fn write_bytes(&mut self, data: &[u8])
        requires
            old(self).wf(),
            old(self)@.len() + data@.len() <= usize::MAX,
        ensures
            final(self).wf(),
            final(self)@ == old(self)@ + data@,
            final(self).spec_cap() >= old(self).spec_cap(),
    {
        let len: usize = data.len();
        if self.space_len() < len {
            self.move_to_begin();
            self.reserve_more(len);
        }
        let ghost pre = *self;
        let mut i: usize = 0;
        while i < len
            invariant
                i <= len,
                len == data@.len(),
                pre.wf(),
                pre.write + len <= pre.buf@.len(),
                self.read == pre.read,
                self.write == pre.write,
                self.buf@.len() == pre.buf@.len(),
                forall|j: int| 0 <= j < pre.write ==> self.buf@[j] == pre.buf@[j],
                forall|j: int| 0 <= j < i ==> self.buf@[pre.write + j] == data@[j],
            decreases len - i,
        {
            let cap: usize = self.buf.len();
            let w: usize = self.write;
            self.buf[w + i] = data[i];
            i += 1;
        }
        proof {
            assert(self@ =~= pre@);
            assert(pre@ == old(self)@);
        }
        self.done_write(len);
        proof {
            assert(self@ =~= old(self)@ + data@);
        }
    }
}

} // verus!
