//! A byte FIFO over caller-provided storage that wraps around at the end of the storage.
use vstd::prelude::*;

verus! {

/// Position of the `k`-th stored byte when the oldest byte sits at `head`.
pub open spec fn ring_pos(head: int, k: int, cap: int) -> int {
    if head + k < cap {
        head + k
    } else {
        head + k - cap
    }
}

/// A FIFO of bytes stored in a borrowed buffer, wrapping around its end.
pub struct RingBuffer<'a> {
    data: &'a mut [u8],
    head: usize,
    count: usize,
}

impl<'a> RingBuffer<'a> {
    /// The size of the backing storage.
    pub closed spec fn capacity(&self) -> nat {
        (*self.data)@.len()
    }

    /// The raw backing storage.
    pub closed spec fn storage(&self) -> Seq<u8> {
        (*self.data)@
    }

    /// Index of the oldest stored byte in the backing storage.
    pub closed spec fn head(&self) -> nat {
        self.head as nat
    }

    /// The invariant of the ring: the oldest byte lies inside the storage and no more bytes
    /// are stored than fit.
    pub closed spec fn wf(&self) -> bool {
        &&& self.count <= (*self.data)@.len()
        &&& (self.head < (*self.data)@.len() || (self.head == 0 && (*self.data)@.len() == 0))
    }

    /// The stored bytes, oldest first.
    pub closed spec fn contents(&self) -> Seq<u8> {
        Seq::new(
            self.count as nat,
            |i: int| (*self.data)@[ring_pos(self.head as int, i, (*self.data)@.len() as int)],
        )
    }

    /// Create an empty ring over `buffer`.
    pub fn new(buffer: &'a mut [u8]) -> (r: Self)
        ensures
            r.wf(),
            r.contents() == Seq::<u8>::empty(),
            r.capacity() == old(buffer)@.len(),
            r.storage() == old(buffer)@,
    {
        RingBuffer { data: buffer, head: 0, count: 0 }
    }

    /// Drop every stored byte.
    pub fn clear(&mut self)
        requires
            old(self).wf(),
        ensures
            final(self).wf(),
            final(self).contents() == Seq::<u8>::empty(),
            final(self).capacity() == old(self).capacity(),
    {
        self.head = 0;
        self.count = 0;
    }

    /// Append `data` if it fits in the free space; otherwise leave the ring unchanged and hand
    /// `data` back.
    pub fn push_slice<'b>(&mut self, data: &'b [u8]) -> (r: Option<&'b [u8]>)
        requires
            old(self).wf(),
            old(self).capacity() > 0,
        ensures
            final(self).wf(),
            final(self).capacity() == old(self).capacity(),
            old(self).capacity() - old(self).contents().len() < data@.len() ==> {
                &&& r == Some(data)
                &&& final(self).contents() == old(self).contents()
            },
            old(self).capacity() - old(self).contents().len() >= data@.len() ==> {
                &&& r is None
                &&& final(self).contents() == old(self).contents() + data@
            },
    {
        let cap = self.data.len();
        if cap - self.count < data.len() {
            return Some(data);
        }
        let ghost before = self.contents();
        let n = data.len();
        let mut i: usize = 0;
        while i < n
            invariant
                cap == (*self.data)@.len(),
                cap > 0,
                self.head < cap,
                self.count + n <= cap,
                i <= n,
                n == data@.len(),
                before.len() == self.count,
                forall|k: int|
                    0 <= k < self.count ==> #[trigger] (*self.data)@[ring_pos(
                        self.head as int,
                        k,
                        cap as int,
                    )] == before[k],
                forall|k: int|
                    0 <= k < i ==> #[trigger] (*self.data)@[ring_pos(
                        self.head as int,
                        self.count + k,
                        cap as int,
                    )] == data@[k],
            decreases n - i,
        {
            let k = self.count + i;
            let idx = if k < cap - self.head {
                self.head + k
            } else {
                k - (cap - self.head)
            };
            self.data[idx] = data[i];
            assert forall|j: int| 0 <= j < self.count implies #[trigger] (*self.data)@[ring_pos(
                self.head as int,
                j,
                cap as int,
            )] == before[j] by {
                assert(ring_pos(self.head as int, j, cap as int) != idx);
            }
            assert forall|j: int| 0 <= j < i + 1 implies #[trigger] (*self.data)@[ring_pos(
                self.head as int,
                self.count + j,
                cap as int,
            )] == data@[j] by {
                if j < i {
                    assert(ring_pos(self.head as int, self.count + j, cap as int) != idx);
                }
            }
            i = i + 1;
        }
        self.count = self.count + n;
        assert(self.contents() =~= before + data@) by {
            assert forall|k: int| 0 <= k < self.count implies #[trigger] self.contents()[k] == (
            before + data@)[k] by {
                if k >= before.len() {
                    assert((*self.data)@[ring_pos(
                        self.head as int,
                        before.len() + (k - before.len()),
                        cap as int,
                    )] == data@[k - before.len()]);
                }
            }
        }
        None
    }

    /// The stored bytes from `offset` on, at most `max_len` of them, as the part up to the
    /// end of the storage and the part that wrapped around to its start.
    ///
    /// The number of bytes handed out is `min(max_len, len())`, counted from `offset`.
    #[verifier::rlimit(90)]
    pub fn slices_mut(&mut self, offset: usize, max_len: usize) -> ((first, second): (
        &mut [u8],
        &mut [u8],
    ))
        requires
            old(self).wf(),
            old(self).capacity() > 0,
            offset < old(self).capacity(),
        ensures
            ({
                let cap = old(self).capacity() as int;
                let n = if max_len < old(self).contents().len() {
                    max_len as int
                } else {
                    old(self).contents().len() as int
                };
                let start = ring_pos(old(self).head() as int, offset as int, cap);
                &&& first@ + second@ == Seq::new(
                    n as nat,
                    |i: int| old(self).storage()[ring_pos(start, i, cap)],
                )
                &&& start + n <= cap ==> {
                    &&& second@.len() == 0
                    &&& final(self).storage() == old(self).storage().subrange(0, start) + final(first)@ + old(self).storage().subrange(start + n, cap)
                }
                &&& start + n > cap ==> first@.len() == cap - start
                &&& start + n > cap ==> final(self).storage() == final(second)@ + old(self).storage().subrange(start + n - cap, start) + final(first)@
            }),
            ({
                let n = if max_len < old(self).contents().len() {
                    max_len as int
                } else {
                    old(self).contents().len() as int
                };
                &&& offset + n <= old(self).contents().len() ==> first@ + second@
                    == old(self).contents().subrange(offset as int, offset + n)
                &&& (second@.len() > 0 <==> ring_pos(
                    old(self).head() as int,
                    offset as int,
                    old(self).capacity() as int,
                ) + n > old(self).capacity())
            }),
            final(self).head() == old(self).head(),
            final(self).contents().len() == old(self).contents().len(),
            final(first)@.len() == first@.len() && final(second)@.len() == second@.len() ==> {
                &&& final(self).wf()
                &&& final(self).capacity() == old(self).capacity()
            },
    {
        let cap = self.data.len();
        let start = if offset < cap - self.head {
            self.head + offset
        } else {
            offset - (cap - self.head)
        };
        let len = if max_len < self.count {
            max_len
        } else {
            self.count
        };
        let ghost old_storage = (*self.data)@;
        proof {
            if offset + len <= self.count {
                let c = self.contents();
                assert forall|i: int| 0 <= i < len implies #[trigger] old_storage[ring_pos(
                    start as int,
                    i,
                    cap as int,
                )] == c.subrange(offset as int, offset + len)[i] by {
                    assert(ring_pos(start as int, i, cap as int) == ring_pos(
                        self.head as int,
                        offset + i,
                        cap as int,
                    ));
                }
                assert(Seq::new(len as nat, |i: int| old_storage[ring_pos(start as int, i, cap as int)])
                    =~= c.subrange(offset as int, offset + len));
            }
        }
        if len <= cap - start {
            let (front, back) = self.data.split_at_mut(start);
            let (mid, _rest) = back.split_at_mut(len);
            assert(mid@ =~= Seq::new(
                len as nat,
                |i: int| old_storage[ring_pos(start as int, i, cap as int)],
            ));
            assert(front@ =~= old_storage.subrange(0, start as int));
            assert(_rest@ =~= old_storage.subrange(start + len, cap as int));
            (mid, &mut [])
        } else {
            let end = len - (cap - start);
            let (front, back) = self.data.split_at_mut(end);
            let (_gap, tail) = back.split_at_mut(start - end);
            let (head_part, _none) = front.split_at_mut(end);
            assert(tail@ + head_part@ =~= Seq::new(
                len as nat,
                |i: int| old_storage[ring_pos(start as int, i, cap as int)],
            ));
            assert(_gap@ =~= old_storage.subrange(end as int, start as int));
            assert(_none@.len() == 0);
            assert(tail@.len() == cap - start);
            (tail, head_part)
        }
    }

    /// Drop up to `len` of the oldest bytes.
    pub fn pop(&mut self, len: usize)
        requires
            old(self).wf(),
            old(self).capacity() > 0,
        ensures
            final(self).wf(),
            final(self).capacity() == old(self).capacity(),
            final(self).contents() == if len < old(self).contents().len() {
                old(self).contents().subrange(len as int, old(self).contents().len() as int)
            } else {
                Seq::<u8>::empty()
            },
    {
        let ghost before = self.contents();
        let cap = self.data.len();
        let n = if len < self.count {
            len
        } else {
            self.count
        };
        let ghost old_head = self.head;
        self.head = if n < cap - self.head {
            self.head + n
        } else {
            n - (cap - self.head)
        };
        self.count = self.count - n;
        assert forall|k: int| 0 <= k < self.count implies ring_pos(self.head as int, k, cap as int)
            == ring_pos(old_head as int, n + k, cap as int) by {}
        assert(self.contents() =~= before.subrange(n as int, before.len() as int));
    }

    /// The number of free bytes.
    pub fn remainder(&self) -> (r: usize)
        requires
            self.wf(),
        ensures
            r == self.capacity() - self.contents().len(),
    {
        self.data.len() - self.count
    }

    /// The number of stored bytes.
    pub fn len(&self) -> (r: usize)
        ensures
            r == self.contents().len(),
    {
        self.count
    }
}

/// Bytes come out of the ring in the order they went in: after pushing `pushed` onto a ring
/// holding `held`, dropping as many bytes as were held leaves exactly `pushed`.
pub proof fn lemma_ring_fifo(held: Seq<u8>, pushed: Seq<u8>)
    ensures
        (held + pushed).subrange(held.len() as int, (held + pushed).len() as int) == pushed,
{
    assert((held + pushed).subrange(held.len() as int, (held + pushed).len() as int) =~= pushed);
}

} // verus!
