//! Bounded byte queues on top of heapless's single-producer/single-consumer
//! ring buffer, and the bounded frame buffer on top of heapless's `Vec`.
use vstd::prelude::*;

verus! {

/// Bytes a queue can hold: the ring buffer has 256 slots, one of which
/// always stays free.
pub const QUEUE_CAPACITY: usize = 255;

/// Bytes a frame buffer can hold.
pub const FRAME_CAPACITY: usize = 256;

#[verifier::external_type_specification]
#[verifier::external_body]
#[verifier::reject_recursive_types(T)]
pub struct ExQueue<T, const N: usize>(heapless::spsc::Queue<T, N>);

#[verifier::external_type_specification]
#[verifier::external_body]
#[verifier::reject_recursive_types(T)]
pub struct ExHeaplessVec<T, const N: usize>(heapless::Vec<T, N>);

/// The bytes in a ring buffer, oldest first.
pub uninterp spec fn ring_items(q: heapless::spsc::Queue<u8, 256>) -> Seq<u8>;

/// The bytes in a frame buffer, in order.
pub uninterp spec fn buffer_items(v: heapless::Vec<u8, 256>) -> Seq<u8>;

/// Relies on heapless::spsc::Queue::new: an empty queue.
#[verifier::external_body]
fn ring_new() -> (r: heapless::spsc::Queue<u8, 256>)
    ensures
        ring_items(r) == Seq::<u8>::empty(),
{
    heapless::spsc::Queue::new()
}

/// Relies on heapless::spsc::Queue::enqueue: the byte goes to the back unless
/// the `N - 1` usable slots are taken, and then the queue is left as it was.
#[verifier::external_body]
fn ring_enqueue(q: &mut heapless::spsc::Queue<u8, 256>, b: u8) -> (r: bool)
    ensures
        ring_items(*old(q)).len() < QUEUE_CAPACITY ==> r && ring_items(*final(q)) == ring_items(
            *old(q),
        ).push(b),
        ring_items(*old(q)).len() >= QUEUE_CAPACITY ==> !r && ring_items(*final(q)) == ring_items(
            *old(q),
        ),
        ring_items(*final(q)).len() <= QUEUE_CAPACITY,
{
    q.enqueue(b).is_ok()
}

/// Relies on heapless::spsc::Queue::dequeue: removes and returns the oldest
/// byte, or `None` on an empty queue.
#[verifier::external_body]
fn ring_dequeue(q: &mut heapless::spsc::Queue<u8, 256>) -> (r: Option<u8>)
    ensures
        ring_items(*old(q)).len() == 0 ==> r is None && ring_items(*final(q)) == ring_items(*old(q)),
        ring_items(*old(q)).len() > 0 ==> r == Some(ring_items(*old(q))[0]) && ring_items(*final(q))
            == ring_items(*old(q)).drop_first(),
{
    q.dequeue()
}

/// Relies on heapless::spsc::Queue::peek: the oldest byte, left in place.
#[verifier::external_body]
fn ring_peek(q: &heapless::spsc::Queue<u8, 256>) -> (r: Option<u8>)
    ensures
        ring_items(*q).len() == 0 ==> r is None,
        ring_items(*q).len() > 0 ==> r == Some(ring_items(*q)[0]),
{
    q.peek().copied()
}

/// Relies on heapless::spsc::Queue::len: the number of bytes held.
#[verifier::external_body]
fn ring_len(q: &heapless::spsc::Queue<u8, 256>) -> (r: usize)
    ensures
        r == ring_items(*q).len(),
{
    q.len()
}

/// Relies on heapless::Vec::new: an empty buffer.
#[verifier::external_body]
pub(crate) fn buffer_new() -> (r: heapless::Vec<u8, 256>)
    ensures
        buffer_items(r) == Seq::<u8>::empty(),
{
    heapless::Vec::new()
}

/// Relies on heapless::Vec::push: appends unless the buffer holds `N` bytes,
/// and then leaves it as it was.
#[verifier::external_body]
pub(crate) fn buffer_push(v: &mut heapless::Vec<u8, 256>, b: u8) -> (r: bool)
    ensures
        buffer_items(*old(v)).len() < FRAME_CAPACITY ==> r && buffer_items(*final(v)) == buffer_items(
            *old(v),
        ).push(b),
        buffer_items(*old(v)).len() >= FRAME_CAPACITY ==> !r && buffer_items(*final(v))
            == buffer_items(*old(v)),
        buffer_items(*final(v)).len() <= FRAME_CAPACITY,
{
    v.push(b).is_ok()
}

/// Relies on heapless::Vec::clear: the buffer becomes empty.
#[verifier::external_body]
pub(crate) fn buffer_clear(v: &mut heapless::Vec<u8, 256>)
    ensures
        buffer_items(*final(v)) == Seq::<u8>::empty(),
{
    v.clear()
}

/// Relies on heapless::Vec::len: the number of bytes held.
#[verifier::external_body]
pub(crate) fn buffer_len(v: &heapless::Vec<u8, 256>) -> (r: usize)
    ensures
        r == buffer_items(*v).len(),
{
    v.len()
}

/// Relies on heapless::Vec's view as a slice, copied into a `Vec`: the same
/// bytes in the same order.
#[verifier::external_body]
pub(crate) fn buffer_to_vec(v: &heapless::Vec<u8, 256>) -> (r: Vec<u8>)
    ensures
        r@ == buffer_items(*v),
{
    v.as_slice().to_vec()
}

/// What a bounded byte queue does when a byte arrives while it is full.
#[derive(Debug, Clone, Copy, PartialEq, Eq, Structural)]
pub enum FullPolicy {
    /// The new byte is refused and the producer may try again later.
    Reject,
    /// The oldest byte is dropped to make room.
    OverwriteOldest,
}

/// A first-in first-out queue of at most `QUEUE_CAPACITY` bytes.
pub struct ByteQueue {
    ring: heapless::spsc::Queue<u8, 256>,
    policy: FullPolicy,
}

impl View for ByteQueue {
    type V = Seq<u8>;

    closed spec fn view(&self) -> Seq<u8> {
        ring_items(self.ring)
    }
}

impl ByteQueue {
    /// The ring never holds more than `QUEUE_CAPACITY` bytes.
    pub closed spec fn wf(&self) -> bool {
        ring_items(self.ring).len() <= QUEUE_CAPACITY
    }

    /// A well-formed queue holds at most `QUEUE_CAPACITY` bytes.
    pub proof fn lemma_bounded(&self)
        requires
            self.wf(),
        ensures
            self@.len() <= QUEUE_CAPACITY,
    {
    }

    pub closed spec fn policy(&self) -> FullPolicy {
        self.policy
    }

    /// An empty queue with the given policy for a full queue.
    pub fn new(policy: FullPolicy) -> (r: ByteQueue)
        ensures
            r.wf(),
            r@ == Seq::<u8>::empty(),
            r.policy() == policy,
    {
        ByteQueue { ring: ring_new(), policy }
    }

    /// Appends `b`. A full queue that rejects is left as it was and `false`
    /// comes back; a full queue that overwrites first drops its oldest byte.
    pub fn push_back(&mut self, b: u8) -> (r: bool)
        requires
            old(self).wf(),
        ensures
            final(self).wf(),
            final(self).policy() == old(self).policy(),
            r == (old(self)@.len() < QUEUE_CAPACITY || old(self).policy() == FullPolicy::OverwriteOldest),
            final(self)@ == push_result(old(self)@, old(self).policy(), b),
    {
        if ring_enqueue(&mut self.ring, b) {
            true
        } else {
            match self.policy {
                FullPolicy::Reject => false,
                FullPolicy::OverwriteOldest => {
                    ring_dequeue(&mut self.ring);
                    ring_enqueue(&mut self.ring, b);
                    true
                },
            }
        }
    }

    /// Removes and returns the oldest byte.
    pub fn pop_front(&mut self) -> (r: Option<u8>)
        requires
            old(self).wf(),
        ensures
            final(self).wf(),
            final(self).policy() == old(self).policy(),
            old(self)@.len() == 0 ==> r is None && final(self)@ == old(self)@,
            old(self)@.len() > 0 ==> r == Some(old(self)@[0]) && final(self)@ == old(self)@.drop_first(),
    {
        ring_dequeue(&mut self.ring)
    }

    /// The oldest byte, left in the queue.
    pub fn peek_front(&self) -> (r: Option<u8>)
        ensures
            self@.len() == 0 ==> r is None,
            self@.len() > 0 ==> r == Some(self@[0]),
    {
        ring_peek(&self.ring)
    }

    /// The number of bytes held.
    pub fn len(&self) -> (r: usize)
        requires
            self.wf(),
        ensures
            r == self@.len(),
            r <= QUEUE_CAPACITY,
    {
        ring_len(&self.ring)
    }

    /// Removes the bytes at positions `start..end` (oldest first) and returns
    /// them; the other bytes stay, in their order.
    pub fn drain(&mut self, start: usize, end: usize) -> (r: Vec<u8>)
        requires
            old(self).wf(),
            start <= end <= old(self)@.len(),
        ensures
            final(self).wf(),
            final(self).policy() == old(self).policy(),
            r@ == old(self)@.subrange(start as int, end as int),
            final(self)@ == old(self)@.subrange(0, start as int) + old(self)@.subrange(
                end as int,
                old(self)@.len() as int,
            ),
    {
        let ghost items = self@;
        let n = self.len();
        let mut out: Vec<u8> = Vec::new();
        let mut i: usize = 0;
        while i < n
            invariant
                self.wf(),
                self.policy() == old(self).policy(),
                items == old(self)@,
                n == items.len(),
                n <= QUEUE_CAPACITY,
                start <= end <= n,
                i <= n,
                self@ == items.subrange(i as int, n as int) + kept(items, start as int, end as int, i as int),
                out@ == removed(items, start as int, end as int, i as int),
            decreases n - i,
        {
            let ghost before = self@;
            proof {
                assert(before[0] == items[i as int]);
            }
            if let Some(b) = self.pop_front() {
                assert(self@ =~= items.subrange(i + 1, n as int) + kept(items, start as int, end as int, i as int));
                if start <= i && i < end {
                    out.push(b);
                } else {
                    self.push_back(b);
                }
            }
            i = i + 1;
            assert(self@ =~= items.subrange(i as int, n as int) + kept(items, start as int, end as int, i as int));
            assert(out@ =~= removed(items, start as int, end as int, i as int));
        }
        assert(items.subrange(n as int, n as int) + kept(items, start as int, end as int, n as int)
            =~= items.subrange(0, start as int) + items.subrange(end as int, n as int));
        out
    }
}

/// The bytes among the first `i` that a drain of `start..end` keeps.
spec fn kept(items: Seq<u8>, start: int, end: int, i: int) -> Seq<u8> {
    if i <= start {
        items.subrange(0, i)
    } else if i <= end {
        items.subrange(0, start)
    } else {
        items.subrange(0, start) + items.subrange(end, i)
    }
}

/// The bytes among the first `i` that a drain of `start..end` removes.
spec fn removed(items: Seq<u8>, start: int, end: int, i: int) -> Seq<u8> {
    if i <= start {
        Seq::empty()
    } else if i <= end {
        items.subrange(start, i)
    } else {
        items.subrange(start, end)
    }
}

/// The contents after pushing `b`: appended when there is room; when full,
/// unchanged under `Reject` and with the oldest byte dropped under
/// `OverwriteOldest`.
pub open spec fn push_result(items: Seq<u8>, policy: FullPolicy, b: u8) -> Seq<u8> {
    if items.len() < QUEUE_CAPACITY {
        items.push(b)
    } else if policy == FullPolicy::Reject {
        items
    } else {
        items.drop_first().push(b)
    }
}

} // verus!
