//! The sample queue: a bounded first-in, first-out buffer of 32-bit sample words.
//!
//! The buffer itself is `ringbuf`'s heap ring buffer. Everything below is what the
//! rest of the crate assumes of it; all of it is about a ring that is reached through
//! `&mut`, so that nobody else moves its two ends during a call.
use ringbuf::traits::{Consumer, Observer, Producer};
use vstd::prelude::*;

verus! {

/// A ring buffer of sample words.
#[verifier::external_body]
pub struct SampleRing {
    rb: ringbuf::HeapRb<u32>,
}

/// The words that a ring holds, the oldest first.
pub uninterp spec fn ring_contents(ring: SampleRing) -> Seq<u32>;

/// How many words a ring can hold at most; fixed when it is made.
pub uninterp spec fn ring_capacity(ring: SampleRing) -> nat;

/// How many of `wanted` further words a ring takes.
pub open spec fn room_for(ring: SampleRing, wanted: nat) -> nat {
    if ring_contents(ring).len() + wanted <= ring_capacity(ring) {
        wanted
    } else {
        (ring_capacity(ring) - ring_contents(ring).len()) as nat
    }
}

impl View for SampleRing {
    type V = Seq<u32>;

    open spec fn view(&self) -> Seq<u32> {
        ring_contents(*self)
    }
}

impl SampleRing {
    /// The capacity the ring was made with.
    pub open spec fn capacity(&self) -> nat {
        ring_capacity(*self)
    }

    /// `ringbuf::HeapRb::new`: an empty ring of exactly the given capacity.
    ///
    /// It panics on a capacity of zero and on one whose four bytes per word exceed what an
    /// allocation can have.
    #[verifier::external_body]
    pub(crate) fn new(capacity: usize) -> (ring: SampleRing)
        requires
            0 < capacity,
            capacity * 4 <= isize::MAX,
        ensures
            ring_contents(ring) == Seq::<u32>::empty(),
            ring_capacity(ring) == capacity,
    {
        SampleRing { rb: ringbuf::HeapRb::new(capacity) }
    }

    /// `ringbuf::traits::Observer::occupied_len`: the number of words in the ring, which never
    /// exceeds its capacity.
    #[verifier::external_body]
    pub(crate) fn occupied_len(&self) -> (len: usize)
        ensures
            len == ring_contents(*self).len(),
            len <= ring_capacity(*self),
    {
        self.rb.occupied_len()
    }

    /// `ringbuf::traits::Producer::push_slice`: appends as long a prefix of `words` as there is
    /// room for, and returns its length. The ring keeps its capacity.
    #[verifier::external_body]
    pub(crate) fn push_slice(&mut self, words: &[u32]) -> (count: usize)
        ensures
            ring_capacity(*final(self)) == ring_capacity(*old(self)),
            ring_contents(*final(self)).len() <= ring_capacity(*final(self)),
            count <= words@.len(),
            count == room_for(*old(self), words@.len()),
            ring_contents(*final(self)) == ring_contents(*old(self)) + words@.take(count as int),
    {
        self.rb.push_slice(words)
    }

    /// `ringbuf::traits::Consumer::pop_slice`: moves the oldest words to the front of `out`, as
    /// many as the ring holds and `out` has room for, and returns how many. The rest of `out`
    /// is left as it was, and the ring keeps its capacity.
    #[verifier::external_body]
    pub(crate) fn pop_slice(&mut self, out: &mut [u32]) -> (count: usize)
        ensures
            ring_capacity(*final(self)) == ring_capacity(*old(self)),
            count == (if ring_contents(*old(self)).len() <= old(out)@.len() {
                ring_contents(*old(self)).len()
            } else {
                old(out)@.len()
            }),
            final(out)@ == ring_contents(*old(self)).take(count as int) + old(out)@.skip(
                count as int,
            ),
            ring_contents(*final(self)) == ring_contents(*old(self)).skip(count as int),
    {
        self.rb.pop_slice(out)
    }
}

/// A ring takes all that it is given, or as much as fills it.
pub proof fn law_room_is_what_is_left(ring: SampleRing, wanted: nat)
    requires
        ring_contents(ring).len() <= ring_capacity(ring),
    ensures
        room_for(ring, wanted) <= wanted,
        ring_contents(ring).len() + room_for(ring, wanted) <= ring_capacity(ring),
        room_for(ring, wanted) == wanted || ring_contents(ring).len() + room_for(ring, wanted)
            == ring_capacity(ring),
{
}

} // verus!
