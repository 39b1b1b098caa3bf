//! Index protocol of the bounded single-producer/single-consumer ring
//! buffer.
//!
//! Cursors range over `0 .. capacity` and one slot is permanently reserved
//! as a sentinel, so the buffer holds at most `capacity - 1` values: the
//! buffer is empty exactly when the cursors are equal, and full exactly
//! when the write cursor is one step (modulo capacity) behind the read
//! cursor. This is the scheme that lets a producer and a consumer each own
//! one cursor without any shared count; the protocol itself is a function
//! of the two cursor values alone and is what this module verifies. Each
//! slot is an occupancy-tracked cell, so a value can never be read out of a
//! slot that the protocol does not mark as held.

use vstd::prelude::*;

use crate::{lemma_distance_after_read_step, lemma_distance_after_write_step,
    lemma_slots_distinct};
use vstd::arithmetic::div_mod::{
    lemma_add_mod_noop, lemma_add_mod_noop_right, lemma_mod_bound, lemma_mod_equivalence,
    lemma_mod_self_0, lemma_small_mod,
};

verus! {

/// Error values of the single-producer/single-consumer ring buffer.
#[derive(Debug)]
pub enum SPSCRingBufferError<T> {
    /// A push was rejected because the buffer was full; carries the
    /// rejected value back to the caller.
    PushError(T),
    /// A pop found the buffer empty; carries the read cursor at that
    /// moment.
    PopError(usize),
}

/// Bounded FIFO ring buffer for one producer and one consumer.
///
/// One slot stays reserved as a sentinel, so a buffer of `capacity` slots
/// holds at most `capacity - 1` values.
pub struct SPSCRingBuffer<T> {
    buffer: Vec<Option<T>>,
    capacity: usize,
    /// Cursor of the next slot to push into, in `0 .. capacity`.
    write: usize,
    /// Cursor of the next value to pop, in `0 .. capacity`.
    read: usize,
}

/// The full test of the sentinel scheme: the write cursor stands one step
/// (modulo `c`) behind the read cursor exactly when the wrapped distance
/// from read to write is `c - 1`.
proof fn lemma_full_check(w: int, r: int, c: int)
    requires
        2 <= c,
        0 <= w < c,
        0 <= r < c,
    ensures
        ((w + 1) % c == r) <==> ((w - r) % c == c - 1),
{
    lemma_mod_bound(w - r, c);
    lemma_small_mod(r as nat, c as nat);
    lemma_mod_equivalence(w + 1, r, c);
    if (w - r) % c == c - 1 {
        lemma_add_mod_noop_right(1, w - r, c);
        assert((1 + (w - r) % c) % c == (1 + (w - r)) % c);
        lemma_mod_self_0(c);
        assert((w + 1) % c == r % c);
    } else {
        if (w + 1) % c == r {
            assert((w + 1 - r) % c == 0);
            lemma_add_mod_noop_right(1, w - r, c);
            lemma_mod_bound((w - r) % c + 1, c);
            lemma_small_mod(((w - r) % c + 1) as nat, c as nat);
        }
    }
}

impl<T> View for SPSCRingBuffer<T> {
    type V = Seq<T>;

    /// The values held, oldest first.
    closed spec fn view(&self) -> Seq<T> {
        Seq::new(self.spec_size() as nat, |i: int| self.spec_slot(i)->0)
    }
}

impl<T> SPSCRingBuffer<T> {
    /// Number of slots, one of which is the reserved sentinel.
    pub closed spec fn spec_capacity(self) -> int {
        self.capacity as int
    }

    /// Number of values held: the wrapped distance from `read` to `write`.
    pub closed spec fn spec_size(self) -> int {
        (self.write - self.read) % self.spec_capacity()
    }

    /// The write cursor: the slot the next pushed value will occupy.
    pub closed spec fn spec_write_cursor(self) -> int {
        self.write as int
    }

    /// The read cursor: the slot of the next value to pop.
    pub closed spec fn spec_read_cursor(self) -> int {
        self.read as int
    }

    /// The slot `k` steps past the read cursor.
    closed spec fn spec_slot(self, k: int) -> Option<T> {
        self.buffer[(self.read + k) % self.spec_capacity()]
    }

    /// Well-formedness: the cursors stay inside `0 .. capacity`, the
    /// storage has exactly `capacity` slots, and every slot in the held
    /// range is occupied.
    pub closed spec fn wf(self) -> bool {
        &&& self.capacity >= 2
        &&& self.buffer.len() == self.capacity
        &&& self.read < self.capacity
        &&& self.write < self.capacity
        &&& forall|k: int| 0 <= k < self.spec_size() ==> (#[trigger] self.spec_slot(k)) is Some
    }

    /// Makes a buffer with `capacity` slots, all of them free.
    ///
    /// A fresh buffer is empty and, one slot being reserved, not full.
    pub fn new(capacity: usize) -> (r: Self)
        requires
            capacity >= 2,
        ensures
            r.wf(),
            r.spec_capacity() == capacity,
            r@ == Seq::<T>::empty(),
            r.spec_write_cursor() == 0,
            r.spec_read_cursor() == 0,
    {
        let mut buffer: Vec<Option<T>> = Vec::new();
        while buffer.len() < capacity
            invariant
                buffer.len() <= capacity,
            decreases capacity - buffer.len(),
        {
            buffer.push(None);
        }
        let r = SPSCRingBuffer { buffer, capacity, write: 0, read: 0 };
        proof {
            lemma_small_mod(0nat, capacity as nat);
            assert(r@ =~= Seq::<T>::empty());
        }
        r
    }

    /// Pushes a value unless the buffer is full. On success the index of
    /// the slot the value went into comes back; on a full buffer the value
    /// itself comes back, unmodified, and the buffer is left untouched.
    pub fn push(&mut self, value: T) -> (r: Result<usize, SPSCRingBufferError<T>>)
        requires
            old(self).wf(),
        ensures
            final(self).wf(),
            final(self).spec_capacity() == old(self).spec_capacity(),
            final(self).spec_read_cursor() == old(self).spec_read_cursor(),
            old(self)@.len() == old(self).spec_capacity() - 1 ==> {
                &&& *final(self) == *old(self)
                &&& r == Result::<usize, SPSCRingBufferError<T>>::Err(
                    SPSCRingBufferError::PushError(value))
            },
            old(self)@.len() < old(self).spec_capacity() - 1 ==> {
                &&& r == Result::<usize, SPSCRingBufferError<T>>::Ok(
                    old(self).spec_write_cursor() as usize)
                &&& final(self)@ == old(self)@.push(value)
                &&& final(self).spec_write_cursor()
                    == (old(self).spec_write_cursor() + 1) % old(self).spec_capacity()
            },
    {
        let write = self.write;
        let next_write = (write + 1) % self.capacity;
        proof {
            lemma_mod_bound(write + 1, self.spec_capacity());
            lemma_full_check(write as int, self.read as int, self.spec_capacity());
        }
        if next_write == self.read {
            return Err(SPSCRingBufferError::PushError(value));
        }
        let ghost prev = *self;
        self.buffer.set(write, Some(value));
        self.write = next_write;
        proof {
            self.lemma_view_after_push(prev, value);
        }
        Ok(write)
    }

    /// Proof that storing into the write cursor's slot and advancing the
    /// cursor appends the value to the held values.
    proof fn lemma_view_after_push(self, prev: Self, value: T)
        requires
            prev.wf(),
            prev.spec_size() < prev.spec_capacity() - 1,
            self.capacity == prev.capacity,
            self.read == prev.read,
            self.write == (prev.write + 1) % prev.spec_capacity(),
            self.buffer@ == prev.buffer@.update(prev.write as int, Some(value)),
        ensures
            self.wf(),
            self@ == prev@.push(value),
    {
        let c = prev.spec_capacity();
        let r = prev.read as int;
        let w = prev.write as int;
        let s = prev.spec_size();
        lemma_mod_bound(w - r, c);
        lemma_distance_after_write_step(w, r, c);
        assert(self.spec_size() == s + 1);
        assert(w == (r + s) % c) by {
            lemma_add_mod_noop_right(r, w - r, c);
            lemma_small_mod(w as nat, c as nat);
        }
        assert forall|k: int| 0 <= k < s implies {
            &&& (#[trigger] self.spec_slot(k)) == prev.spec_slot(k)
            &&& self.spec_slot(k) is Some
        } by {
            lemma_slots_distinct(r, k, s, c);
            lemma_mod_bound(r + k, c);
        }
        assert(self.spec_slot(s) == Some(value)) by {
            lemma_mod_bound(r + s, c);
        }
        assert(self@ =~= prev@.push(value));
    }

    /// Pops the oldest value, together with the index of the slot it came
    /// out of. Returns `None`, and leaves the buffer untouched, if the
    /// buffer is empty.
    pub fn pop(&mut self) -> (r: Option<(usize, T)>)
        requires
            old(self).wf(),
        ensures
            final(self).wf(),
            final(self).spec_capacity() == old(self).spec_capacity(),
            final(self).spec_write_cursor() == old(self).spec_write_cursor(),
            old(self)@.len() == 0 ==> {
                &&& *final(self) == *old(self)
                &&& r is None
            },
            old(self)@.len() > 0 ==> {
                &&& r == Some((old(self).spec_read_cursor() as usize, old(self)@[0]))
                &&& final(self)@ == old(self)@.drop_first()
                &&& final(self).spec_read_cursor()
                    == (old(self).spec_read_cursor() + 1) % old(self).spec_capacity()
            },
    {
        let read = self.read;
        proof {
            lemma_mod_equivalence(self.write as int, self.read as int, self.spec_capacity());
            lemma_small_mod(self.read as nat, self.capacity as nat);
            lemma_small_mod(self.write as nat, self.capacity as nat);
        }
        if empty(read, self.write) {
            return None;
        }
        let ghost prev = *self;
        proof {
            assert(prev.spec_slot(0) is Some);
        }
        let slot = self.buffer.remove(read);
        self.buffer.insert(read, None);
        let value = slot.unwrap();
        self.read = (read + 1) % self.capacity;
        proof {
            lemma_mod_bound(read + 1, self.spec_capacity());
            assert(self.buffer@ =~= prev.buffer@.update(read as int, None::<T>));
            self.lemma_view_after_pop(prev);
        }
        Some((read, value))
    }

    /// Proof that blanking the read cursor's slot and advancing the cursor
    /// drops the oldest held value.
    proof fn lemma_view_after_pop(self, prev: Self)
        requires
            prev.wf(),
            prev.spec_size() > 0,
            self.capacity == prev.capacity,
            self.write == prev.write,
            self.read == (prev.read + 1) % prev.spec_capacity(),
            self.buffer@ == prev.buffer@.update(prev.read as int, None::<T>),
        ensures
            self.wf(),
            self@ == prev@.drop_first(),
            prev@[0] == prev.buffer[prev.read as int]->0,
    {
        let c = prev.spec_capacity();
        let r = prev.read as int;
        let w = prev.write as int;
        let s = prev.spec_size();
        lemma_mod_bound(w - (r + 1) % c, c);
        lemma_mod_bound(r + 1, c);
        lemma_distance_after_read_step(w, r, c);
        assert(self.spec_size() == s - 1);
        lemma_mod_bound(w - r, c);
        assert forall|k: int| 0 <= k < s - 1 implies {
            &&& (#[trigger] self.spec_slot(k)) == prev.spec_slot(k + 1)
            &&& self.spec_slot(k) is Some
        } by {
            lemma_add_mod_noop(r + 1, k, c);
            lemma_small_mod(k as nat, c as nat);
            assert((self.read + k) % c == (r + 1 + k) % c);
            lemma_slots_distinct(r, 0, 1 + k, c);
            lemma_small_mod(r as nat, c as nat);
            lemma_mod_bound(r + 1 + k, c);
        }
        assert(self@ =~= prev@.drop_first());
        lemma_small_mod(r as nat, c as nat);
    }

    /// A buffer is empty exactly when the cursors are equal; advisory
    /// under concurrent use, exact in a single thread.
    pub fn empty(&self) -> (r: bool)
        requires
            self.wf(),
        ensures
            r == (self@.len() == 0),
    {
        proof {
            lemma_mod_equivalence(self.write as int, self.read as int, self.spec_capacity());
            lemma_small_mod(self.read as nat, self.capacity as nat);
            lemma_small_mod(self.write as nat, self.capacity as nat);
        }
        empty(self.read, self.write)
    }

    /// A buffer is full exactly when the write cursor is one step behind
    /// the read cursor: the sentinel slot is the only free one left.
    pub fn full(&self) -> (r: bool)
        requires
            self.wf(),
        ensures
            r == (self@.len() == self.spec_capacity() - 1),
    {
        proof {
            lemma_mod_bound(self.write + 1, self.spec_capacity());
            lemma_full_check(self.write as int, self.read as int, self.spec_capacity());
        }
        (self.write + 1) % self.capacity == self.read
    }

    /// Returns the slot count chosen at construction; `capacity - 1` of
    /// the slots can hold values at once.
    pub fn capacity(&self) -> (r: usize)
        ensures
            r == self.spec_capacity(),
    {
        self.capacity
    }

    /// The buffer never holds more values than `capacity - 1`: the
    /// sentinel slot is never occupied.
    pub proof fn lemma_occupancy_bound(self)
        requires
            self.wf(),
        ensures
            self@.len() <= self.spec_capacity() - 1,
    {
        lemma_mod_bound(self.write - self.read, self.spec_capacity());
    }
}

/// Tells whether a read cursor and a write cursor denote an empty buffer.
pub fn empty(read_idx: usize, write_idx: usize) -> (r: bool)
    ensures
        r == (read_idx == write_idx),
{
    read_idx == write_idx
}

} // verus!
