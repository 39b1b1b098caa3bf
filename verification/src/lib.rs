//! Fixed-capacity FIFO ring buffers built on a circular-index protocol.
//!
//! The crate root holds the single-threaded reference model: a ring buffer
//! whose cursors range over twice the capacity, so that the extra "lap" bit
//! distinguishes a full buffer from an empty one and every slot is usable.
//! It also offers an overwrite-on-full eviction policy (`force_push`).
//!
//! The module `spsc_lockfree_bounded` holds the index protocol of the
//! bounded single-producer/single-consumer engine, which reserves one slot
//! as a sentinel instead of keeping a lap bit.

use vstd::prelude::*;

pub mod spsc_lockfree_bounded;

use vstd::arithmetic::div_mod::{
    lemma_add_mod_noop, lemma_fundamental_div_mod, lemma_mod_add_multiples_vanish,
    lemma_mod_bound, lemma_mod_equivalence, lemma_mod_mod, lemma_mod_multiples_vanish,
    lemma_mod_sub_multiples_vanish, lemma_small_mod, lemma_sub_mod_noop,
    lemma_sub_mod_noop_right,
};

verus! {

/// Error values of the reference ring buffer.
#[derive(Debug)]
pub enum SPSCRingBufferError {
    /// A push was rejected; carries the rejected value.
    PushError(u64),
    /// A pop found the buffer empty; carries the write cursor at that moment.
    PopError(u64),
}

/// Single-threaded FIFO ring buffer.
///
/// Cursors range over `0 .. 2 * capacity`: the extra range is one bit of
/// "lap" information, which disambiguates full from empty without
/// sacrificing a slot, so all `capacity` slots are usable.
pub struct SPSCRingBuffer {
    /// Cursor of the next value to pop, in `0 .. 2 * capacity`.
    read: usize,
    /// Cursor of the next slot to push into, in `0 .. 2 * capacity`.
    write: usize,
    buffer: Vec<u64>,
}

/// A cursor advanced by one step (modulo `m`) moves the wrapped distance
/// `(w - r) % m` up by one, as long as the distance is not yet `m - 1`.
pub(crate) proof fn lemma_distance_after_write_step(w: int, r: int, m: int)
    requires
        2 <= m,
        0 <= w < m,
        0 <= r < m,
        (w - r) % m < m - 1,
    ensures
        ((w + 1) % m - r) % m == (w - r) % m + 1,
{
    lemma_sub_mod_noop(w + 1, r, m);
    lemma_small_mod(r as nat, m as nat);
    lemma_add_mod_noop(w - r, 1, m);
    lemma_small_mod(1nat, m as nat);
    lemma_mod_bound(w - r, m);
    lemma_small_mod(((w - r) % m + 1) as nat, m as nat);
}

/// The read cursor advanced by one step (modulo `m`) moves the wrapped
/// distance `(w - r) % m` down by one, as long as the distance is positive.
pub(crate) proof fn lemma_distance_after_read_step(w: int, r: int, m: int)
    requires
        2 <= m,
        0 <= w < m,
        0 <= r < m,
        (w - r) % m >= 1,
    ensures
        (w - (r + 1) % m) % m == (w - r) % m - 1,
{
    lemma_sub_mod_noop_right(w, r + 1, m);
    lemma_sub_mod_noop(w - r, 1, m);
    lemma_small_mod(1nat, m as nat);
    lemma_mod_bound(w - r, m);
    lemma_small_mod(((w - r) % m - 1) as nat, m as nat);
}

/// The slot of the write cursor is the slot `size` steps past the slot of
/// the read cursor, where `size` is the wrapped distance over `2 * c`.
pub(crate) proof fn lemma_write_slot(w: int, r: int, c: int)
    requires
        1 <= c,
        0 <= w < 2 * c,
        0 <= r < 2 * c,
    ensures
        w % c == (r + (w - r) % (2 * c)) % c,
{
    let m = 2 * c;
    let s = (w - r) % m;
    lemma_fundamental_div_mod(w - r, m);
    let k = (w - r) / m;
    assert(r + s == w - m * k);
    assert((2 * c) * k == c * (2 * k)) by (nonlinear_arith);
    lemma_mod_multiples_vanish(-2 * k, w, c);
    assert(c * (-2 * k) == -(c * (2 * k))) by (nonlinear_arith);
}

/// Two positions strictly less than one lap apart land on distinct slots.
pub(crate) proof fn lemma_slots_distinct(r: int, i: int, j: int, c: int)
    requires
        1 <= c,
        0 <= i < j,
        j - i < c,
    ensures
        (r + i) % c != (r + j) % c,
{
    lemma_mod_equivalence(r + i, r + j, c);
    lemma_mod_sub_multiples_vanish(i - j + c, c);
    lemma_small_mod((i - j + c) as nat, c as nat);
}

/// Reducing a position by a lap pair (modulo `2 * c`) does not change the
/// slot it denotes (modulo `c`).
pub(crate) proof fn lemma_slot_of_folded(x: int, i: int, c: int)
    requires
        1 <= c,
    ensures
        (x % (2 * c) + i) % c == (x + i) % c,
{
    assert(c * 2 == 2 * c);
    lemma_mod_mod(x, c, 2);
    lemma_add_mod_noop(x % (2 * c), i, c);
    lemma_add_mod_noop(x, i, c);
}

impl View for SPSCRingBuffer {
    type V = Seq<u64>;

    /// The values held, oldest first.
    closed spec fn view(&self) -> Seq<u64> {
        Seq::new(self.spec_size() as nat, |i: int|
            self.buffer[(self.read + i) % self.spec_capacity()]
        )
    }
}

impl SPSCRingBuffer {
    /// Number of slots.
    pub closed spec fn spec_capacity(self) -> int {
        self.buffer.len() as int
    }

    /// Number of values held: the wrapped distance from `read` to `write`
    /// over the doubled cursor range.
    pub closed spec fn spec_size(self) -> int {
        (self.write - self.read) % (2 * self.spec_capacity())
    }

    /// The write cursor, as carried by `SPSCRingBufferError::PopError`.
    pub closed spec fn spec_write_cursor(self) -> int {
        self.write as int
    }

    /// Well-formedness: cursors stay inside the doubled range, the doubled
    /// range itself fits the machine word, and the buffer never holds more
    /// values than it has slots.
    pub closed spec fn wf(self) -> bool {
        &&& self.buffer.len() >= 1
        &&& 2 * self.spec_capacity() <= usize::MAX as int
        &&& self.read < 2 * self.spec_capacity()
        &&& self.write < 2 * self.spec_capacity()
        &&& self.spec_size() <= self.spec_capacity()
    }

    /// Makes a buffer with `cap` slots, all of them free.
    ///
    /// A fresh buffer is empty and, having at least one slot, never full.
    pub fn new(cap: usize) -> (r: Self)
        requires
            cap >= 1,
            cap <= usize::MAX / 2,
        ensures
            r.wf(),
            r.spec_capacity() == cap,
            r@ == Seq::<u64>::empty(),
            r.spec_write_cursor() == 0,
    {
        let read: usize = 0;
        let write: usize = 0;
        let mut buffer: Vec<u64> = Vec::new();
        while buffer.len() < cap
            invariant
                buffer.len() <= cap,
            decreases cap - buffer.len(),
        {
            buffer.push(0);
        }
        let r = Self { read, write, buffer };
        proof {
            lemma_small_mod(0nat, (2 * cap) as nat);
            assert(r@ =~= Seq::<u64>::empty());
        }
        r
    }

    /// Returns the capacity (maximum number of values that can be held).
    pub fn capacity(&self) -> (r: usize)
        ensures
            r == self.spec_capacity(),
    {
        self.buffer.len()
    }

    /// Wrapped distance from the read cursor to the write cursor over the
    /// doubled cursor range: the number of values held.
    pub fn wrapped_distance(&self) -> (r: u64)
        requires
            self.wf(),
        ensures
            r == self@.len(),
    {
        let cap = self.buffer.len();
        let d: usize = if self.write >= self.read {
            self.write - self.read
        } else {
            self.write + (2 * cap - self.read)
        };
        proof {
            let m = 2 * cap as int;
            if self.write >= self.read {
                lemma_small_mod((self.write - self.read) as nat, m as nat);
            } else {
                lemma_mod_add_multiples_vanish(self.write - self.read, m);
                lemma_small_mod((self.write - self.read + m) as nat, m as nat);
            }
        }
        d as u64
    }

    /// Returns the number of values in the ring buffer.
    pub fn size(&self) -> (r: usize)
        requires
            self.wf(),
        ensures
            r == self@.len(),
    {
        self.wrapped_distance() as usize
    }

    /// Returns the number of free slots in the ring buffer.
    pub fn free(&self) -> (r: usize)
        requires
            self.wf(),
        ensures
            r == self.spec_capacity() - self@.len(),
    {
        self.capacity() - self.size()
    }

    /// A buffer is full exactly when no slot is free.
    pub fn full(&self) -> (r: bool)
        requires
            self.wf(),
        ensures
            r == (self@.len() == self.spec_capacity()),
    {
        self.free() == 0
    }

    /// A buffer is empty exactly when the cursors are equal, which the lap
    /// bit makes equivalent to a wrapped distance of zero.
    pub fn empty(&self) -> (r: bool)
        requires
            self.wf(),
        ensures
            r == (self@.len() == 0),
    {
        proof {
            let m = 2 * self.spec_capacity();
            lemma_mod_equivalence(self.write as int, self.read as int, m);
            lemma_small_mod(self.write as nat, m as nat);
            lemma_small_mod(self.read as nat, m as nat);
        }
        self.write == self.read
    }

    /// Pushes a value unless the buffer is full; a rejected push returns
    /// `false` and leaves the buffer untouched.
    pub fn push(&mut self, v: u64) -> (r: bool)
        requires
            old(self).wf(),
        ensures
            final(self).wf(),
            final(self).spec_capacity() == old(self).spec_capacity(),
            r == (old(self)@.len() < old(self).spec_capacity()),
            r ==> final(self)@ == old(self)@.push(v),
            r ==> final(self).spec_write_cursor()
                == (old(self).spec_write_cursor() + 1) % (2 * old(self).spec_capacity()),
            !r ==> *final(self) == *old(self),
    {
        if self.full() {
            false
        } else {
            let ghost prev = *self;
            let idx = self.modulo(self.write);
            proof {
                lemma_mod_bound(self.write as int, self.spec_capacity());
            }
            self.buffer.set(idx, v);
            self.write = self.fold(self.write + 1);
            proof {
                self.lemma_view_after_push(prev, v);
            }
            true
        }
    }

    /// Proof that advancing the write cursor after storing `v` in its slot
    /// appends `v` to the held values.
    proof fn lemma_view_after_push(self, prev: Self, v: u64)
        requires
            prev.wf(),
            prev.spec_size() < prev.spec_capacity(),
            self.read == prev.read,
            self.write == (prev.write + 1) % (2 * prev.spec_capacity()),
            self.buffer@ == prev.buffer@.update(
                prev.write as int % prev.spec_capacity(), v),
        ensures
            self.wf(),
            self@ == prev@.push(v),
    {
        let c = prev.spec_capacity();
        let m = 2 * c;
        let r = prev.read as int;
        let w = prev.write as int;
        let s = prev.spec_size();
        lemma_mod_bound(w - r, m);
        lemma_distance_after_write_step(w, r, m);
        assert(self.spec_size() == s + 1);
        lemma_write_slot(w, r, c);
        assert forall|i: int| 0 <= i < s implies self@[i] == prev@[i] by {
            lemma_slots_distinct(r, i, s, c);
            lemma_mod_bound(r + i, c);
        }
        assert(self@[s] == v) by {
            lemma_mod_bound(r + s, c);
        }
        assert(self@ =~= prev@.push(v));
    }

    /// Forcefully pushes a value into the ring buffer.
    /// If the buffer is full, it will overwrite the oldest value.
    pub fn force_push(&mut self, v: u64)
        requires
            old(self).wf(),
        ensures
            final(self).wf(),
            final(self).spec_capacity() == old(self).spec_capacity(),
            old(self)@.len() < old(self).spec_capacity() ==>
                final(self)@ == old(self)@.push(v),
            old(self)@.len() == old(self).spec_capacity() ==>
                final(self)@ == old(self)@.drop_first().push(v),
            final(self).spec_write_cursor()
                == (old(self).spec_write_cursor() + 1) % (2 * old(self).spec_capacity()),
    {
        if self.full() {
            let _ = self.pop();
        }
        let _ = self.push(v);
    }

    /// Pops the oldest value from the ring buffer.
    /// Returns an error, carrying the write cursor, if the buffer is empty;
    /// an empty buffer is left untouched.
    pub fn pop(&mut self) -> (r: Result<u64, SPSCRingBufferError>)
        requires
            old(self).wf(),
        ensures
            final(self).wf(),
            final(self).spec_capacity() == old(self).spec_capacity(),
            final(self).spec_write_cursor() == old(self).spec_write_cursor(),
            old(self)@.len() == 0 ==> {
                &&& *final(self) == *old(self)
                &&& r == Result::<u64, SPSCRingBufferError>::Err(
                    SPSCRingBufferError::PopError(old(self).spec_write_cursor() as u64))
            },
            old(self)@.len() > 0 ==> {
                &&& r == Result::<u64, SPSCRingBufferError>::Ok(old(self)@[0])
                &&& final(self)@ == old(self)@.drop_first()
            },
    {
        if self.empty() {
            Err(SPSCRingBufferError::PopError(self.write as u64))
        } else {
            let ghost prev = *self;
            let idx = self.modulo(self.read);
            proof {
                lemma_mod_bound(self.read as int, self.spec_capacity());
            }
            let v = self.buffer[idx];
            self.read = self.fold(self.read + 1);
            proof {
                self.lemma_view_after_pop(prev);
            }
            Ok(v)
        }
    }

    /// Proof that advancing the read cursor drops the oldest held value.
    proof fn lemma_view_after_pop(self, prev: Self)
        requires
            prev.wf(),
            prev.spec_size() > 0,
            self.write == prev.write,
            self.read == (prev.read + 1) % (2 * prev.spec_capacity()),
            self.buffer == prev.buffer,
        ensures
            self.wf(),
            self@ == prev@.drop_first(),
            prev@[0] == prev.buffer[prev.read as int % prev.spec_capacity()],
    {
        let c = prev.spec_capacity();
        let m = 2 * c;
        let r = prev.read as int;
        let w = prev.write as int;
        let s = prev.spec_size();
        lemma_mod_bound(w - (r + 1) % m, m);
        lemma_mod_bound(r + 1, m);
        lemma_distance_after_read_step(w, r, m);
        assert(self.spec_size() == s - 1);
        assert forall|i: int| 0 <= i < s - 1 implies self@[i] == prev@[i + 1] by {
            lemma_slot_of_folded(r + 1, i, c);
            assert((self.read + i) % c == (r + 1 + i) % c);
        }
        assert(self@ =~= prev@.drop_first());
        lemma_small_mod(r as nat, (2 * c) as nat);
    }

    /// Folds a cursor back into the doubled range `0 .. 2 * capacity`.
    fn fold(&self, val: usize) -> (r: usize)
        requires
            self.buffer.len() >= 1,
            2 * self.buffer.len() <= usize::MAX,
        ensures
            r == val as int % (2 * self.buffer.len() as int),
    {
        val % (2 * self.buffer.len())
    }

    /// Maps a cursor to the slot it denotes.
    fn modulo(&self, val: usize) -> (r: usize)
        requires
            self.buffer.len() >= 1,
        ensures
            r == val % self.buffer.len(),
    {
        val % self.buffer.len()
    }

    /// The buffer never holds more values than it has slots.
    pub proof fn lemma_occupancy_bound(self)
        requires
            self.wf(),
        ensures
            self@.len() <= self.spec_capacity(),
    {
    }
}

/// The held values after pushing each value of `vs`, oldest first, onto a
/// buffer that holds `m`: one step per value, each step being what a
/// successful `push` does to the view.
pub open spec fn enqueue_all<T>(m: Seq<T>, vs: Seq<T>) -> Seq<T>
    decreases vs.len(),
{
    if vs.len() == 0 {
        m
    } else {
        enqueue_all(m.push(vs[0]), vs.drop_first())
    }
}

/// The held values after `k` pops from a buffer that holds `m`: one step
/// per pop, each step being what a successful `pop` does to the view.
pub open spec fn dequeue_all<T>(m: Seq<T>, k: int) -> Seq<T>
    decreases k,
{
    if k <= 0 {
        m
    } else {
        dequeue_all(m.drop_first(), k - 1)
    }
}

/// Pushing a whole sequence appends it to the held values.
pub proof fn lemma_enqueue_all_appends<T>(m: Seq<T>, vs: Seq<T>)
    ensures
        enqueue_all(m, vs) == m + vs,
    decreases vs.len(),
{
    if vs.len() == 0 {
        assert(m + vs =~= m);
    } else {
        lemma_enqueue_all_appends(m.push(vs[0]), vs.drop_first());
        assert(m.push(vs[0]) + vs.drop_first() =~= m + vs);
    }
}

/// Popping `k` times drops the `k` oldest held values.
pub proof fn lemma_dequeue_all_skips<T>(m: Seq<T>, k: int)
    requires
        0 <= k <= m.len(),
    ensures
        dequeue_all(m, k) == m.skip(k),
    decreases k,
{
    if k == 0 {
        assert(m.skip(0) =~= m);
    } else {
        lemma_dequeue_all_skips(m.drop_first(), k - 1);
        assert(m.drop_first().skip(k - 1) =~= m.skip(k));
    }
}

/// FIFO order: pushing the values of `vs` in order onto an empty buffer
/// (each successful `push` appends its value to the view) and then popping
/// (each successful `pop` yields the view's first value and drops it)
/// yields exactly the values of `vs` in push order: the pop after `k`
/// earlier pops yields `vs[k]`.
pub proof fn lemma_fifo_order<T>(vs: Seq<T>, k: int)
    requires
        0 <= k < vs.len(),
    ensures
        enqueue_all(Seq::<T>::empty(), vs) == vs,
        dequeue_all(vs, k)[0] == vs[k],
        dequeue_all(vs, k) == vs.skip(k),
{
    lemma_enqueue_all_appends(Seq::<T>::empty(), vs);
    assert(Seq::<T>::empty() + vs =~= vs);
    lemma_dequeue_all_skips(vs, k);
}

/// Round trip: pushing one value onto an empty buffer and popping at once
/// yields that value, and leaves the buffer empty again.
pub proof fn lemma_round_trip<T>(v: T)
    ensures
        enqueue_all(Seq::<T>::empty(), seq![v])[0] == v,
        dequeue_all(enqueue_all(Seq::<T>::empty(), seq![v]), 1) == Seq::<T>::empty(),
{
    lemma_enqueue_all_appends(Seq::<T>::empty(), seq![v]);
    assert(Seq::<T>::empty() + seq![v] =~= seq![v]);
    lemma_dequeue_all_skips(seq![v], 1);
    assert(seq![v].skip(1) =~= Seq::<T>::empty());
}

/// The held values after force-pushing each value of `vs`, oldest first,
/// onto a buffer of capacity `cap` that holds `m`: one step per value,
/// each step being what `force_push` does to the view.
pub open spec fn force_enqueue_all<T>(m: Seq<T>, vs: Seq<T>, cap: int) -> Seq<T>
    decreases vs.len(),
{
    if vs.len() == 0 {
        m
    } else if m.len() < cap {
        force_enqueue_all(m.push(vs[0]), vs.drop_first(), cap)
    } else {
        force_enqueue_all(m.drop_first().push(vs[0]), vs.drop_first(), cap)
    }
}

/// Force-pushing keeps the newest values: once the values pushed outgrow
/// the capacity, exactly the most recent `cap` of them stay held, oldest
/// first; until then nothing is evicted.
pub proof fn lemma_force_push_retention<T>(m: Seq<T>, vs: Seq<T>, cap: int)
    requires
        1 <= cap,
        m.len() <= cap,
    ensures
        m.len() + vs.len() <= cap ==> force_enqueue_all(m, vs, cap) == m + vs,
        m.len() + vs.len() > cap ==> force_enqueue_all(m, vs, cap)
            == (m + vs).skip(m.len() + vs.len() - cap),
    decreases vs.len(),
{
    if vs.len() == 0 {
        assert(m + vs =~= m);
    } else {
        let v = vs[0];
        let rest = vs.drop_first();
        if m.len() < cap {
            lemma_force_push_retention(m.push(v), rest, cap);
            assert(m.push(v) + rest =~= m + vs);
        } else {
            let base = m.drop_first().push(v);
            lemma_force_push_retention(base, rest, cap);
            assert(base + rest =~= (m + vs).skip(1));
            if rest.len() == 0 {
                assert(base + rest =~= base);
            } else {
                assert(((m + vs).skip(1)).skip(rest.len() as int)
                    =~= (m + vs).skip(1 + rest.len() as int));
            }
        }
    }
}

/// Overwrite policy: force-pushing more values than the capacity onto an
/// empty buffer leaves exactly the most recent `cap` of them held, oldest
/// first.
pub proof fn lemma_overwrite_keeps_latest<T>(vs: Seq<T>, cap: int)
    requires
        1 <= cap < vs.len(),
    ensures
        force_enqueue_all(Seq::<T>::empty(), vs, cap) == vs.skip(vs.len() - cap),
{
    lemma_force_push_retention(Seq::<T>::empty(), vs, cap);
    assert(Seq::<T>::empty() + vs =~= vs);
}

} // verus!

