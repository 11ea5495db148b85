use vstd::prelude::*;
use vstd::arithmetic::div_mod::{
    lemma_add_mod_noop_right, lemma_mod_add_multiples_vanish, lemma_mod_pos_bound,
    lemma_mod_self_0, lemma_mod_sub_multiples_vanish, lemma_small_mod,
};

verus! {

/// Timestamped state for history tracking.
#[derive(Debug, Clone)]
pub struct TimestampedState<S> {
    pub state: S,
    pub timestamp: u64,
}

/// The last `capacity` items of `s`, in their order (all of `s` when it holds
/// no more than that).
pub open spec fn most_recent<T>(s: Seq<T>, capacity: nat) -> Seq<T> {
    if s.len() <= capacity {
        s
    } else {
        s.skip(s.len() - capacity)
    }
}

/// Ring buffer of recent states with timestamps.
///
/// Its contents, `entries()`, are the states in chronological order, oldest
/// first; it never holds more than its capacity.
#[derive(Debug, Clone)]
pub struct StateHistory<S> {
    buffer: Vec<TimestampedState<S>>,
    capacity: usize,
    pos: usize,
    len: usize,
}

/// `(p + k) % m` differs from `p % m` when `0 < k < m`.
proof fn lemma_mod_step_distinct(p: int, k: int, m: int)
    requires
        m > 0,
        p >= 0,
        0 < k < m,
    ensures
        (p + k) % m != p % m,
{
    lemma_add_mod_noop_right(k, p, m);
    lemma_mod_pos_bound(p, m);
    let r = p % m;
    if r + k < m {
        lemma_small_mod((r + k) as nat, m as nat);
    } else {
        lemma_mod_sub_multiples_vanish(r + k, m);
        lemma_small_mod((r + k - m) as nat, m as nat);
    }
}

/// Advancing a wrapped position by one, then by `i`, is advancing by `1 + i`.
proof fn lemma_mod_advance(p: int, i: int, m: int)
    requires
        m > 0,
        p >= 0,
        i >= 0,
    ensures
        ((p % m + 1) % m + i) % m == (p + 1 + i) % m,
        (p % m + 1) % m == (p + 1) % m,
{
    lemma_add_mod_noop_right(1, p, m);
    lemma_add_mod_noop_right(i, p + 1, m);
}

impl<S> StateHistory<S> {
    /// The internal invariant: the buffer holds `len` entries, at most
    /// `capacity`, and the write position is within the buffer's range.
    pub closed spec fn wf(&self) -> bool {
        &&& self.buffer@.len() == self.len
        &&& self.len <= self.capacity
        &&& self.pos <= self.capacity
        &&& self.len < self.capacity ==> self.pos == self.len
    }

    /// The number of entries that the history retains.
    pub closed spec fn spec_capacity(&self) -> nat {
        self.capacity as nat
    }

    /// Where the oldest entry starts, before wrapping.
    closed spec fn start(&self) -> int {
        if self.len < self.capacity {
            0
        } else {
            self.pos as int
        }
    }

    /// The buffer slot of the `i`-th oldest entry.
    closed spec fn slot(&self, i: int) -> int {
        (self.start() + i) % (self.capacity as int)
    }

    /// The entries, oldest first.
    pub closed spec fn entries(&self) -> Seq<TimestampedState<S>> {
        Seq::new(self.len as nat, |i: int| self.buffer@[self.slot(i)])
    }

    /// Create a new ring buffer with the given capacity.
    pub fn new(capacity: usize) -> (h: Self)
        ensures
            h.wf(),
            h.spec_capacity() == capacity,
            h.entries() == Seq::<TimestampedState<S>>::empty(),
    {
        let h = StateHistory { buffer: Vec::with_capacity(capacity), capacity, pos: 0, len: 0 };
        assert(h.entries() =~= Seq::<TimestampedState<S>>::empty());
        h
    }

    /// The number of entries the history retains before it drops the oldest.
    pub fn capacity(&self) -> (c: usize)
        ensures
            c == self.spec_capacity(),
    {
        self.capacity
    }

    /// Push a new state into the ring buffer, stamped with the current time
    /// in milliseconds since the Unix epoch.
    pub fn push(&mut self, state: S)
        requires
            old(self).wf(),
            old(self).spec_capacity() > 0,
        ensures
            final(self).wf(),
            final(self).spec_capacity() == old(self).spec_capacity(),
            exists|t: u64|
                final(self).entries() == most_recent(
                    old(self).entries().push(TimestampedState { state, timestamp: t }),
                    old(self).spec_capacity(),
                ),
    {
        let ts = crate::clock::now_ms();
        self.push_with_timestamp(state, ts);
    }

    /// Push with an explicit timestamp (for testing).
    pub fn push_with_timestamp(&mut self, state: S, ts: u64)
        requires
            old(self).wf(),
            old(self).spec_capacity() > 0,
        ensures
            final(self).wf(),
            final(self).spec_capacity() == old(self).spec_capacity(),
            final(self).entries() == most_recent(
                old(self).entries().push(TimestampedState { state, timestamp: ts }),
                old(self).spec_capacity(),
            ),
    {
        let entry = TimestampedState { state, timestamp: ts };
        self.push_entry(entry);
    }

    fn push_entry(&mut self, entry: TimestampedState<S>)
        requires
            old(self).wf(),
            old(self).spec_capacity() > 0,
        ensures
            final(self).wf(),
            final(self).spec_capacity() == old(self).spec_capacity(),
            final(self).entries() == most_recent(
                old(self).entries().push(entry),
                old(self).spec_capacity(),
            ),
    {
        let ghost before = old(self).entries();
        let ghost cap = self.capacity as int;
        let ghost e = entry;
        if self.len < self.capacity {
            self.buffer.push(entry);
            self.pos = self.buffer.len();
            self.len = self.buffer.len();
            proof {
                assert forall|i: int| 0 <= i < self.len implies #[trigger] self.slot(i) == i by {
                    if self.len < self.capacity {
                        lemma_small_mod(i as nat, cap as nat);
                    } else {
                        lemma_mod_add_multiples_vanish(i, cap);
                        lemma_small_mod(i as nat, cap as nat);
                    }
                }
                assert forall|i: int| 0 <= i < before.len() implies #[trigger] old(self).slot(i)
                    == i by {
                    lemma_small_mod(i as nat, cap as nat);
                }
                assert(self.entries() =~= before.push(e));
            }
        } else {
            let idx = self.pos % self.capacity;
            self.buffer[idx] = entry;
            self.pos = (idx + 1) % self.capacity;
            proof {
                let p = old(self).pos as int;
                assert forall|i: int| 0 <= i < cap implies #[trigger] self.slot(i) == (p + 1 + i)
                    % cap by {
                    lemma_mod_advance(p, i, cap);
                }
                assert forall|i: int| 0 <= i < cap - 1 implies self.buffer@[#[trigger] self.slot(
                    i,
                )] == before[i + 1] by {
                    lemma_mod_step_distinct(p, 1 + i, cap);
                }
                assert(self.slot(cap - 1) == idx) by {
                    lemma_mod_add_multiples_vanish(p, cap);
                }
                assert(self.entries() =~= before.push(e).skip(1));
            }
        }
    }

    /// Number of entries in the buffer.
    pub fn len(&self) -> (n: usize)
        requires
            self.wf(),
        ensures
            n == self.entries().len(),
    {
        self.len
    }

    /// Is the buffer empty?
    pub fn is_empty(&self) -> (b: bool)
        requires
            self.wf(),
        ensures
            b == (self.entries().len() == 0),
    {
        self.len == 0
    }

    /// Get the most recent state.
    pub fn latest(&self) -> (r: Option<&S>)
        requires
            self.wf(),
        ensures
            r is None <==> self.entries().len() == 0,
            r matches Some(s) ==> *s == self.entries().last().state,
    {
        if self.len == 0 {
            return None;
        }
        // pos points to the next write slot, so pos-1 (wrapped) is the latest
        let idx = if self.pos == 0 {
            self.capacity - 1
        } else {
            self.pos - 1
        };
        proof {
            let cap = self.capacity as int;
            let last = self.len - 1;
            if self.len < self.capacity {
                lemma_small_mod(last as nat, cap as nat);
            } else if self.pos == 0 {
                lemma_small_mod(last as nat, cap as nat);
            } else {
                lemma_mod_add_multiples_vanish(self.pos - 1, cap);
                lemma_small_mod((self.pos - 1) as nat, cap as nat);
            }
            assert(self.slot(last as int) == idx);
        }
        Some(&self.buffer[idx].state)
    }

    /// Get all entries in chronological order, oldest first.
    pub fn iter_chrono(&self) -> (r: Vec<&TimestampedState<S>>)
        requires
            self.wf(),
        ensures
            r@.len() == self.entries().len(),
            forall|i: int| 0 <= i < r@.len() ==> *#[trigger] r@[i] == self.entries()[i],
    {
        let mut r: Vec<&TimestampedState<S>> = Vec::new();
        if self.len == 0 {
            return r;
        }
        // When buffer is full, oldest is at pos, newest at pos-1
        let start = if self.len < self.capacity {
            0
        } else {
            self.pos
        };
        let cap = self.capacity;
        let mut idx = start % cap;
        let mut i: usize = 0;
        while i < self.len
            invariant
                self.wf(),
                0 < cap == self.capacity,
                start == self.start(),
                0 <= i <= self.len,
                idx == (start + i) % (cap as int),
                r@.len() == i,
                forall|j: int| 0 <= j < i ==> *#[trigger] r@[j] == self.entries()[j],
            decreases self.len - i,
        {
            proof {
                lemma_mod_pos_bound(start + i, cap as int);
                if self.len < self.capacity {
                    lemma_small_mod(i as nat, cap as nat);
                }
            }
            r.push(&self.buffer[idx]);
            proof {
                lemma_add_mod_noop_right(1, start + i, cap as int);
                if idx + 1 == cap {
                    lemma_mod_self_0(cap as int);
                } else {
                    lemma_small_mod((idx + 1) as nat, cap as nat);
                }
            }
            idx = if idx + 1 == cap {
                0
            } else {
                idx + 1
            };
            i = i + 1;
        }
        r
    }
}

/// The contents left after pushing each item of `xs` in turn onto `s`, with
/// a history that keeps `capacity` entries.
pub open spec fn push_all<T>(s: Seq<T>, xs: Seq<T>, capacity: nat) -> Seq<T>
    decreases xs.len(),
{
    if xs.len() == 0 {
        s
    } else {
        most_recent(push_all(s, xs.drop_last(), capacity).push(xs.last()), capacity)
    }
}

/// A history never holds more entries than its capacity.
pub proof fn law_len_within_capacity<S>(h: &StateHistory<S>)
    requires
        h.wf(),
    ensures
        h.entries().len() <= h.spec_capacity(),
{
}

/// A push onto a history that is not full appends; a push onto a full history
/// drops the oldest entry and appends.
pub proof fn law_push_appends_or_evicts_oldest<T>(s: Seq<T>, e: T, capacity: nat)
    requires
        s.len() <= capacity,
        capacity > 0,
    ensures
        s.len() < capacity ==> most_recent(s.push(e), capacity) == s.push(e),
        s.len() == capacity ==> most_recent(s.push(e), capacity) == s.drop_first().push(e),
{
    if s.len() == capacity {
        assert(s.push(e).skip(1) =~= s.drop_first().push(e));
    }
}

/// After a push, the history holds one entry more, up to its capacity, and
/// its latest entry is the one pushed.
pub proof fn law_push_then_latest<T>(s: Seq<T>, e: T, capacity: nat)
    requires
        s.len() <= capacity,
        capacity > 0,
    ensures
        most_recent(s.push(e), capacity).len() == if s.len() < capacity {
            s.len() + 1
        } else {
            capacity
        },
        most_recent(s.push(e), capacity).last() == e,
{
}

/// Keeping the most recent items, pushing, and keeping the most recent again
/// is keeping the most recent of everything pushed.
pub proof fn law_most_recent_absorbs<T>(s: Seq<T>, e: T, capacity: nat)
    ensures
        most_recent(most_recent(s, capacity).push(e), capacity) == most_recent(
            s.push(e),
            capacity,
        ),
{
    if s.len() > capacity {
        let k = s.len() - capacity;
        let t = s.skip(k);
        if capacity == 0 {
            assert(most_recent(t.push(e), capacity) =~= most_recent(s.push(e), capacity));
        } else {
            assert(t.push(e).skip(1) =~= s.push(e).skip(k + 1));
        }
    }
}

/// A history created empty, after a series of pushes, holds the most recent
/// `capacity` of the pushed entries, oldest first.
pub proof fn law_history_keeps_most_recent<T>(xs: Seq<T>, capacity: nat)
    ensures
        push_all(Seq::<T>::empty(), xs, capacity) == most_recent(xs, capacity),
    decreases xs.len(),
{
    if xs.len() > 0 {
        law_history_keeps_most_recent(xs.drop_last(), capacity);
        law_most_recent_absorbs(xs.drop_last(), xs.last(), capacity);
        assert(xs.drop_last().push(xs.last()) =~= xs);
    }
}

} // verus!
