use vstd::prelude::*;

verus! {

/// Rejected configuration for a bounded history.
#[derive(Clone, Copy, PartialEq, Eq, Structural, Debug)]
pub enum ConfigError {
    ZeroCapacity,
}

/// A fixed-capacity FIFO of 64-bit digests backed by a circular buffer.
///
/// Unwritten slots hold an explicit `None` sentinel, so a membership scan can
/// never mistake an empty slot for a real digest. Once the buffer is full,
/// each insertion permanently evicts the oldest entry; a digest older than
/// `capacity` insertions is therefore no longer found.
pub struct RingBuffer {
    pub slots: Vec<Option<u64>>,
    pub read_pos: usize,
    pub len: usize,
}

/// What a bounded history of capacity `cap` holds after one insertion:
/// the value is appended, and when the buffer was already full the oldest
/// entry is dropped to make room.
pub open spec fn enqueue_spec(s: Seq<u64>, cap: nat, v: u64) -> Seq<u64> {
    if s.len() < cap {
        s.push(v)
    } else {
        s.drop_first().push(v)
    }
}

/// The contents after inserting each of `vals` in order, oldest first.
pub open spec fn enqueue_all(s: Seq<u64>, cap: nat, vals: Seq<u64>) -> Seq<u64>
    decreases vals.len(),
{
    if vals.len() == 0 {
        s
    } else {
        enqueue_spec(enqueue_all(s, cap, vals.drop_last()), cap, vals.last())
    }
}

impl RingBuffer {
    /// The fixed number of slots.
    pub open spec fn capacity(self) -> nat {
        self.slots@.len()
    }

    /// The backing-store index of the `i`-th oldest entry.
    pub open spec fn slot_of(self, i: int) -> int {
        if self.read_pos + i < self.capacity() {
            self.read_pos + i
        } else {
            self.read_pos + i - self.capacity()
        }
    }

    /// The valid entries, oldest first.
    pub open spec fn view(self) -> Seq<u64> {
        Seq::new(self.len as nat, |i: int| self.slots@[self.slot_of(i)]->Some_0)
    }

    /// Structural invariant: the cursor and length are in range, the `len`
    /// slots from the read cursor onward (circularly) hold real entries, and
    /// every other slot holds the `None` sentinel.
    pub open spec fn wf(self) -> bool {
        &&& 0 < self.capacity()
        &&& self.read_pos < self.capacity()
        &&& self.len <= self.capacity()
        &&& forall|i: int| 0 <= i < self.len ==> (#[trigger] self.slots@[self.slot_of(i)]) is Some
        &&& forall|i: int|
            self.len <= i < self.capacity() ==> (#[trigger] self.slots@[self.slot_of(i)]) is None
    }

    /// A history with `capacity` empty slots; a zero capacity could never
    /// hold any entry and is rejected.
    pub fn new(capacity: usize) -> (r: Result<RingBuffer, ConfigError>)
        ensures
            capacity == 0 ==> r == Err::<RingBuffer, ConfigError>(ConfigError::ZeroCapacity),
            capacity > 0 ==> r is Ok,
            r matches Ok(rb) ==> rb.wf() && rb@ == Seq::<u64>::empty() && rb.capacity()
                == capacity,
    {
        if capacity == 0 {
            return Err(ConfigError::ZeroCapacity);
        }
        let mut slots: Vec<Option<u64>> = Vec::new();
        for k in 0..capacity
            invariant
                slots@.len() == k,
                forall|j: int| 0 <= j < k ==> (#[trigger] slots@[j]) is None,
        {
            slots.push(None);
        }
        let rb = RingBuffer { slots, read_pos: 0, len: 0 };
        proof {
            assert(rb@ =~= Seq::<u64>::empty());
        }
        Ok(rb)
    }

    /// Number of valid entries.
    pub fn count(&self) -> (r: usize)
        requires
            self.wf(),
        ensures
            r == self@.len(),
    {
        self.len
    }

    /// The backing-store index of the `i`-th oldest entry.
    fn slot_at(&self, i: usize) -> (r: usize)
        requires
            self.wf(),
            i < self.capacity(),
        ensures
            r == self.slot_of(i as int),
    {
        let cap = self.slots.len();
        if i < cap - self.read_pos {
            self.read_pos + i
        } else {
            i - (cap - self.read_pos)
        }
    }

    /// Insert a value; once the buffer is full, the oldest entry is evicted
    /// to make room.
    pub fn enqueue(&mut self, value: u64)
        requires
            old(self).wf(),
        ensures
            final(self).wf(),
            final(self).capacity() == old(self).capacity(),
            final(self)@ == enqueue_spec(old(self)@, old(self).capacity(), value),
    {
        let cap = self.slots.len();
        if self.len < cap {
            let w = self.slot_at(self.len);
            self.slots[w] = Some(value);
            self.len = self.len + 1;
            proof {
                let newer = *self;
                let older = *old(self);
                assert forall|i: int| 0 <= i < newer.len implies (#[trigger] newer.slots@[
                    newer.slot_of(i)]) is Some by {
                    if i < older.len {
                        assert(older.slots@[older.slot_of(i)] is Some);
                    }
                }
                assert forall|i: int| newer.len <= i < newer.capacity() implies (
                #[trigger] newer.slots@[newer.slot_of(i)]) is None by {
                    assert(newer.slot_of(i) == older.slot_of(i));
                    assert(older.slot_of(i) != older.slot_of(older.len as int));
                    assert(older.slots@[older.slot_of(i)] is None);
                }
                assert(newer@ =~= older@.push(value));
            }
        } else {
            let w = self.read_pos;
            self.slots[w] = Some(value);
            self.read_pos = if self.read_pos + 1 == cap {
                0
            } else {
                self.read_pos + 1
            };
            proof {
                let newer = *self;
                let older = *old(self);
                assert forall|i: int| 0 <= i < newer.len implies (#[trigger] newer.slots@[
                    newer.slot_of(i)]) is Some by {
                    if i < newer.len - 1 {
                        assert(newer.slot_of(i) == older.slot_of(i + 1));
                        assert(older.slots@[older.slot_of(i + 1)] is Some);
                    } else {
                        assert(newer.slot_of(i) == w);
                    }
                }
                assert forall|i: int| 0 <= i < newer.len - 1 implies newer@[i] == older@[i
                    + 1] by {
                    assert(newer.slot_of(i) == older.slot_of(i + 1));
                }
                assert(newer@ =~= older@.drop_first().push(value));
            }
        }
    }

    /// Remove and return the oldest entry, or `None` when the history holds
    /// no entries.
    pub fn dequeue(&mut self) -> (r: Option<u64>)
        requires
            old(self).wf(),
        ensures
            final(self).wf(),
            final(self).capacity() == old(self).capacity(),
            old(self)@.len() == 0 ==> r is None && final(self)@ == old(self)@,
            old(self)@.len() > 0 ==> r == Some(old(self)@[0]) && final(self)@ == old(
                self,
            )@.drop_first(),
    {
        if self.len == 0 {
            return None;
        }
        let cap = self.slots.len();
        let idx = self.read_pos;
        let value = self.slots[idx];
        self.slots[idx] = None;
        self.read_pos = if self.read_pos + 1 == cap {
            0
        } else {
            self.read_pos + 1
        };
        self.len = self.len - 1;
        proof {
            let newer = *self;
            let older = *old(self);
            assert(older.slot_of(0) == idx);
            assert(value == Some(older@[0]));
            assert forall|i: int| 0 <= i < newer.len implies (#[trigger] newer.slots@[
                newer.slot_of(i)]) is Some && newer.slots@[newer.slot_of(i)] == older.slots@[
                older.slot_of(i + 1)] by {
                assert(newer.slot_of(i) == older.slot_of(i + 1));
                assert(older.slot_of(i + 1) != idx);
            }
            assert forall|i: int| newer.len <= i < newer.capacity() implies (
            #[trigger] newer.slots@[newer.slot_of(i)]) is None by {
                if newer.slot_of(i) != idx {
                    assert(newer.slot_of(i) == older.slot_of(i + 1));
                    if i + 1 < older.capacity() {
                        assert(older.slots@[older.slot_of(i + 1)] is None);
                    } else {
                        assert(older.slot_of(i + 1) == older.slot_of(0));
                        assert(older.slot_of(0) == idx);
                    }
                }
            }
            assert(newer@ =~= older@.drop_first());
        }
        value
    }

    /// Whether `value` is among the currently held entries. Sentinel slots
    /// never match: only values actually inserted (and not yet evicted) are
    /// found.
    pub fn contains(&self, value: u64) -> (r: bool)
        requires
            self.wf(),
        ensures
            r == self@.contains(value),
    {
        let cap = self.slots.len();
        let mut k: usize = 0;
        while k < cap
            invariant
                self.wf(),
                k <= cap,
                cap == self.capacity(),
                forall|j: int| 0 <= j < k ==> #[trigger] self.slots@[j] != Some(value),
            decreases cap - k,
        {
            match self.slots[k] {
                Some(x) => {
                    if x == value {
                        proof {
                            let i: int = if k >= self.read_pos {
                                k - self.read_pos
                            } else {
                                k + self.capacity() - self.read_pos
                            };
                            assert(self.slot_of(i) == k);
                            assert(i < self.len) by {
                                if i >= self.len {
                                    assert(self.slots@[self.slot_of(i)] is None);
                                }
                            }
                            assert(self@[i] == value);
                        }
                        return true;
                    }
                },
                None => {},
            }
            k = k + 1;
        }
        proof {
            assert forall|i: int| 0 <= i < self@.len() implies self@[i] != value by {
                assert(self.slots@[self.slot_of(i)] is Some);
                assert(self.slots@[self.slot_of(i)] != Some(value));
            }
        }
        false
    }
}

/// Law: while the history is not yet full, insertions are simply appended,
/// so the contents after at most `cap` insertions into an empty history are
/// exactly the inserted values in their original insertion order (and the
/// dequeue contract then hands them back oldest-first).
pub proof fn lemma_fifo_order(cap: nat, vals: Seq<u64>)
    requires
        0 < cap,
        vals.len() <= cap,
    ensures
        enqueue_all(Seq::<u64>::empty(), cap, vals) == vals,
    decreases vals.len(),
{
    if vals.len() == 0 {
        assert(enqueue_all(Seq::<u64>::empty(), cap, vals) =~= vals);
    } else {
        lemma_fifo_order(cap, vals.drop_last());
        assert(enqueue_all(Seq::<u64>::empty(), cap, vals) =~= vals);
    }
}

/// Law: inserting `cap + 1` distinct values into an empty history of
/// capacity `cap` evicts exactly the first value: it is no longer contained,
/// while every later value still is.
pub proof fn lemma_fifo_eviction(cap: nat, vals: Seq<u64>)
    requires
        0 < cap,
        vals.len() == cap + 1,
        forall|i: int, j: int| 0 <= i < j < vals.len() ==> vals[i] != vals[j],
    ensures
        !enqueue_all(Seq::<u64>::empty(), cap, vals).contains(vals[0]),
        forall|i: int|
            1 <= i < vals.len() ==> #[trigger] enqueue_all(
                Seq::<u64>::empty(),
                cap,
                vals,
            ).contains(vals[i]),
{
    lemma_fifo_order(cap, vals.drop_last());
    let fin = enqueue_all(Seq::<u64>::empty(), cap, vals);
    assert(fin =~= vals.subrange(1, vals.len() as int));
    assert forall|i: int| 1 <= i < vals.len() implies #[trigger] fin.contains(vals[i]) by {
        assert(fin[i - 1] == vals[i]);
    }
    assert(!fin.contains(vals[0])) by {
        if fin.contains(vals[0]) {
            let w = choose|w: int| 0 <= w < fin.len() && fin[w] == vals[0];
            assert(vals[w + 1] == vals[0]);
        }
    }
}

} // verus!
