//! Fixed-capacity history of realization frames that overwrites its oldest
//! frame once full.
use vstd::prelude::*;
use crate::replay::EmergenceProvenance;
use crate::runtime_frame::{StructuralEmergenceState, emergence_eq};

verus! {

/// The emergence state realized at one tick, with its provenance.
#[derive(Debug, Clone, Copy)]
pub struct EmergenceRealizationFrame {
    pub tick: u64,
    pub epoch: u64,
    pub snapshot: StructuralEmergenceState,
    pub provenance: EmergenceProvenance,
}

impl PartialEq for EmergenceRealizationFrame {
    fn eq(&self, other: &Self) -> (r: bool) {
        self.tick == other.tick && self.epoch == other.epoch && self.snapshot == other.snapshot
            && self.provenance == other.provenance
    }
}

impl vstd::std_specs::cmp::PartialEqSpecImpl for EmergenceRealizationFrame {
    open spec fn obeys_eq_spec() -> bool {
        true
    }

    open spec fn eq_spec(&self, other: &Self) -> bool {
        &&& self.tick == other.tick
        &&& self.epoch == other.epoch
        &&& emergence_eq(self.snapshot, other.snapshot)
        &&& self.provenance == other.provenance
    }
}

/// Realization frames in the order they were produced.
#[derive(Debug, Clone, PartialEq)]
pub struct EmergenceRealizationSequence {
    pub frames: Vec<EmergenceRealizationFrame>,
}

impl EmergenceRealizationSequence {
    /// An empty sequence.
    pub fn new() -> (s: Self)
        ensures
            s.frames@ == Seq::<EmergenceRealizationFrame>::empty(),
    {
        Self { frames: Vec::new() }
    }
}

/// Ring buffer of the most recent frames, up to `capacity` of them.
#[derive(Debug, Clone, PartialEq)]
pub struct EmergenceHistoryBuffer {
    frames: Vec<EmergenceRealizationFrame>,
    capacity: usize,
    next_index: usize,
    filled: bool,
}

impl EmergenceHistoryBuffer {
    /// The stored frames in slot order.
    pub closed spec fn slots(&self) -> Seq<EmergenceRealizationFrame> {
        self.frames@
    }

    pub closed spec fn cap(&self) -> nat {
        self.capacity as nat
    }

    /// The stored frames from oldest to newest.
    pub closed spec fn chronological(&self) -> Seq<EmergenceRealizationFrame> {
        if self.filled {
            self.frames@.skip(self.next_index as int) + self.frames@.take(self.next_index as int)
        } else {
            self.frames@
        }
    }

    /// Slot bookkeeping: the write position lies inside a full buffer and is
    /// zero until the buffer fills.
    pub closed spec fn well_formed(&self) -> bool {
        &&& self.frames@.len() <= self.capacity
        &&& self.filled == (self.capacity > 0 && self.frames@.len() == self.capacity)
        &&& self.filled ==> self.next_index < self.capacity
        &&& !self.filled ==> self.next_index == 0
    }

    /// An empty history holding at most `capacity` frames.
    pub fn new(capacity: usize) -> (b: Self)
        ensures
            b.well_formed(),
            b.cap() == capacity,
            b.chronological() == Seq::<EmergenceRealizationFrame>::empty(),
    {
        Self { frames: Vec::with_capacity(capacity), capacity, next_index: 0, filled: false }
    }

    /// Record a frame, overwriting the oldest one when the buffer is full.
    pub fn push_frame(&mut self, frame: EmergenceRealizationFrame)
        requires
            old(self).well_formed(),
            old(self).cap() > 0,
        ensures
            final(self).well_formed(),
            final(self).cap() == old(self).cap(),
            old(self).chronological().len() < old(self).cap() ==> final(self).chronological()
                == old(self).chronological().push(frame),
            old(self).chronological().len() == old(self).cap() ==> final(self).chronological()
                == old(self).chronological().drop_first().push(frame),
    {
        let ghost before = self.chronological();
        if self.frames.len() < self.capacity {
            self.frames.push(frame);
            if self.frames.len() == self.capacity {
                self.filled = true;
                proof {
                    assert(self.frames@.skip(0) =~= self.frames@);
                    assert(self.frames@.take(0) =~= Seq::<EmergenceRealizationFrame>::empty());
                    assert(self.chronological() =~= before.push(frame));
                }
            }
        } else {
            let ghost old_frames = self.frames@;
            let ghost k = self.next_index as int;
            self.frames.set(self.next_index, frame);
            proof {
                assert(old_frames.len() == self.capacity);
                if k + 1 < self.capacity {
                    vstd::arithmetic::div_mod::lemma_small_mod((k + 1) as nat, self.capacity as nat);
                } else {
                    assert((k + 1) % (self.capacity as int) == 0) by (nonlinear_arith)
                        requires
                            k + 1 == self.capacity,
                            self.capacity > 0,
                    ;
                }
            }
            self.next_index = (self.next_index + 1) % self.capacity;
            proof {
                let n = old_frames.len() as int;
                let nf = self.frames@;
                let expected = before.drop_first().push(frame);
                assert(before =~= old_frames.skip(k) + old_frames.take(k));
                assert forall|i: int| 0 <= i < n implies #[trigger] self.chronological()[i] == expected[i] by {
                    if k + 1 < n {
                        assert(self.next_index == k + 1);
                        if i < n - k - 1 {
                            assert(self.chronological()[i] == nf[k + 1 + i]);
                            assert(expected[i] == before[i + 1]);
                        } else if i < n - 1 {
                            assert(self.chronological()[i] == nf[i - (n - k - 1)]);
                            assert(expected[i] == before[i + 1]);
                        } else {
                            assert(self.chronological()[i] == nf[k]);
                        }
                    } else {
                        assert(self.next_index == 0);
                        assert(self.chronological()[i] == nf[i]);
                        if i < n - 1 {
                            assert(expected[i] == before[i + 1]);
                        }
                    }
                }
                assert(self.chronological().len() == n);
                assert(self.chronological() =~= expected);
            }
        }
    }

    /// The most recently pushed frame, if any.
    pub fn latest(&self) -> (f: Option<&EmergenceRealizationFrame>)
        requires
            self.well_formed(),
        ensures
            self.chronological().len() == 0 ==> f is None,
            self.chronological().len() > 0 ==> f == Some(&self.chronological().last()),
    {
        if self.frames.len() == 0 {
            return None;
        }
        if !self.filled {
            return Some(&self.frames[self.frames.len() - 1]);
        }
        let idx = if self.next_index == 0 { self.capacity - 1 } else { self.next_index - 1 };
        proof {
            let n = self.frames@.len() as int;
            let k = self.next_index as int;
            assert(self.chronological().len() == n);
            if k == 0 {
                assert(self.chronological().last() == self.frames@.skip(0)[n - 1]);
            } else {
                assert(self.chronological().last() == self.frames@.take(k)[k - 1]);
            }
        }
        Some(&self.frames[idx])
    }

    /// The frame stored in slot `index`, if any.
    pub fn frame_at(&self, index: usize) -> (f: Option<&EmergenceRealizationFrame>)
        ensures
            index < self.slots().len() ==> f == Some(&self.slots()[index as int]),
            index >= self.slots().len() ==> f is None,
    {
        if index < self.frames.len() {
            Some(&self.frames[index])
        } else {
            None
        }
    }

    /// Number of stored frames.
    pub fn len(&self) -> (n: usize)
        requires
            self.well_formed(),
        ensures
            n == self.chronological().len(),
            n == self.slots().len(),
    {
        self.frames.len()
    }

    /// Maximum number of stored frames.
    pub fn capacity(&self) -> (c: usize)
        ensures
            c == self.cap(),
    {
        self.capacity
    }
}

/// After a push, the newest frame is the one pushed and the history holds
/// one more frame, up to the capacity.
pub proof fn lemma_latest_is_last_pushed<F>(before: Seq<F>, after: Seq<F>, frame: F, cap: nat)
    requires
        before.len() <= cap,
        before.len() < cap ==> after == before.push(frame),
        before.len() == cap ==> after == before.drop_first().push(frame),
        cap > 0,
    ensures
        after.last() == frame,
        after.len() == (if before.len() < cap { before.len() + 1 } else { cap }),
{
}

} // verus!
