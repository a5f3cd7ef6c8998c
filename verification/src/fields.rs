//! Per-cell continuity and resonance fields.
//!
//! Each field holds one single-precision value per cell, kept in `[0, 1]`
//! by every write, and stored as its IEEE-754 bit pattern.  Snapshots copy
//! the values out with their epoch; applying a snapshot copies them back.
use vstd::prelude::*;
use crate::runtime_frame::{
    ContinuitySnapshot, EmergenceResonanceSnapshot, clamped01, copy_words, f32_bits_clamp,
    f32_bits_clamp01,
};

verus! {

/// Values already in `[0, 1]` are left alone by the clamp.
pub open spec fn all_clamped(s: Seq<u32>) -> bool {
    forall|i: int| 0 <= i < s.len() ==> f32_bits_clamp01(#[trigger] s[i]) == s[i]
}

/// Clamping a clamped value changes nothing.
proof fn lemma_clamp_idempotent(b: u32)
    ensures
        f32_bits_clamp01(f32_bits_clamp01(b)) == f32_bits_clamp01(b),
{
}

/// A sequence of clamped values is its own clamp.
proof fn lemma_clamped_fixed(s: Seq<u32>)
    requires
        all_clamped(s),
    ensures
        clamped01(s) == s,
{
    assert(clamped01(s) =~= s);
}

/// The indexed values of `s`, in order.
pub open spec fn indexed(s: Seq<u32>) -> Seq<(usize, u32)> {
    Seq::new(s.len(), |i: int| (i as usize, s[i]))
}

fn indexed_pairs(v: &Vec<u32>) -> (r: Vec<(usize, u32)>)
    ensures
        r@ == indexed(v@),
{
    let mut r: Vec<(usize, u32)> = Vec::new();
    let mut i: usize = 0;
    while i < v.len()
        invariant
            i <= v@.len(),
            r@ == indexed(v@.take(i as int)),
        decreases v@.len() - i,
    {
        r.push((i, v[i]));
        i += 1;
        assert(indexed(v@.take(i as int)) =~= indexed(v@.take((i - 1) as int)).push(((i - 1) as usize, v@[i - 1])));
    }
    assert(v@.take(i as int) =~= v@);
    r
}

fn zeros(len: usize) -> (v: Vec<u32>)
    ensures
        v@ == Seq::new(len as nat, |i: int| 0u32),
{
    let mut v: Vec<u32> = Vec::new();
    let mut i: usize = 0;
    while i < len
        invariant
            i <= len,
            v@ == Seq::new(i as nat, |j: int| 0u32),
        decreases len - i,
    {
        v.push(0);
        i += 1;
    }
    v
}

/// Structural continuity, one value per cell.
#[derive(Debug)]
pub struct StructuralContinuityField {
    continuity: Vec<u32>,
}

impl View for StructuralContinuityField {
    type V = Seq<u32>;

    closed spec fn view(&self) -> Seq<u32> {
        self.continuity@
    }
}

impl StructuralContinuityField {
    /// Every value of the field lies in `[0, 1]`.
    pub closed spec fn well_formed(&self) -> bool {
        all_clamped(self.continuity@)
    }

    /// `len` cells, all `+0.0`.
    pub fn new(len: usize) -> (f: Self)
        ensures
            f.well_formed(),
            f@ == Seq::new(len as nat, |i: int| 0u32),
    {
        Self { continuity: zeros(len) }
    }

    /// Number of cells.
    pub fn len(&self) -> (n: usize)
        ensures
            n == self@.len(),
    {
        self.continuity.len()
    }

    /// The field has no cells.
    pub fn is_empty(&self) -> (b: bool)
        ensures
            b == (self@.len() == 0),
    {
        self.continuity.len() == 0
    }

    /// The value at `idx`, if there is one.
    pub fn get(&self, idx: usize) -> (r: Option<u32>)
        ensures
            r == (if idx < self@.len() { Some(self@[idx as int]) } else { None }),
    {
        if idx < self.continuity.len() { Some(self.continuity[idx]) } else { None }
    }

    /// Store `value` clamped to `[0, 1]` at `idx`; an index past the end
    /// changes nothing.
    pub fn set(&mut self, idx: usize, value: u32)
        ensures
            old(self).well_formed() ==> final(self).well_formed(),
            final(self)@ == (if idx < old(self)@.len() {
                old(self)@.update(idx as int, f32_bits_clamp01(value))
            } else {
                old(self)@
            }),
    {
        if idx < self.continuity.len() {
            let c = f32_bits_clamp(value);
            proof { lemma_clamp_idempotent(value); }
            self.continuity.set(idx, c);
        }
    }

    /// A snapshot of the values at `epoch`, with zero provenance.
    pub fn snapshot(&self, epoch: u64) -> (s: ContinuitySnapshot)
        ensures
            s.epoch == epoch,
            s.realization_sequence_index == 0,
            s.originating_tick == 0,
            s.snapshot_identity.continuity_epoch == epoch,
            s.snapshot_identity.originating_tick == 0,
            s.snapshot_identity.realization_sequence_index == 0,
            s.continuity@ == clamped01(self@),
            self.well_formed() ==> s.continuity@ == self@,
    {
        proof { if self.well_formed() { lemma_clamped_fixed(self.continuity@); } }
        ContinuitySnapshot::new(epoch, copy_words(&self.continuity))
    }

    /// A snapshot of the values with explicit provenance.
    pub fn snapshot_with_provenance(
        &self,
        epoch: u64,
        realization_sequence_index: u64,
        originating_tick: u64,
    ) -> (s: ContinuitySnapshot)
        ensures
            s.epoch == epoch,
            s.realization_sequence_index == realization_sequence_index,
            s.originating_tick == originating_tick,
            s.snapshot_identity.continuity_epoch == epoch,
            s.snapshot_identity.originating_tick == originating_tick,
            s.snapshot_identity.realization_sequence_index == realization_sequence_index,
            s.continuity@ == clamped01(self@),
            self.well_formed() ==> s.continuity@ == self@,
    {
        proof { if self.well_formed() { lemma_clamped_fixed(self.continuity@); } }
        ContinuitySnapshot::with_provenance(
            epoch,
            realization_sequence_index,
            originating_tick,
            copy_words(&self.continuity),
        )
    }

    /// Replace the values with those of `snapshot`, which must have as many.
    pub fn apply_snapshot(&mut self, snapshot: &ContinuitySnapshot)
        requires
            snapshot.continuity@.len() == old(self)@.len(),
        ensures
            final(self)@ == snapshot.continuity@,
            all_clamped(snapshot.continuity@) ==> final(self).well_formed(),
    {
        self.continuity = copy_words(&snapshot.continuity);
    }

    /// `(index, value)` for every cell, in index order.
    pub fn stable_index_iter_clone(&self) -> (r: Vec<(usize, u32)>)
        ensures
            r@ == indexed(self@),
    {
        indexed_pairs(&self.continuity)
    }


}

/// Emergence resonance, one value per cell.
#[derive(Debug)]
pub struct EmergenceResonanceField {
    resonance: Vec<u32>,
}

impl View for EmergenceResonanceField {
    type V = Seq<u32>;

    closed spec fn view(&self) -> Seq<u32> {
        self.resonance@
    }
}

impl EmergenceResonanceField {
    /// Every value of the field lies in `[0, 1]`.
    pub closed spec fn well_formed(&self) -> bool {
        all_clamped(self.resonance@)
    }

    /// `len` cells, all `+0.0`.
    pub fn new(len: usize) -> (f: Self)
        ensures
            f.well_formed(),
            f@ == Seq::new(len as nat, |i: int| 0u32),
    {
        Self { resonance: zeros(len) }
    }

    /// Number of cells.
    pub fn len(&self) -> (n: usize)
        ensures
            n == self@.len(),
    {
        self.resonance.len()
    }

    /// The value at `idx`, if there is one.
    pub fn get(&self, idx: usize) -> (r: Option<u32>)
        ensures
            r == (if idx < self@.len() { Some(self@[idx as int]) } else { None }),
    {
        if idx < self.resonance.len() { Some(self.resonance[idx]) } else { None }
    }

    /// Store `value` clamped to `[0, 1]` at `idx`; an index past the end
    /// changes nothing.
    pub fn set(&mut self, idx: usize, value: u32)
        ensures
            old(self).well_formed() ==> final(self).well_formed(),
            final(self)@ == (if idx < old(self)@.len() {
                old(self)@.update(idx as int, f32_bits_clamp01(value))
            } else {
                old(self)@
            }),
    {
        if idx < self.resonance.len() {
            let c = f32_bits_clamp(value);
            proof { lemma_clamp_idempotent(value); }
            self.resonance.set(idx, c);
        }
    }

    /// A snapshot of the values at `epoch`.
    pub fn snapshot(&self, epoch: u64) -> (s: EmergenceResonanceSnapshot)
        ensures
            s.epoch == epoch,
            s.resonance@ == self@,
    {
        EmergenceResonanceSnapshot { epoch, resonance: copy_words(&self.resonance) }
    }

    /// Replace the values with those of `snap`, which must have as many.
    pub fn apply_snapshot(&mut self, snap: &EmergenceResonanceSnapshot)
        requires
            snap.resonance@.len() == old(self)@.len(),
        ensures
            final(self)@ == snap.resonance@,
            all_clamped(snap.resonance@) ==> final(self).well_formed(),
    {
        self.resonance = copy_words(&snap.resonance);
    }

    /// `(index, value)` for every cell, in index order.
    pub fn stable_index_iter_clone(&self) -> (r: Vec<(usize, u32)>)
        ensures
            r@ == indexed(self@),
    {
        indexed_pairs(&self.resonance)
    }

}

} // verus!
