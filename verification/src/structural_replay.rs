//! Replay log of continuity snapshots, indexed by replay position.
use vstd::prelude::*;
use crate::runtime_frame::{ContinuitySnapshot, continuity_eq};

verus! {

/// A continuity snapshot with the provenance it was realized under.
#[derive(Debug)]
pub struct StructuralReplaySnapshot {
    pub originating_tick: u64,
    pub realization_sequence_index: u64,
    pub continuity_epoch: u64,
    pub continuity_snapshot: ContinuitySnapshot,
}

/// One entry of the replay log.
#[derive(Debug)]
pub struct StructuralReplayFrame {
    pub replay_index: u64,
    pub snapshot: StructuralReplaySnapshot,
}

/// Equality of replay frames (numeric payloads compared as `f32`).
pub open spec fn replay_frame_eq(a: StructuralReplayFrame, b: StructuralReplayFrame) -> bool {
    &&& a.replay_index == b.replay_index
    &&& a.snapshot.originating_tick == b.snapshot.originating_tick
    &&& a.snapshot.realization_sequence_index == b.snapshot.realization_sequence_index
    &&& a.snapshot.continuity_epoch == b.snapshot.continuity_epoch
    &&& continuity_eq(a.snapshot.continuity_snapshot, b.snapshot.continuity_snapshot)
}

/// `b` holds the same data as `a`, bit for bit.
pub open spec fn replay_frame_copy(a: StructuralReplayFrame, b: StructuralReplayFrame) -> bool {
    let ca = a.snapshot.continuity_snapshot;
    let cb = b.snapshot.continuity_snapshot;
    &&& a.replay_index == b.replay_index
    &&& a.snapshot.originating_tick == b.snapshot.originating_tick
    &&& a.snapshot.realization_sequence_index == b.snapshot.realization_sequence_index
    &&& a.snapshot.continuity_epoch == b.snapshot.continuity_epoch
    &&& ca.epoch == cb.epoch
    &&& ca.realization_sequence_index == cb.realization_sequence_index
    &&& ca.originating_tick == cb.originating_tick
    &&& ca.snapshot_identity == cb.snapshot_identity
    &&& ca.continuity@ == cb.continuity@
}

impl Clone for StructuralReplaySnapshot {
    fn clone(&self) -> (r: Self)
        ensures
            r.originating_tick == self.originating_tick,
            r.realization_sequence_index == self.realization_sequence_index,
            r.continuity_epoch == self.continuity_epoch,
            r.continuity_snapshot.epoch == self.continuity_snapshot.epoch,
            r.continuity_snapshot.realization_sequence_index
                == self.continuity_snapshot.realization_sequence_index,
            r.continuity_snapshot.originating_tick == self.continuity_snapshot.originating_tick,
            r.continuity_snapshot.snapshot_identity == self.continuity_snapshot.snapshot_identity,
            r.continuity_snapshot.continuity@ == self.continuity_snapshot.continuity@,
    {
        Self {
            originating_tick: self.originating_tick,
            realization_sequence_index: self.realization_sequence_index,
            continuity_epoch: self.continuity_epoch,
            continuity_snapshot: self.continuity_snapshot.clone(),
        }
    }
}

impl Clone for StructuralReplayFrame {
    fn clone(&self) -> (r: Self)
        ensures
            replay_frame_copy(*self, r),
    {
        Self { replay_index: self.replay_index, snapshot: self.snapshot.clone() }
    }
}

impl PartialEq for StructuralReplaySnapshot {
    fn eq(&self, other: &Self) -> (r: bool) {
        self.originating_tick == other.originating_tick && self.realization_sequence_index
            == other.realization_sequence_index && self.continuity_epoch == other.continuity_epoch
            && self.continuity_snapshot == other.continuity_snapshot
    }
}

impl vstd::std_specs::cmp::PartialEqSpecImpl for StructuralReplaySnapshot {
    open spec fn obeys_eq_spec() -> bool {
        true
    }

    open spec fn eq_spec(&self, other: &Self) -> bool {
        &&& self.originating_tick == other.originating_tick
        &&& self.realization_sequence_index == other.realization_sequence_index
        &&& self.continuity_epoch == other.continuity_epoch
        &&& continuity_eq(self.continuity_snapshot, other.continuity_snapshot)
    }
}

impl PartialEq for StructuralReplayFrame {
    fn eq(&self, other: &Self) -> (r: bool) {
        self.replay_index == other.replay_index && self.snapshot == other.snapshot
    }
}

impl vstd::std_specs::cmp::PartialEqSpecImpl for StructuralReplayFrame {
    open spec fn obeys_eq_spec() -> bool {
        true
    }

    open spec fn eq_spec(&self, other: &Self) -> bool {
        replay_frame_eq(*self, *other)
    }
}

/// The replay log, oldest entry first.
#[derive(Debug)]
pub struct StructuralReplayBuffer {
    pub frames: Vec<StructuralReplayFrame>,
}

impl StructuralReplayBuffer {
    /// An empty log.
    pub fn new() -> (b: Self)
        ensures
            b.frames@ == Seq::<StructuralReplayFrame>::empty(),
    {
        Self { frames: Vec::new() }
    }

    /// Append `frame` after the others.
    pub fn append_frame(&mut self, frame: StructuralReplayFrame)
        ensures
            final(self).frames@ == old(self).frames@.push(frame),
    {
        self.frames.push(frame);
    }

    /// The newest entry, if any.
    pub fn latest_frame(&self) -> (r: Option<&StructuralReplayFrame>)
        ensures
            r == (if self.frames@.len() > 0 { Some(&self.frames@.last()) } else { None }),
    {
        let n = self.frames.len();
        if n > 0 { Some(&self.frames[n - 1]) } else { None }
    }

    /// Copies of the entries at positions `start..end`, with `end` cut to the
    /// log's length; empty when `start` is past the end or not below `end`.
    pub fn replay_range(&self, start: usize, end: usize) -> (r: Vec<StructuralReplayFrame>)
        ensures
            start >= self.frames@.len() || start >= end ==> r@.len() == 0,
            start < self.frames@.len() && start < end ==> r@.len() == (if end > self.frames@.len() {
                self.frames@.len()
            } else {
                end as nat
            }) - start,
            forall|i: int| 0 <= i < r@.len() ==> replay_frame_copy(
                self.frames@[start + i],
                #[trigger] r@[i],
            ),
    {
        let len = self.frames.len();
        let mut out: Vec<StructuralReplayFrame> = Vec::new();
        if start >= len || start >= end {
            return out;
        }
        let e = if end > len { len } else { end };
        let mut i: usize = start;
        while i < e
            invariant
                start <= i <= e,
                e <= len,
                len == self.frames@.len(),
                out@.len() == i - start,
                forall|j: int| 0 <= j < out@.len() ==> replay_frame_copy(
                    self.frames@[start + j],
                    #[trigger] out@[j],
                ),
            decreases e - i,
        {
            out.push(self.frames[i].clone());
            i += 1;
        }
        out
    }

    /// Same entries in the same order.
    pub fn replay_equivalence(&self, other: &Self) -> (r: bool)
        ensures
            r == (self.frames@.len() == other.frames@.len() && forall|i: int|
                0 <= i < self.frames@.len() ==> #[trigger] replay_frame_eq(
                    self.frames@[i],
                    other.frames@[i],
                )),
    {
        self.frames == other.frames
    }
}

} // verus!
