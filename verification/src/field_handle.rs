//! Field-cell addressing: flat cell handles and streaming/residency addresses.
use vstd::prelude::*;
use crate::pool::Handle;
use crate::runtime_frame::{f32_bits_ge, f32_bits_greater_eq};
use crate::streaming_coordinator::{STREAM_PREFETCH_THRESHOLD, STREAM_RESIDENT_THRESHOLD};

verus! {

/// Direct index into the activation field's cells.
#[derive(Debug, Clone, Copy, PartialEq, Eq, Hash, PartialOrd, Ord, Structural)]
pub struct FieldCellHandle(usize);

impl FieldCellHandle {
    /// The flat field index.
    pub closed spec fn value(self) -> usize {
        self.0
    }

    /// Create a handle from a raw flat field index.
    pub fn new(index: usize) -> (h: Self)
        ensures
            h.value() == index,
    {
        Self(index)
    }

    /// Create from a grid coordinate `(x, y)` and field width: `y * width + x`.
    pub fn from_grid(x: usize, y: usize, width: usize) -> (h: Self)
        requires
            y * width + x <= usize::MAX,
        ensures
            h.value() == y * width + x,
    {
        Self(y * width + x)
    }

    /// Convert from a legacy `u32` chunk index.
    pub fn from_legacy_chunk_idx(chunk_idx: u32) -> (h: Self)
        ensures
            h.value() == chunk_idx,
    {
        Self(chunk_idx as usize)
    }

    /// Convert from an entity handle: its index becomes the cell index and
    /// its generation is discarded.
    pub fn from_legacy_handle(handle: &Handle) -> (h: Self)
        ensures
            h.value() == handle.idx(),
    {
        Self(handle.index() as usize)
    }

    /// Raw flat field index.
    pub fn index(self) -> (i: usize)
        ensures
            i == self.value(),
    {
        self.0
    }

    /// Convert back to a legacy `u32` chunk index (the low 32 bits).
    pub fn as_chunk_idx(self) -> (c: u32)
        ensures
            c == self.value() as u32,
    {
        self.0 as u32
    }
}

/// A legacy chunk index survives the round trip through a cell handle.
pub proof fn lemma_legacy_roundtrip(chunk_idx: u32)
    ensures
        (chunk_idx as usize) as u32 == chunk_idx,
{
}

impl From<usize> for FieldCellHandle {
    fn from(idx: usize) -> (h: Self) {
        Self(idx)
    }
}

impl vstd::std_specs::convert::FromSpecImpl<usize> for FieldCellHandle {
    open spec fn obeys_from_spec() -> bool {
        true
    }

    closed spec fn from_spec(v: usize) -> Self {
        FieldCellHandle(v)
    }
}

impl From<u32> for FieldCellHandle {
    fn from(idx: u32) -> (h: Self) {
        Self(idx as usize)
    }
}

impl vstd::std_specs::convert::FromSpecImpl<u32> for FieldCellHandle {
    open spec fn obeys_from_spec() -> bool {
        true
    }

    closed spec fn from_spec(v: u32) -> Self {
        FieldCellHandle(v as usize)
    }
}

/// Streaming address: a field cell paired with the virtual page holding its data.
#[derive(Debug, Clone, Copy)]
pub struct StreamingDescriptor {
    /// Primary key — indexes the activation field's cells directly.
    pub field_handle: FieldCellHandle,
    /// Virtual page containing this chunk's data.
    pub oasis_page_id: u32,
}

impl StreamingDescriptor {
    pub fn new(field_handle: FieldCellHandle, oasis_page_id: u32) -> (d: Self)
        ensures
            d.field_handle == field_handle,
            d.oasis_page_id == oasis_page_id,
    {
        Self { field_handle, oasis_page_id }
    }

    /// Convert from a legacy `(chunk_idx, page_id)` pair.
    pub fn from_legacy(chunk_idx: u32, page_id: u32) -> (d: Self)
        ensures
            d.field_handle.value() == chunk_idx,
            d.oasis_page_id == page_id,
    {
        Self { field_handle: FieldCellHandle::from_legacy_chunk_idx(chunk_idx), oasis_page_id: page_id }
    }
}

/// Residency address: a field cell index paired with its virtual page.
#[derive(Debug, Clone, Copy)]
pub struct ResidencyDescriptor {
    pub cell_index: usize,
    pub oasis_page_id: u32,
}

/// Streaming eligibility tier of a cell.
#[derive(Debug, Clone, Copy, PartialEq, Eq)]
pub enum StreamingEligibility {
    /// Below all streaming thresholds — no streaming needed.
    Ineligible,
    /// Above the prefetch threshold — begin background load.
    PrefetchEligible,
    /// Above the resident threshold — promote immediately.
    ResidentEligible,
}

/// The eligibility tier of an `f32` probability bit pattern: resident at or
/// above the resident threshold, prefetch at or above the prefetch
/// threshold, otherwise none.
pub open spec fn eligibility_of(probability: u32) -> StreamingEligibility {
    if f32_bits_ge(probability, STREAM_RESIDENT_THRESHOLD) {
        StreamingEligibility::ResidentEligible
    } else if f32_bits_ge(probability, STREAM_PREFETCH_THRESHOLD) {
        StreamingEligibility::PrefetchEligible
    } else {
        StreamingEligibility::Ineligible
    }
}

impl StreamingEligibility {
    /// Classify an execution probability (an `f32` bit pattern).
    pub fn classify(probability: u32) -> (e: Self)
        ensures
            e == eligibility_of(probability),
    {
        if f32_bits_greater_eq(probability, STREAM_RESIDENT_THRESHOLD) {
            StreamingEligibility::ResidentEligible
        } else if f32_bits_greater_eq(probability, STREAM_PREFETCH_THRESHOLD) {
            StreamingEligibility::PrefetchEligible
        } else {
            StreamingEligibility::Ineligible
        }
    }
}

/// What the activation field reports for one cell; the two values are
/// `f32` bit patterns.
#[derive(Debug, Clone, Copy)]
pub struct ActivationDescriptor {
    pub cell_index: usize,
    pub execution_probability: u32,
    pub activation: u32,
}

/// A request to execute one cell; `priority` is an `f32` bit pattern.
#[derive(Debug, Clone, Copy)]
pub struct ExecutionDescriptor {
    pub cell_index: usize,
    pub priority: u32,
    pub deadline_frame: u64,
    pub is_prefetch_hint: bool,
}

/// Signals fed back into the runtime; the numeric payloads are `f32` bit
/// patterns.
#[derive(Debug, Clone, Copy)]
pub enum RuntimeSignal {
    EmissionThresholdCrossed { cell_index: usize, probability: u32 },
    StreamCompletionFeedback { cell_index: usize, heat_amount: u32 },
    TopologyWeightChanged { from_node: usize, to_node: usize, new_pull: u32 },
}

/// Streaming action chosen for a cell.
#[derive(Debug, Clone, Copy, PartialEq, Eq)]
pub enum StreamAction {
    Prefetch,
    PromoteResident,
}

} // verus!
