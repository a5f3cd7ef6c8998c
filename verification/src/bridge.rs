//! Renderer bridge: maps execution probabilities (as `f32` bit patterns)
//! to renderer chunk states and keeps the renderer's probability buffer
//! in step with the field.
use vstd::prelude::*;
use crate::delta::FieldDeltaMask;
use crate::emission::{EMIT_GATE, f32_bits_greater, f32_bits_gt};
use crate::runtime_frame::{f32_bits_ge, f32_bits_greater_eq, f32_bits_is_nan, f32_bits_rank};

verus! {

/// Bit pattern of `0.70f32`: at or above it a chunk is hot.
pub const BRIDGE_HOT_THRESHOLD: u32 = 0x3f33_3333u32;

/// Bit pattern of `0.35f32`: at or above it a chunk is resident.
pub const BRIDGE_RESIDENT_THRESHOLD: u32 = 0x3eb3_3333u32;

/// Bit pattern of `0.05f32`: at or above it a chunk is predictive.
pub const BRIDGE_PREDICTIVE_THRESHOLD: u32 = 0x3d4c_cccdu32;

/// Renderer-facing state of a chunk.
#[derive(Debug, Clone, Copy, PartialEq, Eq, Structural)]
pub enum ChunkState {
    Dormant,
    Predictive,
    Resident,
    Hot,
}

/// The chunk state of a probability: hot, resident or predictive at or
/// above the matching threshold, dormant otherwise (NaN included).
pub open spec fn chunk_state_of(p: u32) -> ChunkState {
    if f32_bits_ge(p, BRIDGE_HOT_THRESHOLD) {
        ChunkState::Hot
    } else if f32_bits_ge(p, BRIDGE_RESIDENT_THRESHOLD) {
        ChunkState::Resident
    } else if f32_bits_ge(p, BRIDGE_PREDICTIVE_THRESHOLD) {
        ChunkState::Predictive
    } else {
        ChunkState::Dormant
    }
}

/// Map an execution probability to its chunk state.
pub fn probability_to_chunk_state(probability: u32) -> (s: ChunkState)
    ensures
        s == chunk_state_of(probability),
{
    if f32_bits_greater_eq(probability, BRIDGE_HOT_THRESHOLD) {
        ChunkState::Hot
    } else if f32_bits_greater_eq(probability, BRIDGE_RESIDENT_THRESHOLD) {
        ChunkState::Resident
    } else if f32_bits_greater_eq(probability, BRIDGE_PREDICTIVE_THRESHOLD) {
        ChunkState::Predictive
    } else {
        ChunkState::Dormant
    }
}

/// The buffer after a sparse update: grown with `+0.0` to the field's
/// length if shorter, then every changed cell of the field copied in.
pub open spec fn sparse_buffer(old_buf: Seq<u32>, p: Seq<u32>, mask: FieldDeltaMask) -> Seq<u32> {
    let len = if old_buf.len() < p.len() { p.len() } else { old_buf.len() };
    Seq::new(
        len,
        |i: int|
            if i < p.len() && mask.changed().contains(i) && i < mask.cell_count() {
                p[i]
            } else if i < old_buf.len() {
                old_buf[i]
            } else {
                0u32
            },
    )
}

/// Stateless bridge from the activation field to renderer chunk states.
#[derive(Debug, Clone, Copy)]
pub struct RendererBridge;

impl RendererBridge {
    pub fn new() -> (b: Self) {
        Self
    }

    /// Set every chunk's state from its cell's probability.
    pub fn apply_to_directory(&self, probabilities: &[u32], states: &mut Vec<ChunkState>)
        requires
            old(states)@.len() == probabilities@.len(),
        ensures
            final(states)@ == Seq::new(probabilities@.len(), |i: int| chunk_state_of(probabilities@[i])),
    {
        let n = probabilities.len();
        let mut i: usize = 0;
        while i < n
            invariant
                n == probabilities@.len(),
                states@.len() == n,
                i <= n,
                forall|j: int| 0 <= j < i ==> states@[j] == chunk_state_of(probabilities@[j]),
            decreases n - i,
        {
            let s = probability_to_chunk_state(probabilities[i]);
            states.set(i, s);
            i += 1;
        }
        assert(states@ =~= Seq::new(probabilities@.len(), |i: int| chunk_state_of(probabilities@[i])));
    }

    /// Set the state of every changed cell from its probability; the other
    /// chunks keep theirs.
    pub fn apply_changed_cells(&self, probabilities: &[u32], states: &mut Vec<ChunkState>, delta_mask: &FieldDeltaMask)
        requires
            old(states)@.len() == probabilities@.len(),
            delta_mask.well_formed(),
        ensures
            final(states)@.len() == old(states)@.len(),
            forall|i: int| 0 <= i < probabilities@.len() ==> #[trigger] final(states)@[i] == (if delta_mask.changed().contains(i)
                && i < delta_mask.cell_count() {
                chunk_state_of(probabilities@[i])
            } else {
                old(states)@[i]
            }),
    {
        let cells = delta_mask.iter_changed();
        let ghost before = states@;
        let n = probabilities.len();
        let mut k: usize = 0;
        while k < cells.len() && cells[k] < n
            invariant
                n == probabilities@.len(),
                states@.len() == n,
                k <= cells@.len(),
                forall|a: int, b: int| 0 <= a < b < cells@.len() ==> cells@[a] < cells@[b],
                forall|i: usize|
                    #![trigger cells@.contains(i)]
                    cells@.contains(i) <==> (delta_mask.changed().contains(i as int) && i < delta_mask.cell_count()),
                forall|i: int| 0 <= i < n ==> #[trigger] states@[i] == (if exists|j: int| 0 <= j < k && cells@[j] == i {
                    chunk_state_of(probabilities@[i])
                } else {
                    before[i]
                }),
            decreases cells@.len() - k,
        {
            let idx = cells[k];
            let s = probability_to_chunk_state(probabilities[idx]);
            states.set(idx, s);
            k += 1;
            proof {
                assert forall|i: int| 0 <= i < n implies #[trigger] states@[i] == (if exists|j: int| 0 <= j < k && cells@[j] == i {
                    chunk_state_of(probabilities@[i])
                } else {
                    before[i]
                }) by {
                    if i == idx {
                        assert(cells@[k - 1] == i);
                    } else if exists|j: int| 0 <= j < k && cells@[j] == i {
                        let j = choose|j: int| 0 <= j < k && cells@[j] == i;
                        assert(j < k - 1);
                    }
                }
            }
        }
        proof {
            assert forall|j: int| k <= j < cells@.len() implies cells@[j] >= n by {
                if j > k {
                    assert(cells@[k as int] < cells@[j]);
                }
            }
            assert forall|i: int| 0 <= i < n implies #[trigger] states@[i] == (if delta_mask.changed().contains(i)
                && i < delta_mask.cell_count() {
                chunk_state_of(probabilities@[i])
            } else {
                before[i]
            }) by {
                let u = i as usize;
                if delta_mask.changed().contains(i) && i < delta_mask.cell_count() {
                    assert(cells@.contains(u));
                    let j = choose|j: int| 0 <= j < cells@.len() && cells@[j] == u;
                    assert(cells@[j] == i);
                } else if exists|j: int| 0 <= j < cells@.len() && cells@[j] == i {
                    let j = choose|j: int| 0 <= j < cells@.len() && cells@[j] == i;
                    assert(cells@.contains(cells@[j]));
                }
            }
        }
    }

    /// Grow the buffer to the field's length if it is shorter, then copy in
    /// the probability of every changed cell.
    pub fn update_probability_buffer_sparse(&self, probabilities: &[u32], buffer: &mut Vec<u32>, delta_mask: &FieldDeltaMask)
        requires
            delta_mask.well_formed(),
        ensures
            final(buffer)@ == sparse_buffer(old(buffer)@, probabilities@, *delta_mask),
    {
        let n = probabilities.len();
        let ghost before = buffer@;
        while buffer.len() < n
            invariant
                n == probabilities@.len(),
                before.len() <= buffer@.len(),
                buffer@.len() <= if before.len() < n { n as int } else { before.len() as int },
                forall|i: int| 0 <= i < before.len() ==> buffer@[i] == before[i],
                forall|i: int| before.len() <= i < buffer@.len() ==> buffer@[i] == 0u32,
            decreases n - buffer@.len(),
        {
            buffer.push(0);
        }
        let ghost grown = buffer@;
        let cells = delta_mask.iter_changed();
        let mut k: usize = 0;
        while k < cells.len() && cells[k] < n
            invariant
                n == probabilities@.len(),
                buffer@.len() == grown.len(),
                grown.len() >= n,
                k <= cells@.len(),
                forall|a: int, b: int| 0 <= a < b < cells@.len() ==> cells@[a] < cells@[b],
                forall|i: int| 0 <= i < grown.len() ==> #[trigger] buffer@[i] == (if i < n && exists|j: int| 0 <= j < k && cells@[j] == i {
                    probabilities@[i]
                } else {
                    grown[i]
                }),
            decreases cells@.len() - k,
        {
            let idx = cells[k];
            buffer.set(idx, probabilities[idx]);
            k += 1;
            proof {
                assert forall|i: int| 0 <= i < grown.len() implies #[trigger] buffer@[i] == (if i < n && exists|j: int| 0 <= j < k && cells@[j] == i {
                    probabilities@[i]
                } else {
                    grown[i]
                }) by {
                    if i == idx {
                        assert(cells@[k - 1] == i);
                    } else if i < n && exists|j: int| 0 <= j < k && cells@[j] == i {
                        let j = choose|j: int| 0 <= j < k && cells@[j] == i;
                        assert(j < k - 1);
                    }
                }
            }
        }
        proof {
            assert forall|j: int| k <= j < cells@.len() implies cells@[j] >= n by {
                if j > k {
                    assert(cells@[k as int] < cells@[j]);
                }
            }
            assert forall|i: int| 0 <= i < buffer@.len() implies #[trigger] buffer@[i] == sparse_buffer(before, probabilities@, *delta_mask)[i] by {
                if i < n && delta_mask.changed().contains(i) && i < delta_mask.cell_count() {
                    let u = i as usize;
                    assert(cells@.contains(u));
                    let j = choose|j: int| 0 <= j < cells@.len() && cells@[j] == u;
                    assert(cells@[j] == i);
                } else if i < n && exists|j: int| 0 <= j < cells@.len() && cells@[j] == i {
                    let j = choose|j: int| 0 <= j < cells@.len() && cells@[j] == i;
                    assert(cells@.contains(cells@[j]));
                }
            }
            assert(buffer@ =~= sparse_buffer(before, probabilities@, *delta_mask));
        }
    }

    /// Replace the output with the field's probabilities, in cell order.
    pub fn fill_probability_buffer(&self, probabilities: &[u32], output: &mut Vec<u32>)
        ensures
            final(output)@ == probabilities@,
    {
        output.clear();
        let mut i: usize = 0;
        while i < probabilities.len()
            invariant
                i <= probabilities@.len(),
                output@ == probabilities@.take(i as int),
            decreases probabilities@.len() - i,
        {
            output.push(probabilities[i]);
            i += 1;
            assert(output@ =~= probabilities@.take(i as int));
        }
        assert(probabilities@.take(i as int) =~= probabilities@);
    }

    /// The chunk state of a probability.
    pub fn cell_to_chunk_state(&self, probability: u32) -> (s: ChunkState)
        ensures
            s == chunk_state_of(probability),
    {
        probability_to_chunk_state(probability)
    }

    /// Whether the probability passes the emission gate.
    pub fn is_emission_eligible(&self, probability: u32) -> (b: bool)
        ensures
            b == f32_bits_gt(probability, EMIT_GATE),
    {
        f32_bits_greater(probability, EMIT_GATE)
    }

    /// Whether a chunk at this probability is rendered: resident or hotter.
    pub fn should_render(&self, probability: u32) -> (b: bool)
        ensures
            b == f32_bits_ge(probability, BRIDGE_RESIDENT_THRESHOLD),
    {
        f32_bits_greater_eq(probability, BRIDGE_RESIDENT_THRESHOLD)
    }

    /// Whether a chunk at this probability is streamed: predictive but not
    /// yet resident.
    pub fn should_stream(&self, probability: u32) -> (b: bool)
        ensures
            b == (f32_bits_ge(probability, BRIDGE_PREDICTIVE_THRESHOLD) && !f32_bits_ge(probability, BRIDGE_RESIDENT_THRESHOLD)),
    {
        f32_bits_greater_eq(probability, BRIDGE_PREDICTIVE_THRESHOLD)
            && !f32_bits_greater_eq(probability, BRIDGE_RESIDENT_THRESHOLD)
    }
}

impl Default for RendererBridge {
    fn default() -> (b: Self) {
        Self
    }
}

/// The level of a chunk state: dormant, predictive, resident, hot.
pub open spec fn chunk_level(s: ChunkState) -> int {
    match s {
        ChunkState::Dormant => 0,
        ChunkState::Predictive => 1,
        ChunkState::Resident => 2,
        ChunkState::Hot => 3,
    }
}

/// A higher probability never gives a lower chunk state; a chunk is
/// rendered exactly when its state is resident or hot, and streamed
/// exactly when it is predictive.
pub proof fn lemma_chunk_state_monotone(p: u32, q: u32)
    ensures
        !f32_bits_is_nan(p) && !f32_bits_is_nan(q) && f32_bits_rank(p) <= f32_bits_rank(q) ==> chunk_level(
            chunk_state_of(p),
        ) <= chunk_level(chunk_state_of(q)),
        (chunk_state_of(p) == ChunkState::Resident || chunk_state_of(p) == ChunkState::Hot) == f32_bits_ge(
            p,
            BRIDGE_RESIDENT_THRESHOLD,
        ),
        (chunk_state_of(p) == ChunkState::Predictive) == (f32_bits_ge(p, BRIDGE_PREDICTIVE_THRESHOLD) && !f32_bits_ge(
            p,
            BRIDGE_RESIDENT_THRESHOLD,
        )),
        (chunk_state_of(p) == ChunkState::Hot) == f32_bits_ge(p, BRIDGE_HOT_THRESHOLD),
{
    assert(!f32_bits_is_nan(BRIDGE_HOT_THRESHOLD)) by (bit_vector);
    assert(!f32_bits_is_nan(BRIDGE_RESIDENT_THRESHOLD)) by (bit_vector);
    assert(!f32_bits_is_nan(BRIDGE_PREDICTIVE_THRESHOLD)) by (bit_vector);
}

/// A sparse update keeps the renderer's buffer equal to the field: when the
/// buffer held the previous field and the change mask covers the field and
/// marks every cell whose probability changed, the updated buffer is the
/// new field.
pub proof fn lemma_sparse_buffer_tracks_field(prev: Seq<u32>, p: Seq<u32>, mask: FieldDeltaMask)
    requires
        prev.len() == p.len(),
        p.len() <= mask.cell_count(),
        forall|i: int| 0 <= i < p.len() && p[i] != prev[i] ==> #[trigger] mask.changed().contains(i),
    ensures
        sparse_buffer(prev, p, mask) == p,
{
    assert(sparse_buffer(prev, p, mask) =~= p);
}

} // verus!
