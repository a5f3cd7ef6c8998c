//! Parity of the sparse renderer update against the authoritative one:
//! chunk-state comparison over the changed cells and the untouched cells,
//! and the accumulated history.  Probability drifts are `f32` values that
//! the caller measures; they are held here as bit patterns.
use vstd::prelude::*;
use crate::bridge::ChunkState;
use crate::delta::FieldDeltaMask;
use crate::emission::{f32_bits_greater, f32_bits_gt};
use crate::runtime_frame::{f32_bits_is_nan, f32_bits_ge};
use crate::validation::max_usize;

verus! {

/// Consecutive passing ticks needed before promotion.
pub const RENDERER_PROMOTION_THRESHOLD: u64 = 1000;

/// One tick's comparison of the shadow renderer state with the
/// authoritative one; the drifts are `f32` bit patterns.
#[derive(Debug, Clone, Copy, Default)]
pub struct RendererParityReport {
    pub mismatched_chunk_states: usize,
    pub max_probability_drift: u32,
    pub mean_probability_drift: u32,
    pub changed_cells_checked: usize,
    pub severe_divergence: bool,
}

/// Accumulated renderer validation history; the peak drift is an `f32`
/// bit pattern.
#[derive(Debug, Clone, Copy, Default)]
pub struct DifferentialRendererValidationReport {
    pub ticks_run: u64,
    pub ticks_passed: u64,
    pub ticks_failed: u64,
    pub consecutive_passes: u64,
    pub severe_divergence_events: u64,
    pub peak_probability_drift: u32,
    pub peak_chunk_state_mismatches: usize,
}

/// The larger of two drifts as `f32::max` picks it: a NaN gives way to the
/// other value; on a tie the current peak stays.
pub open spec fn drift_peak(peak: u32, x: u32) -> u32 {
    if f32_bits_is_nan(peak) || f32_bits_gt(x, peak) { x } else { peak }
}

/// A renderer tick passes when no chunk state mismatched and nothing diverged.
pub open spec fn renderer_tick_passed(p: RendererParityReport) -> bool {
    p.mismatched_chunk_states == 0 && !p.severe_divergence
}

/// The renderer history after recording one tick's report.
pub open spec fn renderer_recorded(
    r: DifferentialRendererValidationReport,
    p: RendererParityReport,
) -> DifferentialRendererValidationReport {
    let passed = renderer_tick_passed(p);
    DifferentialRendererValidationReport {
        ticks_run: (r.ticks_run + 1) as u64,
        ticks_passed: if passed { (r.ticks_passed + 1) as u64 } else { r.ticks_passed },
        ticks_failed: if passed { r.ticks_failed } else { (r.ticks_failed + 1) as u64 },
        consecutive_passes: if passed { (r.consecutive_passes + 1) as u64 } else { 0 },
        severe_divergence_events: if p.severe_divergence {
            (r.severe_divergence_events + 1) as u64
        } else {
            r.severe_divergence_events
        },
        peak_probability_drift: drift_peak(r.peak_probability_drift, p.max_probability_drift),
        peak_chunk_state_mismatches: max_usize(r.peak_chunk_state_mismatches, p.mismatched_chunk_states),
    }
}

impl DifferentialRendererValidationReport {
    /// Record one tick's renderer parity report.
    pub fn record(&mut self, parity: &RendererParityReport)
        requires
            old(self).ticks_run < u64::MAX,
            old(self).ticks_passed < u64::MAX,
            old(self).ticks_failed < u64::MAX,
            old(self).consecutive_passes < u64::MAX,
            old(self).severe_divergence_events < u64::MAX,
        ensures
            *final(self) == renderer_recorded(*old(self), *parity),
    {
        self.ticks_run = self.ticks_run + 1;
        let passed = parity.mismatched_chunk_states == 0 && !parity.severe_divergence;
        if passed {
            self.ticks_passed = self.ticks_passed + 1;
            self.consecutive_passes = self.consecutive_passes + 1;
        } else {
            self.ticks_failed = self.ticks_failed + 1;
            self.consecutive_passes = 0;
        }
        if parity.severe_divergence {
            self.severe_divergence_events = self.severe_divergence_events + 1;
        }
        let peak = self.peak_probability_drift;
        let peak_nan = (peak & 0x7f80_0000u32) == 0x7f80_0000u32 && (peak & 0x007f_ffffu32) != 0;
        if peak_nan || f32_bits_greater(parity.max_probability_drift, peak) {
            self.peak_probability_drift = parity.max_probability_drift;
        }
        if parity.mismatched_chunk_states > self.peak_chunk_state_mismatches {
            self.peak_chunk_state_mismatches = parity.mismatched_chunk_states;
        }
    }

    /// Promotion needs a long enough run of passes and no severe divergence.
    pub fn eligible_for_promotion(&self) -> (r: bool)
        ensures
            r == (self.consecutive_passes >= RENDERER_PROMOTION_THRESHOLD && self.severe_divergence_events == 0),
    {
        self.consecutive_passes >= RENDERER_PROMOTION_THRESHOLD && self.severe_divergence_events == 0
    }
}

/// Recording a renderer tick keeps the peaks.  The peak of mismatched
/// chunk states is at least the peak before and the tick's count, and one
/// of the two.  The peak drift is the drift before or the tick's drift, and
/// (in `f32` order) at least each of them that is a number.
pub proof fn lemma_renderer_peaks(r: DifferentialRendererValidationReport, p: RendererParityReport)
    ensures
        renderer_recorded(r, p).peak_chunk_state_mismatches >= r.peak_chunk_state_mismatches,
        renderer_recorded(r, p).peak_chunk_state_mismatches >= p.mismatched_chunk_states,
        renderer_recorded(r, p).peak_chunk_state_mismatches == r.peak_chunk_state_mismatches
            || renderer_recorded(r, p).peak_chunk_state_mismatches == p.mismatched_chunk_states,
        renderer_recorded(r, p).peak_probability_drift == r.peak_probability_drift
            || renderer_recorded(r, p).peak_probability_drift == p.max_probability_drift,
        !f32_bits_is_nan(p.max_probability_drift) ==> f32_bits_ge(
            renderer_recorded(r, p).peak_probability_drift,
            p.max_probability_drift,
        ),
        !f32_bits_is_nan(r.peak_probability_drift) ==> f32_bits_ge(
            renderer_recorded(r, p).peak_probability_drift,
            r.peak_probability_drift,
        ),
{
}

/// Recording a renderer tick counts it: a tick with no mismatched chunk
/// state and no severe divergence passes and extends the run of passes by
/// one; any other tick fails and ends the run; a severe divergence is
/// counted.
pub proof fn lemma_renderer_counts(r: DifferentialRendererValidationReport, p: RendererParityReport)
    requires
        r.ticks_run < u64::MAX,
        r.ticks_passed < u64::MAX,
        r.ticks_failed < u64::MAX,
        r.consecutive_passes < u64::MAX,
        r.severe_divergence_events < u64::MAX,
    ensures
        renderer_recorded(r, p).ticks_run == r.ticks_run + 1,
        (p.mismatched_chunk_states == 0 && !p.severe_divergence) ==> {
            &&& renderer_recorded(r, p).ticks_passed == r.ticks_passed + 1
            &&& renderer_recorded(r, p).ticks_failed == r.ticks_failed
            &&& renderer_recorded(r, p).consecutive_passes == r.consecutive_passes + 1
        },
        !(p.mismatched_chunk_states == 0 && !p.severe_divergence) ==> {
            &&& renderer_recorded(r, p).ticks_failed == r.ticks_failed + 1
            &&& renderer_recorded(r, p).ticks_passed == r.ticks_passed
            &&& renderer_recorded(r, p).consecutive_passes == 0
        },
        renderer_recorded(r, p).severe_divergence_events == r.severe_divergence_events + (if p.severe_divergence {
            1int
        } else {
            0int
        }),
{
}

/// Cell `i` is one the sparse update touched and the comparison checks:
/// marked changed and inside the mask's cells.
pub open spec fn checked_cell(mask: FieldDeltaMask, i: int) -> bool {
    mask.changed().contains(i) && i < mask.cell_count()
}

/// Number of cells below `n` that the comparison checks.
pub open spec fn cells_checked(mask: FieldDeltaMask, n: int) -> nat
    decreases n,
{
    if n <= 0 {
        0
    } else {
        cells_checked(mask, n - 1) + if checked_cell(mask, n - 1) { 1nat } else { 0nat }
    }
}

/// Number of mismatches below `n`: a checked cell whose shadow state
/// differs from the authoritative one, or an unmarked cell whose shadow
/// state moved since before the update.
pub open spec fn state_mismatches(
    shadow: Seq<ChunkState>,
    previous: Seq<ChunkState>,
    authoritative: Seq<ChunkState>,
    mask: FieldDeltaMask,
    n: int,
) -> nat
    decreases n,
{
    if n <= 0 {
        0
    } else {
        let i = n - 1;
        state_mismatches(shadow, previous, authoritative, mask, i) + if checked_cell(mask, i) {
            if shadow[i] != authoritative[i] { 1nat } else { 0nat }
        } else if !mask.changed().contains(i) {
            if shadow[i] != previous[i] { 1nat } else { 0nat }
        } else {
            0nat
        }
    }
}

/// Compare the shadow chunk states, after a sparse update, with the
/// authoritative states and with the shadow states from before the update.
/// Returns the number of checked cells, the number of mismatches, and
/// whether any mismatch (a severe divergence) was found.
pub fn renderer_state_parity(
    shadow: &[ChunkState],
    previous: &[ChunkState],
    authoritative: &[ChunkState],
    delta: &FieldDeltaMask,
) -> (r: (usize, usize, bool))
    requires
        delta.well_formed(),
        shadow@.len() <= 64 * delta.word_count(),
        previous@.len() == shadow@.len(),
        forall|i: int| 0 <= i < shadow@.len() && #[trigger] checked_cell(*delta, i) ==> i < authoritative@.len(),
    ensures
        r.0 == cells_checked(*delta, shadow@.len() as int),
        r.1 == state_mismatches(shadow@, previous@, authoritative@, *delta, shadow@.len() as int),
        r.2 == (r.1 > 0),
{
    let n = shadow.len();
    let cell_count = delta.num_cells();
    let mut checked: usize = 0;
    let mut mismatched: usize = 0;
    let mut i: usize = 0;
    while i < n
        invariant
            n == shadow@.len(),
            n <= 64 * delta.word_count(),
            cell_count == delta.cell_count(),
            previous@.len() == n,
            forall|j: int| 0 <= j < n && #[trigger] checked_cell(*delta, j) ==> j < authoritative@.len(),
            i <= n,
            checked == cells_checked(*delta, i as int),
            mismatched == state_mismatches(shadow@, previous@, authoritative@, *delta, i as int),
            checked <= i,
            mismatched <= i,
        decreases n - i,
    {
        let marked = delta.is_changed(i);
        if marked && i < cell_count {
            assert(checked_cell(*delta, i as int));
            checked = checked + 1;
            if shadow[i] != authoritative[i] {
                mismatched = mismatched + 1;
            }
        } else if !marked {
            if shadow[i] != previous[i] {
                mismatched = mismatched + 1;
            }
        }
        i = i + 1;
    }
    (checked, mismatched, mismatched > 0)
}

} // verus!
