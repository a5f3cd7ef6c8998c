//! Shadow-validation modes and the pass/fail histories that gate promotion
//! of differential paths.
use vstd::prelude::*;
use vstd::multiset::Multiset;
use crate::delta::FieldDeltaMask;
use crate::emission::{
    EmissionGate, EmissionRequest, MAX_EMIT_PER_TICK, above_gate, carried, gate_candidates,
    gate_output_ok, lemma_distinct_cells_distinct_keys, lemma_ranked_is, lemma_ranked_same,
    lemma_requests_where_has, lemma_requests_where_increasing, lemma_requests_where_members,
    ranked, requests_where, rescanned, sparse_candidates, sparse_scan_allowed, sparse_scanned,
    within_budget,
};
use crate::ordering::lemma_same_members_same_key_order;
use crate::ordering::stable_sort_by_key;
use crate::runtime_frame::f32_bits_is_nan;
use crate::emission::{f32_bits_gt, EMIT_GATE, lemma_sparse_scan_keeps_eligibility};

verus! {

/// Consecutive clean ticks required before differential emission may be promoted.
pub const PASS_PROMOTION_THRESHOLD: u64 = 1_000;

/// Consecutive clean ticks required before differential regions may be promoted.
pub const REGION_PROMOTION_THRESHOLD: u64 = 1000;

/// Consecutive clean ticks required before sparse solving may be promoted.
pub const SPARSE_PROMOTION_THRESHOLD: u64 = 1_000;

/// What the sparse validation layer does each tick.
#[derive(Debug, Clone, Copy, PartialEq, Eq, Default, Structural)]
pub enum ValidationMode {
    /// Validation is disabled.  Only the full solver runs.
    #[default]
    Disabled,
    /// Run both solvers; the full solver is authoritative.
    Parallel,
    /// Sparse solver is authoritative (requires explicit promotion).
    SparseAuthoritative,
}

#[derive(Debug, Clone, Copy, PartialEq, Eq, Default, Structural)]
pub enum DifferentialEmissionMode {
    #[default]
    Disabled,
    ShadowValidation,
    DifferentialAuthoritative,
}

#[derive(Debug, Clone, Copy, PartialEq, Eq, Structural)]
pub enum DifferentialRegionMode {
    Disabled,
    ShadowValidation,
    DifferentialAuthoritative,
}

#[derive(Debug, Clone, Copy, PartialEq, Eq, Structural)]
pub enum DifferentialRendererMode {
    Disabled,
    ShadowValidation,
    DifferentialAuthoritative,
}

/// Output counters of one sparse solver step.
#[derive(Debug, Clone, Copy, Default)]
pub struct SparseSolverResult {
    /// Number of cells processed by the sparse passes.
    pub cells_processed: usize,
    /// Total field cells.
    pub total_cells: usize,
    /// Number of cells whose decay was skipped.
    pub decay_skipped: usize,
    /// Whether a full-field decay pass was run.
    pub full_decay_ran: bool,
    /// Whether sparse mode was used.
    pub used_sparse: bool,
}

/// Comparison of authoritative and differential emission for one tick.
#[derive(Debug, Clone, Copy, Default)]
pub struct EmissionParityReport {
    pub authoritative_count: usize,
    pub differential_count: usize,
    pub missing_from_differential: usize,
    pub extra_in_differential: usize,
    pub order_mismatches: usize,
    pub all_passed: bool,
}

/// Accumulated emission validation history.
#[derive(Debug, Clone, Copy, Default)]
pub struct DifferentialEmissionValidationReport {
    pub ticks_run: u64,
    pub ticks_passed: u64,
    pub ticks_failed: u64,
    pub consecutive_passes: u64,
    pub peak_missing: usize,
    pub peak_extra: usize,
    pub peak_order_mismatch: usize,
    pub total_missing_events: u64,
    pub total_extra_events: u64,
}

pub open spec fn max_usize(a: usize, b: usize) -> usize {
    if a >= b { a } else { b }
}

/// The emission history after recording one tick's report.
pub open spec fn emission_recorded(
    r: DifferentialEmissionValidationReport,
    p: EmissionParityReport,
) -> DifferentialEmissionValidationReport {
    DifferentialEmissionValidationReport {
        ticks_run: (r.ticks_run + 1) as u64,
        ticks_passed: if p.all_passed { (r.ticks_passed + 1) as u64 } else { r.ticks_passed },
        ticks_failed: if p.all_passed { r.ticks_failed } else { (r.ticks_failed + 1) as u64 },
        consecutive_passes: if p.all_passed { (r.consecutive_passes + 1) as u64 } else { 0 },
        peak_missing: max_usize(r.peak_missing, p.missing_from_differential),
        peak_extra: max_usize(r.peak_extra, p.extra_in_differential),
        peak_order_mismatch: max_usize(r.peak_order_mismatch, p.order_mismatches),
        total_missing_events: (r.total_missing_events + p.missing_from_differential) as u64,
        total_extra_events: (r.total_extra_events + p.extra_in_differential) as u64,
    }
}

/// An empty emission history.
pub open spec fn emission_history_empty() -> DifferentialEmissionValidationReport {
    DifferentialEmissionValidationReport {
        ticks_run: 0,
        ticks_passed: 0,
        ticks_failed: 0,
        consecutive_passes: 0,
        peak_missing: 0,
        peak_extra: 0,
        peak_order_mismatch: 0,
        total_missing_events: 0,
        total_extra_events: 0,
    }
}

/// The counters of a history agree: every tick passed or failed, and the
/// current run of passes is part of the passes.
pub open spec fn emission_history_consistent(r: DifferentialEmissionValidationReport) -> bool {
    r.ticks_run == r.ticks_passed + r.ticks_failed && r.consecutive_passes <= r.ticks_passed
}

impl DifferentialEmissionValidationReport {
    pub fn new() -> (r: Self)
        ensures
            r == emission_history_empty(),
    {
        Self {
            ticks_run: 0,
            ticks_passed: 0,
            ticks_failed: 0,
            consecutive_passes: 0,
            peak_missing: 0,
            peak_extra: 0,
            peak_order_mismatch: 0,
            total_missing_events: 0,
            total_extra_events: 0,
        }
    }

    /// Record one tick's parity report.
    pub fn record(&mut self, report: &EmissionParityReport)
        requires
            old(self).ticks_run < u64::MAX,
            old(self).ticks_passed < u64::MAX,
            old(self).ticks_failed < u64::MAX,
            old(self).consecutive_passes < u64::MAX,
            old(self).total_missing_events + report.missing_from_differential <= u64::MAX,
            old(self).total_extra_events + report.extra_in_differential <= u64::MAX,
        ensures
            *final(self) == emission_recorded(*old(self), *report),
    {
        self.ticks_run = self.ticks_run + 1;
        if report.all_passed {
            self.ticks_passed = self.ticks_passed + 1;
            self.consecutive_passes = self.consecutive_passes + 1;
        } else {
            self.ticks_failed = self.ticks_failed + 1;
            self.consecutive_passes = 0;
        }
        if report.missing_from_differential > self.peak_missing {
            self.peak_missing = report.missing_from_differential;
        }
        if report.extra_in_differential > self.peak_extra {
            self.peak_extra = report.extra_in_differential;
        }
        if report.order_mismatches > self.peak_order_mismatch {
            self.peak_order_mismatch = report.order_mismatches;
        }
        self.total_missing_events = self.total_missing_events + report.missing_from_differential as u64;
        self.total_extra_events = self.total_extra_events + report.extra_in_differential as u64;
    }

    /// Whether the run of consecutive passes has reached the promotion
    /// threshold.  It does not switch the validator's mode.
    pub fn eligible_for_promotion(&self) -> (r: bool)
        ensures
            r == (self.consecutive_passes >= PASS_PROMOTION_THRESHOLD),
    {
        self.consecutive_passes >= PASS_PROMOTION_THRESHOLD
    }

    /// Reset all statistics.
    pub fn reset(&mut self)
        ensures
            *final(self) == emission_history_empty(),
    {
        *self = Self::new();
    }
}

/// Recording keeps the counters consistent; a failed tick resets the run
/// of passes (so promotion has to be earned again), and a passing tick
/// extends it by one.
pub proof fn lemma_emission_history(r: DifferentialEmissionValidationReport, p: EmissionParityReport)
    requires
        emission_history_consistent(r),
        r.ticks_run < u64::MAX,
        r.total_missing_events + p.missing_from_differential <= u64::MAX,
        r.total_extra_events + p.extra_in_differential <= u64::MAX,
    ensures
        emission_history_consistent(emission_recorded(r, p)),
        !p.all_passed ==> emission_recorded(r, p).consecutive_passes == 0
            && emission_recorded(r, p).ticks_failed > 0,
        p.all_passed ==> emission_recorded(r, p).consecutive_passes == r.consecutive_passes + 1,
        emission_history_consistent(emission_history_empty()),
{
}

/// The counters of the sparse-solver validation history: ticks run,
/// passed and failed, the current run of passes, and severe divergences.
#[derive(Debug, Clone, Copy, Default, PartialEq, Eq, Structural)]
pub struct FrontierValidationCounters {
    pub ticks_run: u64,
    pub ticks_passed: u64,
    pub ticks_failed: u64,
    pub consecutive_passes: u64,
    pub severe_divergence_events: u64,
}

/// The counters after one tick that passed (or not) and diverged
/// severely (or not).
pub open spec fn frontier_counted(c: FrontierValidationCounters, passed: bool, severe: bool) -> FrontierValidationCounters {
    FrontierValidationCounters {
        ticks_run: (c.ticks_run + 1) as u64,
        ticks_passed: if passed { (c.ticks_passed + 1) as u64 } else { c.ticks_passed },
        ticks_failed: if passed { c.ticks_failed } else { (c.ticks_failed + 1) as u64 },
        consecutive_passes: if passed { (c.consecutive_passes + 1) as u64 } else { 0 },
        severe_divergence_events: if severe { (c.severe_divergence_events + 1) as u64 } else { c.severe_divergence_events },
    }
}

impl FrontierValidationCounters {
    /// Counters with nothing recorded.
    pub fn new() -> (c: Self)
        ensures
            c == (FrontierValidationCounters {
                ticks_run: 0,
                ticks_passed: 0,
                ticks_failed: 0,
                consecutive_passes: 0,
                severe_divergence_events: 0,
            }),
    {
        FrontierValidationCounters {
            ticks_run: 0,
            ticks_passed: 0,
            ticks_failed: 0,
            consecutive_passes: 0,
            severe_divergence_events: 0,
        }
    }

    /// Count one tick: whether its parity passed and whether it diverged
    /// severely.
    pub fn record(&mut self, passed: bool, severe: bool)
        requires
            old(self).ticks_run < u64::MAX,
            old(self).ticks_passed < u64::MAX,
            old(self).ticks_failed < u64::MAX,
            old(self).consecutive_passes < u64::MAX,
            old(self).severe_divergence_events < u64::MAX,
        ensures
            *final(self) == frontier_counted(*old(self), passed, severe),
    {
        self.ticks_run = self.ticks_run + 1;
        if passed {
            self.ticks_passed = self.ticks_passed + 1;
            self.consecutive_passes = self.consecutive_passes + 1;
        } else {
            self.ticks_failed = self.ticks_failed + 1;
            self.consecutive_passes = 0;
        }
        if severe {
            self.severe_divergence_events = self.severe_divergence_events + 1;
        }
    }

    /// Whether the sparse solver has earned promotion consideration: a long
    /// enough run of passes and no severe divergence.
    pub fn eligible_for_promotion(&self) -> (r: bool)
        ensures
            r == (self.consecutive_passes >= SPARSE_PROMOTION_THRESHOLD && self.severe_divergence_events == 0),
    {
        self.consecutive_passes >= SPARSE_PROMOTION_THRESHOLD && self.severe_divergence_events == 0
    }
}

/// Region-state comparison between shadow and authoritative maps.
#[derive(Debug, Clone, Copy, Default)]
pub struct RegionParityReport {
    pub mismatched_region_states: usize,
    pub active_region_count_match: bool,
    pub dormant_region_count_match: bool,
    pub hot_region_count_match: bool,
    pub region_transitions_checked: usize,
    pub severe_divergence: bool,
}

/// Accumulated region validation history.
#[derive(Debug, Clone, Copy, Default)]
pub struct DifferentialRegionValidationReport {
    pub ticks_run: u64,
    pub ticks_passed: u64,
    pub ticks_failed: u64,
    pub consecutive_passes: u64,
    pub severe_divergence_events: u64,
    pub peak_mismatched_regions: usize,
}

/// A region tick passes when no region state mismatched and nothing diverged.
pub open spec fn region_tick_passed(p: RegionParityReport) -> bool {
    p.mismatched_region_states == 0 && !p.severe_divergence
}

/// The region history after recording one tick's report.
pub open spec fn region_recorded(
    r: DifferentialRegionValidationReport,
    p: RegionParityReport,
) -> DifferentialRegionValidationReport {
    let passed = region_tick_passed(p);
    DifferentialRegionValidationReport {
        ticks_run: (r.ticks_run + 1) as u64,
        ticks_passed: if passed { (r.ticks_passed + 1) as u64 } else { r.ticks_passed },
        ticks_failed: if passed { r.ticks_failed } else { (r.ticks_failed + 1) as u64 },
        consecutive_passes: if passed { (r.consecutive_passes + 1) as u64 } else { 0 },
        severe_divergence_events: if p.severe_divergence {
            (r.severe_divergence_events + 1) as u64
        } else {
            r.severe_divergence_events
        },
        peak_mismatched_regions: max_usize(r.peak_mismatched_regions, p.mismatched_region_states),
    }
}

impl DifferentialRegionValidationReport {
    /// Record one tick's region parity report.
    pub fn record(&mut self, parity: &RegionParityReport)
        requires
            old(self).ticks_run < u64::MAX,
            old(self).ticks_passed < u64::MAX,
            old(self).ticks_failed < u64::MAX,
            old(self).consecutive_passes < u64::MAX,
            old(self).severe_divergence_events < u64::MAX,
        ensures
            *final(self) == region_recorded(*old(self), *parity),
    {
        self.ticks_run = self.ticks_run + 1;
        let passed = parity.mismatched_region_states == 0 && !parity.severe_divergence;
        if passed {
            self.ticks_passed = self.ticks_passed + 1;
            self.consecutive_passes = self.consecutive_passes + 1;
        } else {
            self.ticks_failed = self.ticks_failed + 1;
            self.consecutive_passes = 0;
        }
        if parity.severe_divergence {
            self.severe_divergence_events = self.severe_divergence_events + 1;
        }
        if parity.mismatched_region_states > self.peak_mismatched_regions {
            self.peak_mismatched_regions = parity.mismatched_region_states;
        }
    }

    /// Promotion needs a long enough run of passes and no severe divergence.
    pub fn eligible_for_promotion(&self) -> (r: bool)
        ensures
            r == (self.consecutive_passes >= REGION_PROMOTION_THRESHOLD && self.severe_divergence_events
                == 0),
    {
        self.consecutive_passes >= REGION_PROMOTION_THRESHOLD && self.severe_divergence_events == 0
    }
}

/// Recording a tick keeps the peaks: each peak afterwards is at least the
/// peak before and at least the tick's own count, and is one of the two.
/// One more tick has run, counted as passed or failed as the report says,
/// and the event totals grow by the tick's counts.
pub proof fn lemma_emission_peaks(r: DifferentialEmissionValidationReport, p: EmissionParityReport)
    requires
        r.ticks_run < u64::MAX,
        r.ticks_passed < u64::MAX,
        r.ticks_failed < u64::MAX,
        r.total_missing_events + p.missing_from_differential <= u64::MAX,
        r.total_extra_events + p.extra_in_differential <= u64::MAX,
    ensures
        emission_recorded(r, p).peak_missing >= r.peak_missing,
        emission_recorded(r, p).peak_missing >= p.missing_from_differential,
        emission_recorded(r, p).peak_missing == r.peak_missing || emission_recorded(r, p).peak_missing
            == p.missing_from_differential,
        emission_recorded(r, p).peak_extra >= r.peak_extra,
        emission_recorded(r, p).peak_extra >= p.extra_in_differential,
        emission_recorded(r, p).peak_extra == r.peak_extra || emission_recorded(r, p).peak_extra
            == p.extra_in_differential,
        emission_recorded(r, p).peak_order_mismatch >= r.peak_order_mismatch,
        emission_recorded(r, p).peak_order_mismatch >= p.order_mismatches,
        emission_recorded(r, p).peak_order_mismatch == r.peak_order_mismatch || emission_recorded(
            r,
            p,
        ).peak_order_mismatch == p.order_mismatches,
        emission_recorded(r, p).ticks_run == r.ticks_run + 1,
        p.all_passed ==> emission_recorded(r, p).ticks_passed == r.ticks_passed + 1 && emission_recorded(
            r,
            p,
        ).ticks_failed == r.ticks_failed,
        !p.all_passed ==> emission_recorded(r, p).ticks_failed == r.ticks_failed + 1 && emission_recorded(
            r,
            p,
        ).ticks_passed == r.ticks_passed,
        emission_recorded(r, p).total_missing_events == r.total_missing_events + p.missing_from_differential,
        emission_recorded(r, p).total_extra_events == r.total_extra_events + p.extra_in_differential,
{
}

/// The emission history after recording `ps` in order, starting from `r`.
pub open spec fn emission_recorded_all(
    r: DifferentialEmissionValidationReport,
    ps: Seq<EmissionParityReport>,
) -> DifferentialEmissionValidationReport
    decreases ps.len(),
{
    if ps.len() == 0 {
        r
    } else {
        emission_recorded(emission_recorded_all(r, ps.drop_last()), ps.last())
    }
}

/// Since the last reset, each peak is the largest count of its kind that
/// any recorded tick reported (zero when none was recorded): at least every
/// such count, and equal to one of them.
pub proof fn lemma_emission_peaks_over_history(ps: Seq<EmissionParityReport>)
    ensures
        forall|j: int| 0 <= j < ps.len() ==> {
            &&& emission_recorded_all(emission_history_empty(), ps).peak_missing >= (
            #[trigger] ps[j]).missing_from_differential
            &&& emission_recorded_all(emission_history_empty(), ps).peak_extra >= ps[j].extra_in_differential
            &&& emission_recorded_all(emission_history_empty(), ps).peak_order_mismatch >= ps[j].order_mismatches
        },
        emission_recorded_all(emission_history_empty(), ps).peak_missing == 0 || exists|j: int|
            0 <= j < ps.len() && emission_recorded_all(emission_history_empty(), ps).peak_missing == (
            #[trigger] ps[j]).missing_from_differential,
        emission_recorded_all(emission_history_empty(), ps).peak_extra == 0 || exists|j: int|
            0 <= j < ps.len() && emission_recorded_all(emission_history_empty(), ps).peak_extra == (
            #[trigger] ps[j]).extra_in_differential,
        emission_recorded_all(emission_history_empty(), ps).peak_order_mismatch == 0 || exists|j: int|
            0 <= j < ps.len() && emission_recorded_all(emission_history_empty(), ps).peak_order_mismatch == (
            #[trigger] ps[j]).order_mismatches,
    decreases ps.len(),
{
    if ps.len() > 0 {
        let d = ps.drop_last();
        lemma_emission_peaks_over_history(d);
        let before = emission_recorded_all(emission_history_empty(), d);
        let after = emission_recorded_all(emission_history_empty(), ps);
        let l = ps.last();
        assert(after == emission_recorded(before, l));
        assert forall|j: int| 0 <= j < ps.len() implies {
            &&& after.peak_missing >= (#[trigger] ps[j]).missing_from_differential
            &&& after.peak_extra >= ps[j].extra_in_differential
            &&& after.peak_order_mismatch >= ps[j].order_mismatches
        } by {
            if j < d.len() {
                assert(d[j] == ps[j]);
            }
        }
        if after.peak_missing != 0 {
            if after.peak_missing == l.missing_from_differential {
                assert(ps[ps.len() - 1] == l);
            } else {
                let j = choose|j: int| 0 <= j < d.len() && before.peak_missing == (#[trigger] d[j]).missing_from_differential;
                assert(ps[j] == d[j]);
            }
        }
        if after.peak_extra != 0 {
            if after.peak_extra == l.extra_in_differential {
                assert(ps[ps.len() - 1] == l);
            } else {
                let j = choose|j: int| 0 <= j < d.len() && before.peak_extra == (#[trigger] d[j]).extra_in_differential;
                assert(ps[j] == d[j]);
            }
        }
        if after.peak_order_mismatch != 0 {
            if after.peak_order_mismatch == l.order_mismatches {
                assert(ps[ps.len() - 1] == l);
            } else {
                let j = choose|j: int| 0 <= j < d.len() && before.peak_order_mismatch == (#[trigger] d[j]).order_mismatches;
                assert(ps[j] == d[j]);
            }
        }
    }
}

/// Recording a region tick keeps the peak of mismatched regions: at least
/// the peak before and the tick's count, and one of the two.
pub proof fn lemma_region_peak(r: DifferentialRegionValidationReport, p: RegionParityReport)
    ensures
        region_recorded(r, p).peak_mismatched_regions >= r.peak_mismatched_regions,
        region_recorded(r, p).peak_mismatched_regions >= p.mismatched_region_states,
        region_recorded(r, p).peak_mismatched_regions == r.peak_mismatched_regions || region_recorded(
            r,
            p,
        ).peak_mismatched_regions == p.mismatched_region_states,
{
}

/// Recording a region tick counts it: a tick with no mismatched region and
/// no severe divergence passes and extends the run of passes by one; any
/// other tick fails, ends the run and leaves the region path ineligible for
/// promotion; a severe divergence is counted.
pub proof fn lemma_region_counts(r: DifferentialRegionValidationReport, p: RegionParityReport)
    requires
        r.ticks_run < u64::MAX,
        r.ticks_passed < u64::MAX,
        r.ticks_failed < u64::MAX,
        r.consecutive_passes < u64::MAX,
        r.severe_divergence_events < u64::MAX,
    ensures
        region_recorded(r, p).ticks_run == r.ticks_run + 1,
        (p.mismatched_region_states == 0 && !p.severe_divergence) ==> {
            &&& region_recorded(r, p).ticks_passed == r.ticks_passed + 1
            &&& region_recorded(r, p).ticks_failed == r.ticks_failed
            &&& region_recorded(r, p).consecutive_passes == r.consecutive_passes + 1
        },
        !(p.mismatched_region_states == 0 && !p.severe_divergence) ==> {
            &&& region_recorded(r, p).ticks_failed == r.ticks_failed + 1
            &&& region_recorded(r, p).ticks_passed == r.ticks_passed
            &&& region_recorded(r, p).consecutive_passes == 0
            &&& !(region_recorded(r, p).consecutive_passes >= REGION_PROMOTION_THRESHOLD)
        },
        region_recorded(r, p).severe_divergence_events == r.severe_divergence_events + (if p.severe_divergence {
            1int
        } else {
            0int
        }),
{
}

/// Recording a frontier tick counts it: a passing tick extends the run of
/// passes by one; a failing one ends it, so promotion has to be earned
/// again; a severe divergence is counted and rules promotion out.
pub proof fn lemma_frontier_counts(c: FrontierValidationCounters, passed: bool, severe: bool)
    requires
        c.ticks_run < u64::MAX,
        c.ticks_passed < u64::MAX,
        c.ticks_failed < u64::MAX,
        c.consecutive_passes < u64::MAX,
        c.severe_divergence_events < u64::MAX,
    ensures
        frontier_counted(c, passed, severe).ticks_run == c.ticks_run + 1,
        passed ==> frontier_counted(c, passed, severe).ticks_passed == c.ticks_passed + 1 && frontier_counted(
            c,
            passed,
            severe,
        ).ticks_failed == c.ticks_failed && frontier_counted(c, passed, severe).consecutive_passes
            == c.consecutive_passes + 1,
        !passed ==> frontier_counted(c, passed, severe).ticks_failed == c.ticks_failed + 1 && frontier_counted(
            c,
            passed,
            severe,
        ).ticks_passed == c.ticks_passed && frontier_counted(c, passed, severe).consecutive_passes == 0,
        frontier_counted(c, passed, severe).severe_divergence_events == c.severe_divergence_events + (if severe {
            1int
        } else {
            0int
        }),
        severe ==> frontier_counted(c, passed, severe).severe_divergence_events > 0,
{
}

/// Recording keeps the region counters consistent, and a severe divergence
/// forfeits promotion for good.
pub proof fn lemma_region_history(r: DifferentialRegionValidationReport, p: RegionParityReport)
    requires
        r.ticks_run == r.ticks_passed + r.ticks_failed,
        r.consecutive_passes <= r.ticks_passed,
        r.ticks_run < u64::MAX,
        r.severe_divergence_events < u64::MAX,
    ensures
        region_recorded(r, p).ticks_run == region_recorded(r, p).ticks_passed + region_recorded(
            r,
            p,
        ).ticks_failed,
        region_recorded(r, p).consecutive_passes <= region_recorded(r, p).ticks_passed,
        p.severe_divergence ==> region_recorded(r, p).severe_divergence_events > 0
            && region_recorded(r, p).consecutive_passes == 0,
{
}

// ---------------------------------------------------------------------
// Per-tick parity: authoritative against differential emission
// ---------------------------------------------------------------------

/// The cell indices of `s`, in order.
pub open spec fn cells_of(s: Seq<EmissionRequest>) -> Seq<usize> {
    s.map_values(|r: EmissionRequest| r.cell_index)
}

/// How many entries of `a`, counted with multiplicity, have no partner in `b`.
pub open spec fn unmatched(a: Seq<usize>, b: Seq<usize>) -> nat {
    a.to_multiset().sub(b.to_multiset()).len()
}

/// Number of positions below `n` at which `a` and `b` differ.
pub open spec fn differing_positions(a: Seq<usize>, b: Seq<usize>, n: int) -> nat
    decreases n,
{
    if n <= 0 {
        0
    } else {
        differing_positions(a, b, n - 1) + if a[n - 1] != b[n - 1] { 1nat } else { 0nat }
    }
}

/// The first `n` requests of `s` carry no NaN probability.
pub open spec fn no_nan_prefix(s: Seq<EmissionRequest>, n: int) -> bool {
    forall|i: int| 0 <= i < n && i < s.len() ==> !f32_bits_is_nan(#[trigger] s[i].probability)
}

/// The first `MAX_EMIT_PER_TICK` requests of `s` (all of them when fewer).
pub open spec fn budget_prefix(s: Seq<EmissionRequest>) -> Seq<EmissionRequest> {
    if s.len() < MAX_EMIT_PER_TICK { s } else { s.take(MAX_EMIT_PER_TICK as int) }
}

/// `r` is the parity report of `auth` against `diff`: both cut to the
/// budget, cells compared as multisets, order compared position by position
/// over the common length after ranking.
pub open spec fn parity_of(auth: Seq<EmissionRequest>, diff: Seq<EmissionRequest>, r: EmissionParityReport) -> bool {
    let a = budget_prefix(auth);
    let d = budget_prefix(diff);
    &&& r.authoritative_count == a.len()
    &&& r.differential_count == d.len()
    &&& r.missing_from_differential == unmatched(cells_of(a), cells_of(d))
    &&& r.extra_in_differential == unmatched(cells_of(d), cells_of(a))
    &&& r.missing_from_differential <= r.authoritative_count
    &&& r.extra_in_differential <= r.differential_count
    &&& r.order_mismatches == differing_positions(
        cells_of(ranked(a)),
        cells_of(ranked(d)),
        if a.len() < d.len() { a.len() as int } else { d.len() as int },
    )
    &&& r.all_passed == (r.missing_from_differential == 0 && r.extra_in_differential == 0
        && r.order_mismatches == 0)
}

/// Ascending order.
pub open spec fn ascending(s: Seq<usize>) -> bool {
    forall|i: int, j: int| 0 <= i < j < s.len() ==> s[i] <= s[j]
}

proof fn lemma_sub_insert_left(m1: Multiset<usize>, m2: Multiset<usize>, x: usize)
    ensures
        m1.insert(x).sub(m2).len() == m1.sub(m2).len() + (if m1.count(x) >= m2.count(x) {
            1nat
        } else {
            0nat
        }),
{
    broadcast use vstd::multiset::group_multiset_axioms, vstd::multiset::group_multiset_properties;
    if m1.count(x) >= m2.count(x) {
        assert(m1.insert(x).sub(m2) =~= m1.sub(m2).insert(x));
    } else {
        assert(m1.insert(x).sub(m2) =~= m1.sub(m2));
    }
}

proof fn lemma_sub_insert_right(m1: Multiset<usize>, m2: Multiset<usize>, y: usize)
    ensures
        m1.sub(m2.insert(y)).len() + (if m1.count(y) > m2.count(y) { 1nat } else { 0nat })
            == m1.sub(m2).len(),
{
    broadcast use vstd::multiset::group_multiset_axioms, vstd::multiset::group_multiset_properties;
    if m1.count(y) > m2.count(y) {
        assert(m1.sub(m2) =~= m1.sub(m2.insert(y)).insert(y));
    } else {
        assert(m1.sub(m2.insert(y)) =~= m1.sub(m2));
    }
}

proof fn lemma_sub_insert_both(m1: Multiset<usize>, m2: Multiset<usize>, x: usize)
    ensures
        m1.insert(x).sub(m2.insert(x)) == m1.sub(m2),
{
    broadcast use vstd::multiset::group_multiset_axioms;
    assert(m1.insert(x).sub(m2.insert(x)) =~= m1.sub(m2));
}

/// Once `q` is exhausted, the rest of `p` is unmatched: every entry of `q`
/// not matched by `p[..k]` lies below `p[k]`.
proof fn lemma_tail(p: Seq<usize>, q: Seq<usize>, k: int)
    requires
        0 <= k <= p.len(),
        ascending(p),
        forall|v: usize| #[trigger] q.to_multiset().count(v) > p.take(k).to_multiset().count(v)
            ==> (k < p.len() ==> v < p[k]),
    ensures
        unmatched(p, q) == unmatched(p.take(k), q) + (p.len() - k),
        unmatched(q, p) == unmatched(q, p.take(k)),
    decreases p.len() - k,
{
    broadcast use vstd::seq_lib::group_to_multiset_ensures;
    if k == p.len() {
        assert(p.take(k) =~= p);
    } else {
        let x = p[k];
        let mq = q.to_multiset();
        let mp = p.take(k).to_multiset();
        assert(p.take(k + 1) =~= p.take(k).push(x));
        assert(mp.count(x) >= mq.count(x));
        lemma_sub_insert_left(mp, mq, x);
        lemma_sub_insert_right(mq, mp, x);
        assert forall|v: usize| #[trigger] mq.count(v) > p.take(k + 1).to_multiset().count(v) implies (k
            + 1 < p.len() ==> v < p[k + 1]) by {
            assert(p.take(k + 1).to_multiset() == mp.insert(x));
            if mq.count(v) > mp.count(v) {
                assert(v < p[k]);
            }
        }
        lemma_tail(p, q, k + 1);
    }
}

/// The cells of the first `n` requests.
fn prefix_cells(s: &[EmissionRequest], n: usize) -> (v: Vec<usize>)
    requires
        n <= s@.len(),
    ensures
        v@ == cells_of(s@.take(n as int)),
{
    let mut v: Vec<usize> = Vec::new();
    let mut i: usize = 0;
    while i < n
        invariant
            n <= s@.len(),
            i <= n,
            v@ == cells_of(s@.take(i as int)),
        decreases n - i,
    {
        v.push(s[i].cell_index);
        i += 1;
        assert(v@ =~= cells_of(s@.take(i as int)));
    }
    v
}

/// The first `n` requests.
fn prefix_requests(s: &[EmissionRequest], n: usize) -> (v: Vec<EmissionRequest>)
    requires
        n <= s@.len(),
    ensures
        v@ == s@.take(n as int),
{
    let mut v: Vec<EmissionRequest> = Vec::new();
    let mut i: usize = 0;
    while i < n
        invariant
            n <= s@.len(),
            i <= n,
            v@ == s@.take(i as int),
        decreases n - i,
    {
        v.push(s[i]);
        i += 1;
        assert(v@ =~= s@.take(i as int));
    }
    v
}

/// Sort cell indices in ascending order.
fn sort_cells(v: &Vec<usize>) -> (out: Vec<usize>)
    ensures
        ascending(out@),
        out@.to_multiset() == v@.to_multiset(),
{
    broadcast use vstd::seq_lib::group_to_multiset_ensures;
    let mut out: Vec<usize> = Vec::new();
    let mut i: usize = 0;
    while i < v.len()
        invariant
            i <= v@.len(),
            ascending(out@),
            out@.to_multiset() == v@.take(i as int).to_multiset(),
        decreases v@.len() - i,
    {
        let x = v[i];
        let mut pos = out.len();
        while pos > 0 && out[pos - 1] > x
            invariant
                pos <= out@.len(),
                ascending(out@),
                forall|j: int| pos <= j < out@.len() ==> x < out@[j],
            decreases pos,
        {
            pos = pos - 1;
        }
        let ghost before = out@;
        out.insert(pos, x);
        proof {
            let a = before.take(pos as int);
            let b = before.skip(pos as int);
            let sx = Seq::<usize>::empty().push(x);
            assert(out@ =~= a + sx + b);
            assert(before =~= a + b);
            vstd::seq_lib::lemma_multiset_commutative(a + sx, b);
            vstd::seq_lib::lemma_multiset_commutative(a, sx);
            vstd::seq_lib::lemma_multiset_commutative(a, b);
            vstd::seq_lib::to_multiset_len(Seq::<usize>::empty());
            vstd::multiset::lemma_multiset_empty_len(Seq::<usize>::empty().to_multiset());
            vstd::seq_lib::to_multiset_build(Seq::<usize>::empty(), x);
            assert(sx.to_multiset() == Seq::<usize>::empty().to_multiset().insert(x));
            assert(v@.take(i + 1) =~= v@.take(i as int).push(x));
            vstd::seq_lib::to_multiset_build(v@.take(i as int), x);
            assert(out@.to_multiset() =~= before.to_multiset().insert(x)) by {
                broadcast use vstd::multiset::group_multiset_axioms;
            }
            assert forall|p: int, q: int| 0 <= p < q < out@.len() implies out@[p] <= out@[q] by {
                if q < pos {
                    assert(out@[p] == before[p] && out@[q] == before[q]);
                } else if q == pos {
                    assert(out@[p] == before[p]);
                    assert(before[p] <= before[pos - 1]);
                } else if p < pos {
                    assert(out@[p] == before[p] && out@[q] == before[q - 1]);
                } else if p == pos {
                    assert(out@[q] == before[q - 1]);
                } else {
                    assert(out@[p] == before[p - 1] && out@[q] == before[q - 1]);
                }
            }
        }
        i += 1;
    }
    assert(v@.take(v@.len() as int) =~= v@);
    out
}

impl EmissionParityReport {
    /// Compare one tick's authoritative emission `auth` with the
    /// differential emission `diff`, each cut to the per-tick budget.
    ///
    /// Cells are compared as multisets (missing: authoritative cells the
    /// differential output lacks; extra: the converse); order is compared
    /// position by position over the common length after ranking both by
    /// descending probability, then ascending cell index.
    #[verifier::rlimit(40)]
    pub fn compare(auth: &[EmissionRequest], diff: &[EmissionRequest]) -> (r: Self)
        requires
            no_nan_prefix(auth@, MAX_EMIT_PER_TICK as int),
            no_nan_prefix(diff@, MAX_EMIT_PER_TICK as int),
        ensures
            parity_of(auth@, diff@, r),
    {
        broadcast use vstd::seq_lib::group_to_multiset_ensures;
        let auth_len = if auth.len() < MAX_EMIT_PER_TICK { auth.len() } else { MAX_EMIT_PER_TICK };
        let diff_len = if diff.len() < MAX_EMIT_PER_TICK { diff.len() } else { MAX_EMIT_PER_TICK };

        // Identity: sorted cell indices, merged.
        let auth_cells = prefix_cells(auth, auth_len);
        let diff_cells = prefix_cells(diff, diff_len);
        let auth_indices = sort_cells(&auth_cells);
        let diff_indices = sort_cells(&diff_cells);
        let ghost a = auth_indices@;
        let ghost b = diff_indices@;
        proof {
            assert(a.len() == auth_len) by {
                assert(a.to_multiset().len() == auth_cells@.to_multiset().len());
            }
            assert(b.len() == diff_len) by {
                assert(b.to_multiset().len() == diff_cells@.to_multiset().len());
            }
            assert(a.take(0) =~= Seq::<usize>::empty());
            assert(b.take(0) =~= Seq::<usize>::empty());
            broadcast use vstd::multiset::group_multiset_axioms;
            assert(Seq::<usize>::empty().to_multiset().sub(Seq::<usize>::empty().to_multiset()) =~= Multiset::empty());
        }
        let mut ai: usize = 0;
        let mut di: usize = 0;
        let mut missing: usize = 0;
        let mut extra: usize = 0;
        while ai < auth_len && di < diff_len
            invariant
                a == auth_indices@,
                b == diff_indices@,
                a.len() == auth_len,
                b.len() == diff_len,
                auth_len <= MAX_EMIT_PER_TICK,
                diff_len <= MAX_EMIT_PER_TICK,
                ascending(a),
                ascending(b),
                ai <= auth_len,
                di <= diff_len,
                missing <= ai,
                extra <= di,
                missing == unmatched(a.take(ai as int), b.take(di as int)),
                extra == unmatched(b.take(di as int), a.take(ai as int)),
                forall|v: usize| #[trigger] a.take(ai as int).to_multiset().count(v) > b.take(
                    di as int,
                ).to_multiset().count(v) ==> (di < b.len() ==> v < b[di as int]),
                forall|v: usize| #[trigger] b.take(di as int).to_multiset().count(v) > a.take(
                    ai as int,
                ).to_multiset().count(v) ==> (ai < a.len() ==> v < a[ai as int]),
            decreases auth_len - ai + diff_len - di,
        {
            let x = auth_indices[ai];
            let y = diff_indices[di];
            let ghost ma = a.take(ai as int).to_multiset();
            let ghost mb = b.take(di as int).to_multiset();
            proof {
                assert(a.take(ai + 1) =~= a.take(ai as int).push(x));
                assert(b.take(di + 1) =~= b.take(di as int).push(y));
                vstd::seq_lib::to_multiset_build(a.take(ai as int), x);
                vstd::seq_lib::to_multiset_build(b.take(di as int), y);
                assert(a.take(ai + 1).to_multiset() == ma.insert(x));
                assert(b.take(di + 1).to_multiset() == mb.insert(y));
            }
            if x == y {
                proof {
                    lemma_sub_insert_both(ma, mb, x);
                    lemma_sub_insert_both(mb, ma, x);
                    assert forall|v: usize| #[trigger] a.take(ai + 1).to_multiset().count(v) > b.take(
                        di + 1,
                    ).to_multiset().count(v) implies (di + 1 < b.len() ==> v < b[di + 1]) by {
                        assert(ma.count(v) > mb.count(v)) by {
                            broadcast use vstd::multiset::group_multiset_axioms;
                        }
                        assert(v < b[di as int]);
                        if di + 1 < b.len() {
                            assert(b[di as int] <= b[di + 1]);
                        }
                    }
                    assert forall|v: usize| #[trigger] b.take(di + 1).to_multiset().count(v) > a.take(
                        ai + 1,
                    ).to_multiset().count(v) implies (ai + 1 < a.len() ==> v < a[ai + 1]) by {
                        assert(mb.count(v) > ma.count(v)) by {
                            broadcast use vstd::multiset::group_multiset_axioms;
                        }
                        assert(v < a[ai as int]);
                        if ai + 1 < a.len() {
                            assert(a[ai as int] <= a[ai + 1]);
                        }
                    }
                }
                ai += 1;
                di += 1;
            } else if x < y {
                proof {
                    assert(ma.count(x) >= mb.count(x));
                    lemma_sub_insert_left(ma, mb, x);
                    lemma_sub_insert_right(mb, ma, x);
                    assert forall|v: usize| #[trigger] a.take(ai + 1).to_multiset().count(v) > mb.count(v)
                        implies (di < b.len() ==> v < b[di as int]) by {
                        broadcast use vstd::multiset::group_multiset_axioms;
                    }
                    assert forall|v: usize| #[trigger] mb.count(v) > a.take(ai + 1).to_multiset().count(v)
                        implies (ai + 1 < a.len() ==> v < a[ai + 1]) by {
                        broadcast use vstd::multiset::group_multiset_axioms;
                        if ai + 1 < a.len() {
                            assert(a[ai as int] <= a[ai + 1]);
                        }
                    }
                }
                missing += 1;
                ai += 1;
            } else {
                proof {
                    assert(mb.count(y) >= ma.count(y));
                    lemma_sub_insert_left(mb, ma, y);
                    lemma_sub_insert_right(ma, mb, y);
                    assert forall|v: usize| #[trigger] b.take(di + 1).to_multiset().count(v) > ma.count(v)
                        implies (ai < a.len() ==> v < a[ai as int]) by {
                        broadcast use vstd::multiset::group_multiset_axioms;
                    }
                    assert forall|v: usize| #[trigger] ma.count(v) > b.take(di + 1).to_multiset().count(v)
                        implies (di + 1 < b.len() ==> v < b[di + 1]) by {
                        broadcast use vstd::multiset::group_multiset_axioms;
                        if di + 1 < b.len() {
                            assert(b[di as int] <= b[di + 1]);
                        }
                    }
                }
                extra += 1;
                di += 1;
            }
        }
        proof {
            if ai == auth_len {
                assert(a.take(ai as int) =~= a);
                lemma_tail(b, a, di as int);
            } else {
                assert(b.take(di as int) =~= b);
                lemma_tail(a, b, ai as int);
            }
            assert(a.to_multiset() == auth_cells@.to_multiset());
            assert(b.to_multiset() == diff_cells@.to_multiset());
        }
        missing += auth_len - ai;
        extra += diff_len - di;

        // Order: positions of the ranked outputs.
        let mut auth_ranked = prefix_requests(auth, auth_len);
        let mut diff_ranked = prefix_requests(diff, diff_len);
        let ghost auth_taken = auth_ranked@;
        let ghost diff_taken = diff_ranked@;
        stable_sort_by_key(&mut auth_ranked);
        stable_sort_by_key(&mut diff_ranked);
        proof {
            lemma_ranked_is(auth_taken, auth_ranked@);
            lemma_ranked_is(diff_taken, diff_ranked@);
        }
        let common = if auth_len < diff_len { auth_len } else { diff_len };
        let mut order_mismatches: usize = 0;
        let mut i: usize = 0;
        while i < common
            invariant
                common <= auth_ranked@.len(),
                common <= diff_ranked@.len(),
                i <= common,
                order_mismatches <= i,
                order_mismatches == differing_positions(
                    cells_of(auth_ranked@),
                    cells_of(diff_ranked@),
                    i as int,
                ),
            decreases common - i,
        {
            if auth_ranked[i].cell_index != diff_ranked[i].cell_index {
                order_mismatches += 1;
            }
            i += 1;
        }
        let all_passed = missing == 0 && extra == 0 && order_mismatches == 0;
        proof {
            assert(budget_prefix(auth@) == auth@.take(auth_len as int));
            assert(budget_prefix(diff@) == diff@.take(diff_len as int));
        }
        EmissionParityReport {
            authoritative_count: auth_len,
            differential_count: diff_len,
            missing_from_differential: missing,
            extra_in_differential: extra,
            order_mismatches,
            all_passed,
        }
    }
}

// ---------------------------------------------------------------------
// Shadow emission validator
// ---------------------------------------------------------------------

/// Runs a separate shadow gate's sparse scan alongside the authoritative
/// full scan, compares the two each tick and accumulates the results.
pub struct EmissionShadowValidator {
    shadow_gate: EmissionGate,
    /// The shadow gate's output of the last validated tick.
    pub last_shadow_emission: Vec<EmissionRequest>,
    /// The parity report of the last validated tick.
    pub last_report: Option<EmissionParityReport>,
    /// Accumulated statistics.
    pub validation_report: DifferentialEmissionValidationReport,
    /// Whether validation runs.
    pub mode: DifferentialEmissionMode,
}

impl EmissionShadowValidator {
    /// The shadow gate.
    pub closed spec fn gate(&self) -> EmissionGate {
        self.shadow_gate
    }

    /// The shadow output of the last validated tick.
    pub closed spec fn last_shadow(&self) -> Seq<EmissionRequest> {
        self.last_shadow_emission@
    }

    /// The last parity report.
    pub closed spec fn last_parity(&self) -> Option<EmissionParityReport> {
        self.last_report
    }

    /// The accumulated statistics.
    pub closed spec fn history(&self) -> DifferentialEmissionValidationReport {
        self.validation_report
    }

    /// The current mode.
    pub closed spec fn current_mode(&self) -> DifferentialEmissionMode {
        self.mode
    }

    /// The shadow gate is consistent.
    pub closed spec fn well_formed(&self) -> bool {
        self.shadow_gate.well_formed()
    }

    /// A disabled validator with a fresh shadow gate and no history.
    pub fn new() -> (v: Self)
        ensures
            v.well_formed(),
            v.gate().emitted() == Seq::<EmissionRequest>::empty(),
            v.gate().eligible() == Set::<int>::empty(),
            v.last_shadow() == Seq::<EmissionRequest>::empty(),
            v.last_parity() == None::<EmissionParityReport>,
            v.history() == emission_history_empty(),
            v.current_mode() == DifferentialEmissionMode::Disabled,
    {
        Self {
            shadow_gate: EmissionGate::new(),
            last_shadow_emission: Vec::new(),
            last_report: None,
            validation_report: DifferentialEmissionValidationReport::new(),
            mode: DifferentialEmissionMode::Disabled,
        }
    }

    /// Turn shadow validation on.
    pub fn enable_shadow(&mut self)
        ensures
            final(self).current_mode() == DifferentialEmissionMode::ShadowValidation,
            final(self).gate() == old(self).gate(),
            final(self).last_shadow() == old(self).last_shadow(),
            final(self).last_parity() == old(self).last_parity(),
            final(self).history() == old(self).history(),
            final(self).well_formed() == old(self).well_formed(),
    {
        self.mode = DifferentialEmissionMode::ShadowValidation;
    }

    /// Turn validation off.
    pub fn disable(&mut self)
        ensures
            final(self).current_mode() == DifferentialEmissionMode::Disabled,
            final(self).gate() == old(self).gate(),
            final(self).last_shadow() == old(self).last_shadow(),
            final(self).last_parity() == old(self).last_parity(),
            final(self).history() == old(self).history(),
            final(self).well_formed() == old(self).well_formed(),
    {
        self.mode = DifferentialEmissionMode::Disabled;
    }

    /// Whether shadow validation runs.
    pub fn is_active(&self) -> (b: bool)
        ensures
            b == (self.current_mode() == DifferentialEmissionMode::ShadowValidation),
    {
        match self.mode {
            DifferentialEmissionMode::ShadowValidation => true,
            _ => false,
        }
    }

    /// When active: run the shadow gate's sparse scan of `probabilities`
    /// with `delta_mask`, compare it with the authoritative output, record
    /// the comparison and return it.  When inactive: change nothing and
    /// return `None`.
    pub fn validate_tick(
        &mut self,
        probabilities: &[u32],
        delta_mask: &FieldDeltaMask,
        authoritative: &[EmissionRequest],
    ) -> (r: Option<EmissionParityReport>)
        requires
            old(self).well_formed(),
            sparse_scan_allowed(old(self).gate(), probabilities@, *delta_mask),
            no_nan_prefix(authoritative@, MAX_EMIT_PER_TICK as int),
            old(self).history().ticks_run < u64::MAX,
            old(self).history().ticks_passed < u64::MAX,
            old(self).history().ticks_failed < u64::MAX,
            old(self).history().consecutive_passes < u64::MAX,
            old(self).history().total_missing_events + MAX_EMIT_PER_TICK <= u64::MAX,
            old(self).history().total_extra_events + MAX_EMIT_PER_TICK <= u64::MAX,
        ensures
            final(self).well_formed(),
            final(self).current_mode() == old(self).current_mode(),
            old(self).current_mode() != DifferentialEmissionMode::ShadowValidation ==> {
                &&& r == None::<EmissionParityReport>
                &&& final(self).gate() == old(self).gate()
                &&& final(self).last_shadow() == old(self).last_shadow()
                &&& final(self).last_parity() == old(self).last_parity()
                &&& final(self).history() == old(self).history()
            },
            old(self).current_mode() == DifferentialEmissionMode::ShadowValidation ==> {
                &&& r is Some
                &&& sparse_scanned(old(self).gate(), final(self).gate(), probabilities@, *delta_mask)
                &&& final(self).last_shadow() == final(self).gate().emitted()
                &&& parity_of(authoritative@, final(self).last_shadow(), r->0)
                &&& final(self).last_parity() == r
                &&& final(self).history() == emission_recorded(old(self).history(), r->0)
            },
    {
        if !self.is_active() {
            return None;
        }
        let shadow = self.shadow_gate.collect_from_changed(probabilities, delta_mask);
        let mut copy: Vec<EmissionRequest> = Vec::new();
        let mut i: usize = 0;
        while i < shadow.len()
            invariant
                i <= shadow@.len(),
                copy@ == shadow@.take(i as int),
            decreases shadow@.len() - i,
        {
            copy.push(shadow[i]);
            i += 1;
            assert(copy@ =~= shadow@.take(i as int));
        }
        assert(copy@ =~= shadow@);
        self.last_shadow_emission = copy;
        proof {
            let p = probabilities@;
            let out = self.last_shadow_emission@;
            assert forall|k: int| 0 <= k < MAX_EMIT_PER_TICK && k < out.len() implies !f32_bits_is_nan(
                #[trigger] out[k].probability,
            ) by {
                assert(above_gate(p, out[k].cell_index as int));
            }
        }
        let report = EmissionParityReport::compare(authoritative, self.last_shadow_emission.as_slice());
        self.validation_report.record(&report);
        self.last_report = Some(report);
        Some(report)
    }
}

// ---------------------------------------------------------------------
// Laws of the differential emission path
// ---------------------------------------------------------------------

proof fn lemma_unmatched_same(a: Seq<usize>, b: Seq<usize>)
    requires
        a.to_multiset() == b.to_multiset(),
    ensures
        unmatched(a, b) == 0,
{
    broadcast use vstd::multiset::group_multiset_axioms, vstd::multiset::group_multiset_properties;
    assert(a.to_multiset().sub(b.to_multiset()) =~= Multiset::empty());
}

proof fn lemma_differing_same(a: Seq<usize>, n: int)
    ensures
        differing_positions(a, a, n) == 0,
    decreases n,
{
    if n > 0 {
        lemma_differing_same(a, n - 1);
    }
}

/// No cell is missing on either side exactly when both sides hold the same
/// cells, each as often.
pub proof fn lemma_unmatched_both_zero(a: Seq<usize>, b: Seq<usize>)
    ensures
        (unmatched(a, b) == 0 && unmatched(b, a) == 0) == (a.to_multiset() == b.to_multiset()),
{
    broadcast use vstd::multiset::group_multiset_axioms, vstd::multiset::group_multiset_properties;
    let ma = a.to_multiset();
    let mb = b.to_multiset();
    if unmatched(a, b) == 0 && unmatched(b, a) == 0 {
        assert(ma.sub(mb) =~= Multiset::empty());
        assert(mb.sub(ma) =~= Multiset::empty());
        assert forall|x: usize| ma.count(x) == mb.count(x) by {
            assert(ma.sub(mb).count(x) == 0);
            assert(mb.sub(ma).count(x) == 0);
        }
        assert(ma =~= mb);
    }
    if ma == mb {
        lemma_unmatched_same(a, b);
        lemma_unmatched_same(b, a);
    }
}

/// A tick's emission compared with itself passes.
pub proof fn lemma_parity_reflexive(out: Seq<EmissionRequest>, r: EmissionParityReport)
    requires
        parity_of(out, out, r),
    ensures
        r.all_passed,
{
    let a = cells_of(budget_prefix(out));
    lemma_unmatched_same(a, a);
    lemma_differing_same(cells_of(ranked(budget_prefix(out))), budget_prefix(out).len() as int);
}

proof fn lemma_cells_no_duplicates(s: Seq<EmissionRequest>)
    requires
        forall|a: int, b: int| 0 <= a < b < s.len() ==> s[a].cell_index != s[b].cell_index,
    ensures
        cells_of(s).no_duplicates(),
{
    assert forall|a: int, b: int| 0 <= a < s.len() && 0 <= b < s.len() && a != b implies cells_of(s)[a]
        != cells_of(s)[b] by {
        if a < b {
            assert(s[a].cell_index != s[b].cell_index);
        } else {
            assert(s[b].cell_index != s[a].cell_index);
        }
    }
}

proof fn lemma_no_dup_same_members_multiset<A>(a: Seq<A>, b: Seq<A>)
    requires
        a.no_duplicates(),
        b.no_duplicates(),
        forall|x: A| a.contains(x) <==> b.contains(x),
    ensures
        a.to_multiset() == b.to_multiset(),
{
    broadcast use vstd::seq_lib::group_to_multiset_ensures;
    a.lemma_multiset_has_no_duplicates();
    b.lemma_multiset_has_no_duplicates();
    assert forall|x: A| a.to_multiset().count(x) == b.to_multiset().count(x) by {
        if a.contains(x) {
            assert(a.to_multiset().contains(x));
            assert(b.to_multiset().contains(x));
        } else {
            assert(!b.contains(x));
        }
    }
    assert(a.to_multiset() =~= b.to_multiset());
}

/// The candidates of a sparse scan are those of a full scan.  When the cells
/// remembered as eligible are exactly the cells of the previous field above
/// `EMIT_GATE`, and the change mask covers the field and marks every cell
/// that has risen above `EMIT_GATE`, both scans collect the same requests,
/// each cell at most once, and rank them the same way.
proof fn lemma_sparse_candidates_agree(prev: Seq<u32>, p: Seq<u32>, mask: FieldDeltaMask, eligible: Set<int>)
    requires
        prev.len() == p.len(),
        p.len() <= usize::MAX,
        p.len() <= mask.cell_count(),
        forall|i: int| 0 <= i < p.len() ==> (#[trigger] eligible.contains(i) == above_gate(prev, i)),
        forall|i: int| 0 <= i < p.len() && above_gate(p, i) && !above_gate(prev, i) ==> #[trigger] mask.changed().contains(i),
    ensures
        forall|x: EmissionRequest| gate_candidates(p).contains(x) <==> sparse_candidates(p, mask, eligible).contains(x),
        forall|a: int, b: int| 0 <= a < b < gate_candidates(p).len() ==> gate_candidates(p)[a].cell_index
            < gate_candidates(p)[b].cell_index,
        forall|a: int, b: int| 0 <= a < b < sparse_candidates(p, mask, eligible).len() ==> sparse_candidates(p, mask, eligible)[a].cell_index
            != sparse_candidates(p, mask, eligible)[b].cell_index,
        gate_candidates(p).len() == sparse_candidates(p, mask, eligible).len(),
        ranked(gate_candidates(p)) == ranked(sparse_candidates(p, mask, eligible)),
        cells_of(gate_candidates(p)).to_multiset() == cells_of(sparse_candidates(p, mask, eligible)).to_multiset(),
{
    let n = p.len() as int;
    let keep0 = |i: int| above_gate(p, i);
    let keep1 = |i: int| rescanned(mask, n, i) && above_gate(p, i);
    let keep2 = |i: int| carried(mask, eligible, p, i);
    let c1 = gate_candidates(p);
    let l1 = requests_where(p, keep1, n);
    let l2 = requests_where(p, keep2, n);
    let c2 = sparse_candidates(p, mask, eligible);
    assert(c1 == requests_where(p, keep0, n));
    assert(c2 == l1 + l2);

    // The same requests.
    assert forall|x: EmissionRequest| c1.contains(x) <==> c2.contains(x) by {
        if c1.contains(x) {
            lemma_requests_where_members(p, keep0, n, x);
            let i = x.cell_index as int;
            assert(x == EmissionRequest { cell_index: i as usize, probability: p[i] });
            if mask.changed().contains(i) {
                lemma_requests_where_has(p, keep1, n, i);
                let m = choose|m: int| 0 <= m < l1.len() && l1[m] == x;
                assert(c2[m] == x);
            } else {
                assert(above_gate(prev, i));
                assert(eligible.contains(i));
                lemma_requests_where_has(p, keep2, n, i);
                let m = choose|m: int| 0 <= m < l2.len() && l2[m] == x;
                assert(c2[l1.len() + m] == x);
            }
        }
        if c2.contains(x) {
            let m = choose|m: int| 0 <= m < c2.len() && c2[m] == x;
            if m < l1.len() {
                assert(l1[m] == x);
                assert(l1.contains(x));
                lemma_requests_where_members(p, keep1, n, x);
            } else {
                assert(l2[m - l1.len()] == x);
                assert(l2.contains(x));
                lemma_requests_where_members(p, keep2, n, x);
            }
            lemma_requests_where_has(p, keep0, n, x.cell_index as int);
        }
    }

    // Distinct cells on both sides.
    lemma_requests_where_increasing(p, keep0, n);
    lemma_requests_where_increasing(p, keep1, n);
    lemma_requests_where_increasing(p, keep2, n);
    assert forall|a: int, b: int| 0 <= a < b < c2.len() implies c2[a].cell_index != c2[b].cell_index by {
        if b < l1.len() {
            assert(l1[a].cell_index < l1[b].cell_index);
        } else if a >= l1.len() {
            assert(l2[a - l1.len()].cell_index < l2[b - l1.len()].cell_index);
        } else {
            assert(l1.contains(l1[a]));
            assert(l2.contains(l2[b - l1.len()]));
            lemma_requests_where_members(p, keep1, n, l1[a]);
            lemma_requests_where_members(p, keep2, n, l2[b - l1.len()]);
        }
    }
    lemma_distinct_cells_distinct_keys(c1);
    lemma_distinct_cells_distinct_keys(c2);
    lemma_same_members_same_key_order(c1, c2);
    lemma_ranked_same(c1, c2);

    // The same cells, as multisets.
    lemma_cells_no_duplicates(c1);
    lemma_cells_no_duplicates(c2);
    assert forall|y: usize| cells_of(c1).contains(y) <==> cells_of(c2).contains(y) by {
        if cells_of(c1).contains(y) {
            let m = choose|m: int| 0 <= m < c1.len() && cells_of(c1)[m] == y;
            assert(c2.contains(c1[m]));
            let q = choose|q: int| 0 <= q < c2.len() && c2[q] == c1[m];
            assert(cells_of(c2)[q] == y);
        }
        if cells_of(c2).contains(y) {
            let m = choose|m: int| 0 <= m < c2.len() && cells_of(c2)[m] == y;
            assert(c1.contains(c2[m]));
            let q = choose|q: int| 0 <= q < c1.len() && c1[q] == c2[m];
            assert(cells_of(c1)[q] == y);
        }
    }
    lemma_no_dup_same_members_multiset(cells_of(c1), cells_of(c2));
    assert(c1.len() == c2.len()) by {
        broadcast use vstd::seq_lib::group_to_multiset_ensures;
        assert(cells_of(c1).to_multiset().len() == cells_of(c2).to_multiset().len());
    }
}

/// The sparse scan agrees with the full scan.  When the cells remembered as
/// eligible are exactly the cells of the previous field above `EMIT_GATE`,
/// and the change mask covers the field and marks every cell that has risen
/// above `EMIT_GATE` (as a mask of every cell whose probability changed
/// does), then the full scan's output and the sparse scan's
/// output hold the same cells, rank the same way, and their parity report
/// passes, under the budget too.
pub proof fn lemma_sparse_scan_matches_full_scan(
    prev: Seq<u32>,
    p: Seq<u32>,
    mask: FieldDeltaMask,
    eligible: Set<int>,
    r: EmissionParityReport,
)
    requires
        prev.len() == p.len(),
        p.len() <= usize::MAX,
        p.len() <= mask.cell_count(),
        forall|i: int| 0 <= i < p.len() ==> (#[trigger] eligible.contains(i) == above_gate(prev, i)),
        forall|i: int| 0 <= i < p.len() && above_gate(p, i) && !above_gate(prev, i) ==> #[trigger] mask.changed().contains(i),
        parity_of(within_budget(gate_candidates(p)), within_budget(sparse_candidates(p, mask, eligible)), r),
    ensures
        r.all_passed,
{
    let c1 = gate_candidates(p);
    let c2 = sparse_candidates(p, mask, eligible);
    lemma_sparse_candidates_agree(prev, p, mask, eligible);
    if c1.len() <= MAX_EMIT_PER_TICK {
        assert(budget_prefix(c1) =~= c1);
        assert(budget_prefix(c2) =~= c2);
        lemma_unmatched_same(cells_of(c1), cells_of(c2));
        lemma_unmatched_same(cells_of(c2), cells_of(c1));
        lemma_differing_same(cells_of(ranked(c1)), c1.len() as int);
    } else {
        assert(within_budget(c1) == within_budget(c2));
        lemma_parity_reflexive(within_budget(c1), r);
    }
}


/// One scan in an emission gate's history: `after` is `before` after a full
/// scan of `p` (when `full`), or after a sparse scan of `p` with a change
/// mask that covers the field and marks every cell that has risen above
/// `EMIT_GATE` since the previous field `prev` (a mask of every cell whose
/// probability differs from `prev` does).
pub open spec fn gate_scan_step(
    before: EmissionGate,
    after: EmissionGate,
    prev: Seq<u32>,
    p: Seq<u32>,
    mask: FieldDeltaMask,
    full: bool,
) -> bool {
    if full {
        &&& after.emitted() == within_budget(gate_candidates(p))
        &&& gate_output_ok(p, after.emitted())
        &&& forall|i: int| 0 <= i < p.len() ==> (#[trigger] after.eligible().contains(i) == above_gate(p, i))
    } else {
        &&& p.len() <= mask.cell_count()
        &&& forall|i: int| 0 <= i < p.len() && above_gate(p, i) && !above_gate(prev, i) ==> #[trigger] mask.changed().contains(i)
        &&& sparse_scanned(before, after, p, mask)
    }
}

/// `gates[j]` is the emission gate after the scan of `fields[j]` (full where
/// `full[j]`, else sparse with `masks[j]`).  The fields share one length, and
/// the first gate remembers as eligible exactly the cells of `fields[0]`
/// above `EMIT_GATE`: a fresh gate with an all-zero field, or a gate just after
/// a full scan of `fields[0]`.
pub open spec fn gate_history(
    gates: Seq<EmissionGate>,
    fields: Seq<Seq<u32>>,
    masks: Seq<FieldDeltaMask>,
    full: Seq<bool>,
) -> bool {
    &&& gates.len() >= 1
    &&& fields.len() == gates.len()
    &&& masks.len() == gates.len()
    &&& full.len() == gates.len()
    &&& fields[0].len() <= usize::MAX
    &&& forall|j: int| 0 <= j < fields.len() ==> (#[trigger] fields[j]).len() == fields[0].len()
    &&& forall|i: int| 0 <= i < fields[0].len() ==> (#[trigger] gates[0].eligible().contains(i) == above_gate(fields[0], i))
    &&& forall|j: int| 1 <= j < gates.len() ==> #[trigger] gate_scan_step(gates[j - 1], gates[j], fields[j - 1], fields[j], masks[j], full[j])
}

/// What a full scan of `p` emits, stated of `g`'s output: exactly the
/// requests a full scan emits when they fit the budget (each cell above
/// `EMIT_GATE` once, with its probability), the full scan's output itself
/// when they do not, ranked the same either way; and `g` remembers exactly
/// the cells above `EMIT_GATE`.
pub open spec fn agrees_with_full_scan(g: EmissionGate, p: Seq<u32>) -> bool {
    &&& forall|i: int| 0 <= i < p.len() ==> (#[trigger] g.eligible().contains(i) == above_gate(p, i))
    &&& gate_output_ok(p, g.emitted())
    &&& ranked(g.emitted()) == ranked(within_budget(gate_candidates(p)))
    &&& gate_candidates(p).len() > MAX_EMIT_PER_TICK ==> g.emitted() == within_budget(gate_candidates(p))
    &&& gate_candidates(p).len() <= MAX_EMIT_PER_TICK ==> {
        &&& forall|x: EmissionRequest| #[trigger] g.emitted().contains(x) <==> (x.cell_index < p.len()
            && above_gate(p, x.cell_index as int) && x.probability == p[x.cell_index as int])
        &&& forall|a: int, b: int| 0 <= a < b < g.emitted().len() ==> g.emitted()[a].cell_index
            != g.emitted()[b].cell_index
    }
}

/// A fresh gate, which remembers no cell, starts a history from the all-zero
/// field: no cell of it is above `EMIT_GATE`.
pub proof fn lemma_fresh_gate_starts_history(g: EmissionGate, n: nat)
    requires
        g.eligible() == Set::<int>::empty(),
    ensures
        forall|i: int| 0 <= i < n ==> (#[trigger] g.eligible().contains(i) == above_gate(
            Seq::new(n, |k: int| 0u32),
            i,
        )),
{
    assert forall|i: int| 0 <= i < n implies (#[trigger] g.eligible().contains(i) == above_gate(
        Seq::new(n, |k: int| 0u32),
        i,
    )) by {
        assert(Seq::new(n, |k: int| 0u32)[i] == 0u32);
        assert(!f32_bits_gt(0u32, EMIT_GATE));
    }
}

/// The requests a full scan collects are the cells above `EMIT_GATE`, each
/// with its probability.
proof fn lemma_gate_candidates_members(p: Seq<u32>, x: EmissionRequest)
    requires
        p.len() <= usize::MAX,
    ensures
        gate_candidates(p).contains(x) <==> (x.cell_index < p.len() && above_gate(p, x.cell_index as int)
            && x.probability == p[x.cell_index as int]),
{
    let keep = |i: int| above_gate(p, i);
    assert(gate_candidates(p) == requests_where(p, keep, p.len() as int));
    if gate_candidates(p).contains(x) {
        lemma_requests_where_members(p, keep, p.len() as int, x);
    }
    if x.cell_index < p.len() && above_gate(p, x.cell_index as int) && x.probability == p[x.cell_index as int] {
        lemma_requests_where_has(p, keep, p.len() as int, x.cell_index as int);
    }
}

/// Along a history, every gate remembers exactly its field's cells above
/// `EMIT_GATE`.
proof fn lemma_history_eligibility(
    gates: Seq<EmissionGate>,
    fields: Seq<Seq<u32>>,
    masks: Seq<FieldDeltaMask>,
    full: Seq<bool>,
    k: int,
)
    requires
        gate_history(gates, fields, masks, full),
        0 <= k < gates.len(),
    ensures
        forall|i: int| 0 <= i < fields[k].len() ==> (#[trigger] gates[k].eligible().contains(i) == above_gate(fields[k], i)),
    decreases k,
{
    assert(fields[k].len() == fields[0].len());
    if k > 0 {
        lemma_history_eligibility(gates, fields, masks, full, k - 1);
        assert(fields[k - 1].len() == fields[0].len());
        assert(gate_scan_step(gates[k - 1], gates[k], fields[k - 1], fields[k], masks[k], full[k]));
        if !full[k] {
            lemma_sparse_scan_keeps_eligibility(gates[k - 1], gates[k], fields[k - 1], fields[k], masks[k]);
        }
    }
}

/// Whatever mix of full and sparse scans an emission gate has been through,
/// its last output is what a full scan of the current field gives: when the
/// cells above `EMIT_GATE` fit the budget, it lists each of them exactly once
/// with its probability and nothing else; when they do not, it is the full
/// scan's output itself.  The parity check of the two passes.
pub proof fn lemma_gate_history_matches_full_scan(
    gates: Seq<EmissionGate>,
    fields: Seq<Seq<u32>>,
    masks: Seq<FieldDeltaMask>,
    full: Seq<bool>,
    r: EmissionParityReport,
)
    requires
        gate_history(gates, fields, masks, full),
        gates.len() >= 2,
    ensures
        agrees_with_full_scan(gates.last(), fields.last()),
        parity_of(within_budget(gate_candidates(fields.last())), gates.last().emitted(), r) ==> r.all_passed,
{
    let k = gates.len() - 1;
    let g = gates[k];
    let p = fields[k];
    let prev = fields[k - 1];
    let c1 = gate_candidates(p);
    lemma_history_eligibility(gates, fields, masks, full, k);
    lemma_history_eligibility(gates, fields, masks, full, k - 1);
    assert(p.len() == fields[0].len());
    assert(prev.len() == fields[0].len());
    assert(gate_scan_step(gates[k - 1], g, prev, p, masks[k], full[k]));
    lemma_requests_where_increasing(p, |i: int| above_gate(p, i), p.len() as int);
    assert forall|x: EmissionRequest| c1.contains(x) <==> (x.cell_index < p.len() && above_gate(
        p,
        x.cell_index as int,
    ) && x.probability == p[x.cell_index as int]) by {
        lemma_gate_candidates_members(p, x);
    }
    if full[k] {
        if c1.len() <= MAX_EMIT_PER_TICK {
            assert(g.emitted() == c1);
        }
        if parity_of(within_budget(c1), g.emitted(), r) {
            lemma_parity_reflexive(within_budget(c1), r);
        }
    } else {
        let c2 = sparse_candidates(p, masks[k], gates[k - 1].eligible());
        lemma_sparse_candidates_agree(prev, p, masks[k], gates[k - 1].eligible());
        assert(g.emitted() == within_budget(c2));
        if c1.len() > MAX_EMIT_PER_TICK {
            assert(within_budget(c1) == within_budget(c2));
        } else {
            assert(g.emitted() == c2);
            assert(within_budget(c1) == c1);
            assert(ranked(g.emitted()) == ranked(within_budget(c1)));
            assert forall|x: EmissionRequest| #[trigger] g.emitted().contains(x) <==> (x.cell_index < p.len()
                && above_gate(p, x.cell_index as int) && x.probability == p[x.cell_index as int]) by {
                assert(c1.contains(x) <==> c2.contains(x));
            }
        }
        if parity_of(within_budget(c1), g.emitted(), r) {
            lemma_sparse_scan_matches_full_scan(prev, p, masks[k], gates[k - 1].eligible(), r);
        }
    }
}

} // verus!
