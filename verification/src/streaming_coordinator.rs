//! Probability-driven streaming decisions: which cells to prefetch or to
//! promote to resident memory this tick, under a per-tick budget.
//!
//! Probabilities are `f32` bit patterns compared as `f32`.
use vstd::prelude::*;
use crate::field_handle::{StreamAction, StreamingEligibility, eligibility_of};
use crate::ordering::{
    CanonicalKey, distinct_keys, lemma_sorted_prefix_least, lemma_stable_sort_exists, lemma_stable_sort_unique,
    lemma_stable_sorted_distinct, lemma_stable_sorted_members, stable_sort_by_key, stable_sorted,
};
use crate::runtime_frame::{f32_bits_ge, f32_bits_greater_eq, f32_bits_is_nan, f32_bits_rank, lemma_lex_key};
use crate::emission::f32_rank;

verus! {

/// Bit pattern of `0.03f32`: at or above it a cell is prefetched.
pub const STREAM_PREFETCH_THRESHOLD: u32 = 0x3cf5_c28fu32;

/// Bit pattern of `0.35f32`: at or above it a cell is promoted to resident.
pub const STREAM_RESIDENT_THRESHOLD: u32 = 0x3eb3_3333u32;

/// Most decisions made in one tick.
pub const MAX_STREAM_REQUESTS_PER_TICK: usize = 32;

/// A streaming decision for one cell.
#[derive(Debug, Clone, Copy)]
pub struct StreamingDecision {
    /// Flat index of the cell.
    pub cell_index: usize,
    /// What to do with it.
    pub action: StreamAction,
    /// Bit pattern of its probability when decided.
    pub probability: u32,
}

impl CanonicalKey for StreamingDecision {
    /// Ranked order: higher probability first, then lower cell index.
    open spec fn canonical_key(&self) -> int {
        (-f32_bits_rank(self.probability)) * 0x1_0000_0000_0000_0000 + self.cell_index
    }

    fn key_less(&self, other: &Self) -> (r: bool) {
        let ra = f32_rank(self.probability);
        let rb = f32_rank(other.probability);
        let r = if ra != rb {
            ra > rb
        } else {
            self.cell_index < other.cell_index
        };
        proof {
            lemma_lex_key(
                -f32_bits_rank(self.probability),
                self.cell_index as int,
                -f32_bits_rank(other.probability),
                other.cell_index as int,
            );
        }
        r
    }
}

/// The action a probability calls for, when it calls for one.
pub open spec fn action_for(p: u32) -> StreamAction {
    if f32_bits_ge(p, STREAM_RESIDENT_THRESHOLD) {
        StreamAction::PromoteResident
    } else {
        StreamAction::Prefetch
    }
}

/// The decisions for the cells `i < k` at or above the prefetch threshold,
/// in cell order.
pub open spec fn decisions_upto(p: Seq<u32>, k: int) -> Seq<StreamingDecision>
    decreases k,
{
    if k <= 0 {
        Seq::empty()
    } else if f32_bits_ge(p[k - 1], STREAM_PREFETCH_THRESHOLD) {
        decisions_upto(p, k - 1).push(
            StreamingDecision { cell_index: (k - 1) as usize, action: action_for(p[k - 1]), probability: p[k - 1] },
        )
    } else {
        decisions_upto(p, k - 1)
    }
}

/// `s` in ranked order: descending probability, then ascending cell index.
pub open spec fn ranked_decisions(s: Seq<StreamingDecision>) -> Seq<StreamingDecision> {
    choose|t: Seq<StreamingDecision>| stable_sorted(s, t)
}

/// The decisions of a scan of `p`: every cell at or above the prefetch
/// threshold when they fit the budget, else the first
/// `MAX_STREAM_REQUESTS_PER_TICK` in ranked order.
pub open spec fn scan_result(p: Seq<u32>) -> Seq<StreamingDecision> {
    let all = decisions_upto(p, p.len() as int);
    if all.len() <= MAX_STREAM_REQUESTS_PER_TICK {
        all
    } else {
        ranked_decisions(all).take(MAX_STREAM_REQUESTS_PER_TICK as int)
    }
}

/// Turns a field's probabilities into bounded streaming decisions.
pub struct StreamingCoordinator {
    scratch: Vec<StreamingDecision>,
}

impl StreamingCoordinator {
    /// The decisions of the last scan.
    pub closed spec fn decisions(&self) -> Seq<StreamingDecision> {
        self.scratch@
    }

    /// A coordinator that has decided nothing yet.
    pub fn new() -> (c: Self)
        ensures
            c.decisions() == Seq::<StreamingDecision>::empty(),
    {
        Self { scratch: Vec::with_capacity(MAX_STREAM_REQUESTS_PER_TICK) }
    }

    /// Decide for every cell at or above the prefetch threshold (promote at
    /// or above the resident threshold), keeping at most the budget by
    /// ranked order.
    pub fn scan(&mut self, probabilities: &[u32]) -> (r: &[StreamingDecision])
        ensures
            r@ == final(self).decisions(),
            final(self).decisions() == scan_result(probabilities@),
    {
        let ghost p = probabilities@;
        self.scratch.clear();
        let n = probabilities.len();
        let mut idx: usize = 0;
        while idx < n
            invariant
                n == p.len(),
                p == probabilities@,
                idx <= n,
                self.scratch@ == decisions_upto(p, idx as int),
            decreases n - idx,
        {
            let prob = probabilities[idx];
            if f32_bits_greater_eq(prob, STREAM_PREFETCH_THRESHOLD) {
                let action = if f32_bits_greater_eq(prob, STREAM_RESIDENT_THRESHOLD) {
                    StreamAction::PromoteResident
                } else {
                    StreamAction::Prefetch
                };
                self.scratch.push(StreamingDecision { cell_index: idx, action, probability: prob });
            }
            idx += 1;
        }
        if self.scratch.len() > MAX_STREAM_REQUESTS_PER_TICK {
            let ghost before = self.scratch@;
            stable_sort_by_key(&mut self.scratch);
            proof {
                let c = ranked_decisions(before);
                assert(stable_sorted(before, c));
                lemma_stable_sort_unique(before, self.scratch@, c);
            }
            self.scratch.truncate(MAX_STREAM_REQUESTS_PER_TICK);
        }
        self.scratch.as_slice()
    }

    /// Whether a probability calls for prefetching.
    pub fn should_prefetch(&self, probability: u32) -> (b: bool)
        ensures
            b == f32_bits_ge(probability, STREAM_PREFETCH_THRESHOLD),
    {
        f32_bits_greater_eq(probability, STREAM_PREFETCH_THRESHOLD)
    }

    /// Whether a probability calls for promotion to resident memory.
    pub fn should_promote_resident(&self, probability: u32) -> (b: bool)
        ensures
            b == f32_bits_ge(probability, STREAM_RESIDENT_THRESHOLD),
    {
        f32_bits_greater_eq(probability, STREAM_RESIDENT_THRESHOLD)
    }
}

impl Default for StreamingCoordinator {
    fn default() -> (c: Self)
        ensures
            c.decisions() == Seq::<StreamingDecision>::empty(),
    {
        Self::new()
    }
}

/// Some decision of `s` is for cell `i`.
pub open spec fn names_cell(s: Seq<StreamingDecision>, i: int) -> bool {
    exists|k: int| 0 <= k < s.len() && s[k].cell_index == i
}

/// The decisions for the cells below `k` are, in ascending cell order, one
/// for each cell at or above the prefetch threshold, carrying its
/// probability and its action.
proof fn lemma_decisions_upto(p: Seq<u32>, k: int)
    requires
        0 <= k <= p.len(),
        p.len() <= usize::MAX,
    ensures
        forall|m: int| #![trigger decisions_upto(p, k)[m]] 0 <= m < decisions_upto(p, k).len() ==> {
            let x = decisions_upto(p, k)[m];
            &&& x.cell_index < k
            &&& f32_bits_ge(p[x.cell_index as int], STREAM_PREFETCH_THRESHOLD)
            &&& x.probability == p[x.cell_index as int]
            &&& x.action == action_for(p[x.cell_index as int])
        },
        forall|a: int, b: int| 0 <= a < b < decisions_upto(p, k).len() ==> decisions_upto(p, k)[a].cell_index
            < decisions_upto(p, k)[b].cell_index,
        forall|i: int| 0 <= i < k && f32_bits_ge(p[i], STREAM_PREFETCH_THRESHOLD) ==> decisions_upto(p, k).contains(
            StreamingDecision { cell_index: i as usize, action: action_for(p[i]), probability: p[i] },
        ),
    decreases k,
{
    if k > 0 {
        lemma_decisions_upto(p, k - 1);
        let d = decisions_upto(p, k - 1);
        let x = StreamingDecision { cell_index: (k - 1) as usize, action: action_for(p[k - 1]), probability: p[k - 1] };
        if f32_bits_ge(p[k - 1], STREAM_PREFETCH_THRESHOLD) {
            assert(decisions_upto(p, k) == d.push(x));
            assert forall|i: int| 0 <= i < k && f32_bits_ge(p[i], STREAM_PREFETCH_THRESHOLD) implies decisions_upto(
                p,
                k,
            ).contains(StreamingDecision { cell_index: i as usize, action: action_for(p[i]), probability: p[i] }) by {
                if i == k - 1 {
                    assert(d.push(x)[d.len() as int] == x);
                } else {
                    let y = StreamingDecision { cell_index: i as usize, action: action_for(p[i]), probability: p[i] };
                    let m = choose|m: int| 0 <= m < d.len() && d[m] == y;
                    assert(d.push(x)[m] == y);
                }
            }
        }
    }
}

/// A scan decides for the cells at or above the prefetch threshold, and
/// within the budget keeps those of highest probability.  Each decision is
/// for a distinct cell at or above the threshold, carries its probability,
/// and promotes it exactly when it is at or above the resident threshold.
/// A cell at or above the prefetch threshold is left out only when the
/// budget is full, and then every kept decision has a higher probability
/// (in `f32` order), or the same probability and a lower cell index.
pub proof fn lemma_scan_keeps_highest(p: Seq<u32>)
    requires
        p.len() <= usize::MAX,
    ensures
        scan_result(p).len() <= MAX_STREAM_REQUESTS_PER_TICK,
        forall|k: int| #![trigger scan_result(p)[k]] 0 <= k < scan_result(p).len() ==> {
            let d = scan_result(p)[k];
            &&& d.cell_index < p.len()
            &&& f32_bits_ge(p[d.cell_index as int], STREAM_PREFETCH_THRESHOLD)
            &&& d.probability == p[d.cell_index as int]
            &&& (d.action == StreamAction::PromoteResident) == f32_bits_ge(d.probability, STREAM_RESIDENT_THRESHOLD)
        },
        forall|a: int, b: int| 0 <= a < b < scan_result(p).len() ==> scan_result(p)[a].cell_index
            != scan_result(p)[b].cell_index,
        forall|i: int, k: int|
            #![trigger names_cell(scan_result(p), i), scan_result(p)[k]]
            0 <= i < p.len() && f32_bits_ge(p[i], STREAM_PREFETCH_THRESHOLD) && !names_cell(scan_result(p), i) && 0 <= k
                < scan_result(p).len() ==> scan_result(p).len() == MAX_STREAM_REQUESTS_PER_TICK && (f32_bits_rank(
                scan_result(p)[k].probability,
            ) > f32_bits_rank(p[i]) || (f32_bits_rank(scan_result(p)[k].probability) == f32_bits_rank(p[i])
                && scan_result(p)[k].cell_index < i)),
{
    let n = p.len() as int;
    let all = decisions_upto(p, n);
    let r = scan_result(p);
    lemma_decisions_upto(p, n);
    if all.len() <= MAX_STREAM_REQUESTS_PER_TICK {
        assert(r == all);
        assert forall|i: int, k: int|
            #![trigger names_cell(r, i), r[k]]
            0 <= i < p.len() && f32_bits_ge(p[i], STREAM_PREFETCH_THRESHOLD) && !names_cell(r, i) && 0 <= k
                < r.len() implies r.len() == MAX_STREAM_REQUESTS_PER_TICK && (f32_bits_rank(
            r[k].probability,
        ) > f32_bits_rank(p[i]) || (f32_bits_rank(r[k].probability) == f32_bits_rank(p[i]) && r[k].cell_index < i)) by {
            let x = StreamingDecision { cell_index: i as usize, action: action_for(p[i]), probability: p[i] };
            assert(all.contains(x));
            let m = choose|m: int| 0 <= m < all.len() && all[m] == x;
            assert(r[m].cell_index == i);
        }
    } else {
        let c = ranked_decisions(all);
        lemma_stable_sort_exists(all);
        assert(stable_sorted(all, c));
        assert(distinct_keys(all)) by {
            assert forall|a: int, b: int| 0 <= a < b < all.len() implies all[a].canonical_key() != all[b].canonical_key() by {
                lemma_lex_key(
                    -f32_bits_rank(all[a].probability),
                    all[a].cell_index as int,
                    -f32_bits_rank(all[b].probability),
                    all[b].cell_index as int,
                );
                lemma_lex_key(
                    -f32_bits_rank(all[b].probability),
                    all[b].cell_index as int,
                    -f32_bits_rank(all[a].probability),
                    all[a].cell_index as int,
                );
            }
        }
        lemma_stable_sorted_members(all, c);
        lemma_stable_sorted_distinct(all, c);
        assert(r == c.take(MAX_STREAM_REQUESTS_PER_TICK as int));
        assert forall|k: int| #![trigger r[k]] 0 <= k < r.len() implies {
            let d = r[k];
            &&& d.cell_index < p.len()
            &&& f32_bits_ge(p[d.cell_index as int], STREAM_PREFETCH_THRESHOLD)
            &&& d.probability == p[d.cell_index as int]
            &&& (d.action == StreamAction::PromoteResident) == f32_bits_ge(d.probability, STREAM_RESIDENT_THRESHOLD)
        } by {
            assert(r[k] == c[k]);
            assert(c.contains(c[k]));
            let m = choose|m: int| 0 <= m < all.len() && all[m] == c[k];
            assert(all[m] == r[k]);
        }
        assert forall|a: int, b: int| 0 <= a < b < r.len() implies r[a].cell_index != r[b].cell_index by {
            assert(r[a] == c[a] && r[b] == c[b]);
            assert(c[a] != c[b]);
            assert(c.contains(c[a]) && c.contains(c[b]));
            let ma = choose|m: int| 0 <= m < all.len() && all[m] == c[a];
            let mb = choose|m: int| 0 <= m < all.len() && all[m] == c[b];
            if ma != mb {
                if ma < mb {
                    assert(all[ma].cell_index < all[mb].cell_index);
                } else {
                    assert(all[mb].cell_index < all[ma].cell_index);
                }
            }
        }
        assert forall|i: int, k: int|
            #![trigger names_cell(r, i), r[k]]
            0 <= i < p.len() && f32_bits_ge(p[i], STREAM_PREFETCH_THRESHOLD) && !names_cell(r, i) && 0 <= k
                < r.len() implies r.len() == MAX_STREAM_REQUESTS_PER_TICK && (f32_bits_rank(
            r[k].probability,
        ) > f32_bits_rank(p[i]) || (f32_bits_rank(r[k].probability) == f32_bits_rank(p[i]) && r[k].cell_index < i)) by {
            let x = StreamingDecision { cell_index: i as usize, action: action_for(p[i]), probability: p[i] };
            assert(all.contains(x));
            assert(c.contains(x));
            if r.contains(x) {
                let m = choose|m: int| 0 <= m < r.len() && r[m] == x;
                assert(r[m].cell_index == i);
            }
            assert(r.contains(r[k]));
            lemma_sorted_prefix_least(c, MAX_STREAM_REQUESTS_PER_TICK as int, r[k], x);
            lemma_lex_key(
                -f32_bits_rank(r[k].probability),
                r[k].cell_index as int,
                -f32_bits_rank(x.probability),
                x.cell_index as int,
            );
            lemma_lex_key(
                -f32_bits_rank(x.probability),
                x.cell_index as int,
                -f32_bits_rank(r[k].probability),
                r[k].cell_index as int,
            );
            assert(r[k].cell_index != i);
        }
    }
}

/// The tier of a streaming eligibility: none, prefetch, resident.
pub open spec fn eligibility_tier(e: StreamingEligibility) -> int {
    match e {
        StreamingEligibility::Ineligible => 0,
        StreamingEligibility::PrefetchEligible => 1,
        StreamingEligibility::ResidentEligible => 2,
    }
}

/// A cell's eligibility tier and the coordinator's decision agree: the scan
/// decides for a cell exactly when it is eligible at all, and promotes it
/// exactly when it is resident-eligible.  A higher probability never has a
/// lower tier.
pub proof fn lemma_eligibility_matches_decisions(p: u32, q: u32)
    ensures
        (eligibility_of(p) != StreamingEligibility::Ineligible) == f32_bits_ge(p, STREAM_PREFETCH_THRESHOLD),
        (eligibility_of(p) == StreamingEligibility::ResidentEligible) == f32_bits_ge(p, STREAM_RESIDENT_THRESHOLD),
        f32_bits_ge(p, STREAM_PREFETCH_THRESHOLD) ==> ((action_for(p) == StreamAction::PromoteResident) == (
        eligibility_of(p) == StreamingEligibility::ResidentEligible)),
        !f32_bits_is_nan(p) && !f32_bits_is_nan(q) && f32_bits_rank(p) <= f32_bits_rank(q) ==> eligibility_tier(
            eligibility_of(p),
        ) <= eligibility_tier(eligibility_of(q)),
{
    assert(!f32_bits_is_nan(STREAM_PREFETCH_THRESHOLD)) by (bit_vector);
    assert(!f32_bits_is_nan(STREAM_RESIDENT_THRESHOLD)) by (bit_vector);
}

} // verus!
