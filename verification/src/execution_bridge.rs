//! Execution bridge: turns emission requests into execution descriptors
//! with a priority, a deadline and a prefetch hint.
use vstd::prelude::*;
use crate::emission::{EmissionRequest, f32_bits_greater, f32_bits_gt, f32_rank};
use crate::ordering::{CanonicalKey, lemma_radix_order, lemma_stable_sorted_members, stable_sort_by_key, stable_sorted};
use crate::runtime_frame::{f32_bits_ge, f32_bits_greater_eq, f32_bits_rank, lemma_lex_key};
use crate::field_handle::ExecutionDescriptor;
use crate::region_map::{RegionMap, cell_region};
use crate::regions::RegionActivityState;

verus! {

/// Frames between an emission and its execution deadline.
pub const DEFAULT_DEADLINE_FRAMES: u64 = 4;

/// Bit pattern of `0.15f32`: an emission below it is only a prefetch hint.
pub const PREFETCH_HINT_THRESHOLD: u32 = 0x3e19_999au32;

/// The descriptor of one emission at `current_frame`: its probability as
/// the priority, the deadline a fixed number of frames ahead, and a
/// prefetch hint when the probability is below the hint threshold.
pub open spec fn descriptor_of(e: EmissionRequest, current_frame: u64) -> ExecutionDescriptor {
    ExecutionDescriptor {
        cell_index: e.cell_index,
        priority: e.probability,
        deadline_frame: (current_frame + DEFAULT_DEADLINE_FRAMES) as u64,
        is_prefetch_hint: f32_bits_gt(PREFETCH_HINT_THRESHOLD, e.probability),
    }
}

/// The emission's cell lies in a region that is not dormant.
pub open spec fn in_live_region(map: &RegionMap, e: EmissionRequest) -> bool {
    let r = cell_region(e.cell_index as int, map.width(), map.wide());
    r < map.regions().len() && map.regions()[r].activity != RegionActivityState::Dormant
}

/// The descriptors of the emissions whose cell is in a live region, in order.
pub open spec fn live_descriptors(map: &RegionMap, s: Seq<EmissionRequest>, current_frame: u64) -> Seq<ExecutionDescriptor>
    decreases s.len(),
{
    if s.len() == 0 {
        Seq::empty()
    } else {
        let rest = live_descriptors(map, s.drop_last(), current_frame);
        if in_live_region(map, s.last()) {
            rest.push(descriptor_of(s.last(), current_frame))
        } else {
            rest
        }
    }
}

impl CanonicalKey for ExecutionDescriptor {
    /// Priority order: higher priority first, then lower cell index.
    open spec fn canonical_key(&self) -> int {
        (-f32_bits_rank(self.priority)) * 0x1_0000_0000_0000_0000 + self.cell_index
    }

    fn key_less(&self, other: &Self) -> (r: bool) {
        let ra = f32_rank(self.priority);
        let rb = f32_rank(other.priority);
        let r = if ra != rb {
            ra > rb
        } else {
            self.cell_index < other.cell_index
        };
        proof {
            lemma_lex_key(
                -f32_bits_rank(self.priority),
                self.cell_index as int,
                -f32_bits_rank(other.priority),
                other.cell_index as int,
            );
        }
        r
    }
}

/// The descriptors of `s` whose priority is at least `min_priority` (as
/// `f32`, so a NaN on either side keeps nothing), in their order in `s`.
pub open spec fn kept_at_least(s: Seq<ExecutionDescriptor>, min_priority: u32) -> Seq<ExecutionDescriptor>
    decreases s.len(),
{
    if s.len() == 0 {
        Seq::empty()
    } else {
        let rest = kept_at_least(s.drop_last(), min_priority);
        if f32_bits_ge(s.last().priority, min_priority) {
            rest.push(s.last())
        } else {
            rest
        }
    }
}

/// Budgeted bridge from emission requests to execution descriptors.
#[derive(Debug)]
pub struct ExecutionBridge {
    pub capacity: usize,
}

impl ExecutionBridge {
    /// A bridge with the given fiber budget.
    pub fn new(fiber_budget: usize) -> (b: Self)
        ensures
            b.capacity == fiber_budget,
    {
        Self { capacity: fiber_budget }
    }

    /// The descriptor of one emission.
    pub fn translate_one(&self, emission: EmissionRequest, current_frame: u64) -> (d: ExecutionDescriptor)
        requires
            current_frame + DEFAULT_DEADLINE_FRAMES <= u64::MAX,
        ensures
            d == descriptor_of(emission, current_frame),
    {
        ExecutionDescriptor {
            cell_index: emission.cell_index,
            priority: emission.probability,
            deadline_frame: current_frame + DEFAULT_DEADLINE_FRAMES,
            is_prefetch_hint: f32_bits_greater(PREFETCH_HINT_THRESHOLD, emission.probability),
        }
    }

    /// The descriptor of every emission, in order.
    pub fn translate(&self, emissions: &[EmissionRequest], current_frame: u64) -> (r: Vec<ExecutionDescriptor>)
        requires
            current_frame + DEFAULT_DEADLINE_FRAMES <= u64::MAX,
        ensures
            r@ == Seq::new(emissions@.len(), |i: int| descriptor_of(emissions@[i], current_frame)),
    {
        let mut r: Vec<ExecutionDescriptor> = Vec::new();
        let mut i: usize = 0;
        while i < emissions.len()
            invariant
                i <= emissions@.len(),
                current_frame + DEFAULT_DEADLINE_FRAMES <= u64::MAX,
                r@ == Seq::new(i as nat, |j: int| descriptor_of(emissions@[j], current_frame)),
            decreases emissions@.len() - i,
        {
            let d = self.translate_one(emissions[i], current_frame);
            r.push(d);
            i += 1;
            assert(r@ =~= Seq::new(i as nat, |j: int| descriptor_of(emissions@[j], current_frame)));
        }
        r
    }

    /// Keep the requests whose priority is at least `min_priority`, then
    /// order them by descending priority, ties by ascending cell index
    /// (stably); the result is the reordered list.
    pub fn priority_filter<'a>(&self, requests: &'a mut Vec<ExecutionDescriptor>, min_priority: u32) -> (r: &'a [ExecutionDescriptor])
        ensures
            stable_sorted(kept_at_least(old(requests)@, min_priority), final(requests)@),
            r@ == final(requests)@,
    {
        let ghost orig = requests@;
        let mut kept: Vec<ExecutionDescriptor> = Vec::new();
        let mut i: usize = 0;
        while i < requests.len()
            invariant
                requests@ == orig,
                i <= orig.len(),
                kept@ == kept_at_least(orig.take(i as int), min_priority),
            decreases orig.len() - i,
        {
            let d = requests[i];
            proof {
                assert(orig.take(i + 1).drop_last() =~= orig.take(i as int));
                assert(orig.take(i + 1).last() == d);
            }
            if f32_bits_greater_eq(d.priority, min_priority) {
                kept.push(d);
            }
            i += 1;
        }
        assert(orig.take(i as int) =~= orig);
        stable_sort_by_key(&mut kept);
        *requests = kept;
        requests.as_slice()
    }

    /// The descriptors of the emissions whose cell lies in a region that is
    /// not dormant, in order.
    pub fn translate_region_filtered(
        &self,
        emissions: &[EmissionRequest],
        current_frame: u64,
        region_map: &RegionMap,
    ) -> (r: Vec<ExecutionDescriptor>)
        requires
            current_frame + DEFAULT_DEADLINE_FRAMES <= u64::MAX,
            region_map.width() > 0,
            forall|i: int| 0 <= i < emissions@.len() ==> cell_region(
                #[trigger] emissions@[i].cell_index as int,
                region_map.width(),
                region_map.wide(),
            ) <= usize::MAX,
        ensures
            r@ == live_descriptors(region_map, emissions@, current_frame),
    {
        let mut r: Vec<ExecutionDescriptor> = Vec::new();
        let mut i: usize = 0;
        while i < emissions.len()
            invariant
                i <= emissions@.len(),
                current_frame + DEFAULT_DEADLINE_FRAMES <= u64::MAX,
                region_map.width() > 0,
                forall|k: int| 0 <= k < emissions@.len() ==> cell_region(
                    #[trigger] emissions@[k].cell_index as int,
                    region_map.width(),
                    region_map.wide(),
                ) <= usize::MAX,
                r@ == live_descriptors(region_map, emissions@.take(i as int), current_frame),
            decreases emissions@.len() - i,
        {
            let e = emissions[i];
            let dormant = region_map.cell_is_dormant(e.cell_index);
            if !dormant {
                let d = self.translate_one(e, current_frame);
                r.push(d);
            }
            proof {
                assert(emissions@.take(i + 1).drop_last() =~= emissions@.take(i as int));
            }
            i += 1;
        }
        assert(emissions@.take(i as int) =~= emissions@);
        r
    }
}

/// The descriptors kept from `s` are those of `s` at or above the
/// minimum priority.
proof fn lemma_kept_at_least_members(s: Seq<ExecutionDescriptor>, min_priority: u32, x: ExecutionDescriptor)
    ensures
        kept_at_least(s, min_priority).contains(x) <==> (s.contains(x) && f32_bits_ge(x.priority, min_priority)),
    decreases s.len(),
{
    if s.len() > 0 {
        let d = s.drop_last();
        let l = s.last();
        lemma_kept_at_least_members(d, min_priority, x);
        let rest = kept_at_least(d, min_priority);
        assert(s =~= d.push(l));
        if d.contains(x) {
            let m = choose|m: int| 0 <= m < d.len() && d[m] == x;
            assert(s[m] == x);
        }
        if s.contains(x) && x != l {
            let m = choose|m: int| 0 <= m < s.len() && s[m] == x;
            assert(m < d.len());
            assert(d[m] == x);
        }
        if f32_bits_ge(l.priority, min_priority) {
            assert(rest.push(l)[rest.len() as int] == l);
            if rest.push(l).contains(x) && x != l {
                let m = choose|m: int| 0 <= m < rest.push(l).len() && rest.push(l)[m] == x;
                assert(rest[m] == x);
            }
            if rest.contains(x) {
                let m = choose|m: int| 0 <= m < rest.len() && rest[m] == x;
                assert(rest.push(l)[m] == x);
            }
        }
        if x == l {
            assert(s[s.len() - 1] == x);
        }
    }
}

/// The priority filter keeps exactly the requests at or above the minimum
/// priority (in `f32` order) and orders them by descending priority, ties
/// by ascending cell index.
pub proof fn lemma_priority_filter_order(
    requests: Seq<ExecutionDescriptor>,
    min_priority: u32,
    out: Seq<ExecutionDescriptor>,
)
    requires
        stable_sorted(kept_at_least(requests, min_priority), out),
    ensures
        forall|x: ExecutionDescriptor| out.contains(x) <==> (requests.contains(x) && f32_bits_ge(x.priority, min_priority)),
        forall|i: int, j: int| 0 <= i < j < out.len() ==> f32_bits_rank(out[i].priority) > f32_bits_rank(out[j].priority)
            || (f32_bits_rank(out[i].priority) == f32_bits_rank(out[j].priority) && out[i].cell_index <= out[j].cell_index),
{
    lemma_stable_sorted_members(kept_at_least(requests, min_priority), out);
    assert forall|x: ExecutionDescriptor| out.contains(x) <==> (requests.contains(x) && f32_bits_ge(x.priority, min_priority)) by {
        lemma_kept_at_least_members(requests, min_priority, x);
    }
    assert forall|i: int, j: int| 0 <= i < j < out.len() implies f32_bits_rank(out[i].priority) > f32_bits_rank(
        out[j].priority,
    ) || (f32_bits_rank(out[i].priority) == f32_bits_rank(out[j].priority) && out[i].cell_index
        <= out[j].cell_index) by {
        assert(out[i].canonical_key() <= out[j].canonical_key());
        lemma_radix_order(
            -f32_bits_rank(out[i].priority),
            out[i].cell_index as int,
            -f32_bits_rank(out[j].priority),
            out[j].cell_index as int,
            0x1_0000_0000_0000_0000,
        );
    }
}

} // verus!
