//! Activation-driven emission gate: which field cells get work scheduled
//! this tick, under a per-tick budget.
//!
//! Probabilities are single-precision values held as their IEEE-754 bit
//! patterns and compared the way `f32` compares them.
use vstd::prelude::*;
use crate::bits::{
    bit_of, lemma_bit_test, lemma_clear_bit, lemma_packed_finite, lemma_push_zero_word,
    lemma_set_bit, packed_set,
};
use crate::delta::FieldDeltaMask;
use crate::ordering::{
    CanonicalKey, distinct_keys, lemma_same_members_same_key_order, lemma_sorted_prefix_least,
    lemma_stable_sort_exists, lemma_stable_sort_unique, lemma_stable_sorted_distinct,
    lemma_stable_sorted_members, same_key_order, stable_sort_by_key, stable_sorted, with_key,
};
use crate::runtime_frame::{f32_bits_is_nan, f32_bits_rank, lemma_lex_key};

verus! {

/// Bit pattern of the emission gate, `0.05f32`: a cell is eligible when its
/// probability is strictly above it.
pub const EMIT_GATE: u32 = 0x3d4c_cccdu32;

/// Most requests emitted in one tick.
pub const MAX_EMIT_PER_TICK: usize = 128;

/// A request to schedule work for one field cell.
#[derive(Debug, Clone, Copy, PartialEq, Eq, Structural)]
pub struct EmissionRequest {
    /// Flat index of the cell.
    pub cell_index: usize,
    /// Bit pattern of the cell's execution probability at emission time.
    pub probability: u32,
}

/// `a > b` on `f32` bit patterns: false when either is NaN.
pub open spec fn f32_bits_gt(a: u32, b: u32) -> bool {
    !f32_bits_is_nan(a) && !f32_bits_is_nan(b) && f32_bits_rank(a) > f32_bits_rank(b)
}

/// The position of an `f32` bit pattern on the number line (see
/// `f32_bits_rank`).
pub fn f32_rank(b: u32) -> (r: i64)
    ensures
        r == f32_bits_rank(b),
{
    if b >= 0x8000_0000u32 {
        let m = b & 0x7fff_ffffu32;
        0i64 - (m as i64)
    } else {
        b as i64
    }
}

/// `a > b` on `f32` bit patterns.
pub fn f32_bits_greater(a: u32, b: u32) -> (r: bool)
    ensures
        r == f32_bits_gt(a, b),
{
    let a_nan = (a & 0x7f80_0000u32) == 0x7f80_0000u32 && (a & 0x007f_ffffu32) != 0;
    let b_nan = (b & 0x7f80_0000u32) == 0x7f80_0000u32 && (b & 0x007f_ffffu32) != 0;
    !a_nan && !b_nan && f32_rank(a) > f32_rank(b)
}

impl CanonicalKey for EmissionRequest {
    /// Ranked order: higher probability first, then lower cell index.
    open spec fn canonical_key(&self) -> int {
        (-f32_bits_rank(self.probability)) * 0x1_0000_0000_0000_0000 + self.cell_index
    }

    fn key_less(&self, other: &Self) -> (r: bool) {
        let ra = f32_rank(self.probability);
        let rb = f32_rank(other.probability);
        let r = if ra != rb {
            ra > rb
        } else {
            self.cell_index < other.cell_index
        };
        proof {
            lemma_lex_key(
                -f32_bits_rank(self.probability),
                self.cell_index as int,
                -f32_bits_rank(other.probability),
                other.cell_index as int,
            );
        }
        r
    }
}

/// `s` in ranked order: descending probability, then ascending cell index.
pub open spec fn ranked(s: Seq<EmissionRequest>) -> Seq<EmissionRequest> {
    choose|t: Seq<EmissionRequest>| stable_sorted(s, t)
}

/// The ranked order of `s` is the stable sort that the library computes.
pub proof fn lemma_ranked_is(s: Seq<EmissionRequest>, t: Seq<EmissionRequest>)
    requires
        stable_sorted(s, t),
    ensures
        ranked(s) == t,
{
    let c = ranked(s);
    assert(stable_sorted(s, c));
    lemma_stable_sort_unique(s, t, c);
}

/// The requests for the cells `i < k` that `keep` selects, in index order.
pub open spec fn requests_where(p: Seq<u32>, keep: spec_fn(int) -> bool, k: int) -> Seq<EmissionRequest>
    decreases k,
{
    if k <= 0 {
        Seq::empty()
    } else if keep(k - 1) {
        requests_where(p, keep, k - 1).push(
            EmissionRequest { cell_index: (k - 1) as usize, probability: p[k - 1] },
        )
    } else {
        requests_where(p, keep, k - 1)
    }
}

/// The cell's probability is strictly above `EMIT_GATE`.
pub open spec fn above_gate(p: Seq<u32>, i: int) -> bool {
    f32_bits_gt(p[i], EMIT_GATE)
}

/// The requests of every cell above `EMIT_GATE`, in index order.
pub open spec fn gate_candidates(p: Seq<u32>) -> Seq<EmissionRequest> {
    requests_where(p, |i: int| above_gate(p, i), p.len() as int)
}

/// The budget applied to `candidates`: all of them when they fit, else the
/// first `MAX_EMIT_PER_TICK` in ranked order.
pub open spec fn within_budget(candidates: Seq<EmissionRequest>) -> Seq<EmissionRequest> {
    if candidates.len() <= MAX_EMIT_PER_TICK {
        candidates
    } else {
        ranked(candidates).take(MAX_EMIT_PER_TICK as int)
    }
}

/// Scans a field's execution probabilities and emits a bounded list of
/// requests for the cells above `EMIT_GATE`; remembers which cells were
/// eligible so that a sparse scan can carry them forward.
pub struct EmissionGate {
    scratch: Vec<EmissionRequest>,
    still_eligible: Vec<u64>,
    still_eligible_len: usize,
}

impl Default for EmissionGate {
    fn default() -> (g: Self)
        ensures
            g.well_formed(),
            g.emitted() == Seq::<EmissionRequest>::empty(),
            g.eligible() == Set::<int>::empty(),
            g.covered() == 0,
    {
        Self::new()
    }
}

impl EmissionGate {
    /// The requests of the last scan.
    pub closed spec fn emitted(&self) -> Seq<EmissionRequest> {
        self.scratch@
    }

    /// The cells remembered as eligible.
    pub closed spec fn eligible(&self) -> Set<int> {
        packed_set(self.still_eligible@)
    }

    /// Number of cells the eligibility bitset covers.
    pub closed spec fn covered(&self) -> nat {
        self.still_eligible_len as nat
    }

    /// Number of 64-cell words of the eligibility bitset.
    pub closed spec fn eligible_words(&self) -> nat {
        self.still_eligible@.len()
    }

    /// The bitset has exactly the words that its covered cells need.
    pub closed spec fn well_formed(&self) -> bool {
        &&& self.still_eligible_len + 63 <= usize::MAX
        &&& self.still_eligible@.len() == (self.still_eligible_len + 63) / 64
    }

    /// A gate that has emitted nothing and remembers no cell.
    pub fn new() -> (g: Self)
        ensures
            g.well_formed(),
            g.emitted() == Seq::<EmissionRequest>::empty(),
            g.eligible() == Set::<int>::empty(),
            g.covered() == 0,
    {
        let g = Self { scratch: Vec::with_capacity(MAX_EMIT_PER_TICK * 2), still_eligible: Vec::new(), still_eligible_len: 0 };
        proof {
            crate::bits::lemma_zero_words_empty(g.still_eligible@);
        }
        g
    }

    /// Grow the bitset, with cleared bits, to cover `num_cells` cells.
    fn ensure_eligible_capacity(&mut self, num_cells: usize)
        requires
            old(self).well_formed(),
            num_cells + 63 <= usize::MAX,
        ensures
            final(self).well_formed(),
            final(self).eligible() == old(self).eligible(),
            final(self).covered() == (if old(self).covered() < num_cells { num_cells as nat } else { old(self).covered() }),
            final(self).emitted() == old(self).emitted(),
    {
        if self.still_eligible_len < num_cells {
            let num_words = (num_cells + 63) / 64;
            while self.still_eligible.len() < num_words
                invariant
                    self.still_eligible_len < num_cells,
                    num_cells + 63 <= usize::MAX,
                    num_words == (num_cells + 63) / 64,
                    self.still_eligible@.len() <= num_words,
                    packed_set(self.still_eligible@) == packed_set(old(self).still_eligible@),
                    self.scratch@ == old(self).scratch@,
                    self.still_eligible_len == old(self).still_eligible_len,
                decreases num_words - self.still_eligible@.len(),
            {
                proof {
                    lemma_push_zero_word(self.still_eligible@);
                }
                self.still_eligible.push(0u64);
            }
            self.still_eligible_len = num_cells;
        }
    }

    fn set_eligible(&mut self, idx: usize)
        requires
            idx / 64 < old(self).eligible_words(),
        ensures
            final(self).eligible() == old(self).eligible().insert(idx as int),
            final(self).eligible_words() == old(self).eligible_words(),
            final(self).still_eligible_len == old(self).still_eligible_len,
            final(self).scratch@ == old(self).scratch@,
    {
        let w = idx / 64;
        let b = (idx % 64) as u64;
        proof {
            lemma_set_bit(self.still_eligible@, w as int, b);
        }
        let word = self.still_eligible[w] | (1u64 << b);
        self.still_eligible.set(w, word);
    }

    fn clear_eligible(&mut self, idx: usize)
        requires
            idx / 64 < old(self).eligible_words(),
        ensures
            final(self).eligible() == old(self).eligible().remove(idx as int),
            final(self).eligible_words() == old(self).eligible_words(),
            final(self).still_eligible_len == old(self).still_eligible_len,
            final(self).scratch@ == old(self).scratch@,
    {
        let w = idx / 64;
        let b = (idx % 64) as u64;
        proof {
            lemma_clear_bit(self.still_eligible@, w as int, b);
        }
        let word = self.still_eligible[w] & !(1u64 << b);
        self.still_eligible.set(w, word);
    }

    fn is_eligible(&self, idx: usize) -> (r: bool)
        ensures
            r == self.eligible().contains(idx as int),
    {
        let w = idx / 64;
        if w < self.still_eligible.len() {
            let b = (idx % 64) as u64;
            proof {
                lemma_bit_test(self.still_eligible@[w as int], b);
            }
            self.still_eligible[w] & (1u64 << b) != 0
        } else {
            false
        }
    }

    /// Keep at most the budget of the scratch requests, by ranked order.
    fn enforce_budget(&mut self)
        ensures
            final(self).scratch@ == within_budget(old(self).scratch@),
            forall|i: int| 0 <= i < final(self).scratch@.len() ==> old(self).scratch@.contains(
                #[trigger] final(self).scratch@[i],
            ),
            final(self).still_eligible@ == old(self).still_eligible@,
            final(self).still_eligible_len == old(self).still_eligible_len,
    {
        if self.scratch.len() > MAX_EMIT_PER_TICK {
            let ghost before = self.scratch@;
            stable_sort_by_key(&mut self.scratch);
            proof {
                lemma_ranked_is(before, self.scratch@);
                let sorted = self.scratch@;
                assert forall|i: int| 0 <= i < sorted.len() implies before.contains(#[trigger] sorted[i]) by {
                    broadcast use vstd::seq_lib::group_to_multiset_ensures;
                    assert(sorted.contains(sorted[i]));
                    assert(sorted.to_multiset().count(sorted[i]) > 0);
                }
            }
            self.scratch.truncate(MAX_EMIT_PER_TICK);
        }
    }

    /// Full scan: emit every cell above `EMIT_GATE`, within the budget, and
    /// remember exactly those cells as eligible.
    pub fn collect(&mut self, probabilities: &[u32]) -> (r: &[EmissionRequest])
        requires
            old(self).well_formed(),
            probabilities@.len() + 63 <= usize::MAX,
        ensures
            final(self).well_formed(),
            r@ == final(self).emitted(),
            final(self).emitted() == within_budget(gate_candidates(probabilities@)),
            gate_output_ok(probabilities@, final(self).emitted()),
            final(self).covered() == (if old(self).covered() < probabilities@.len() {
                probabilities@.len()
            } else {
                old(self).covered()
            }),
            forall|i: int| 0 <= i < probabilities@.len() ==> (#[trigger] final(self).eligible().contains(i)
                == above_gate(probabilities@, i)),
            forall|i: int| !(0 <= i < probabilities@.len()) ==> (#[trigger] final(self).eligible().contains(i)
                == old(self).eligible().contains(i)),
    {
        let ghost p = probabilities@;
        let ghost keep = |i: int| above_gate(p, i);
        self.scratch.clear();
        self.ensure_eligible_capacity(probabilities.len());
        let ghost start = self.eligible();
        let ghost cov = self.still_eligible_len;
        let n = probabilities.len();
        let mut idx: usize = 0;
        while idx < n
            invariant
                n == p.len(),
                p == probabilities@,
                idx <= n,
                self.well_formed(),
                self.still_eligible_len == cov,
                cov >= n,
                keep == (|i: int| above_gate(p, i)),
                self.scratch@ == requests_where(p, keep, idx as int),
                forall|i: int| 0 <= i < idx ==> (#[trigger] self.eligible().contains(i) == above_gate(p, i)),
                forall|i: int| !(0 <= i < idx) ==> (#[trigger] self.eligible().contains(i) == start.contains(i)),
            decreases n - idx,
        {
            let prob = probabilities[idx];
            proof {
                assert(idx / 64 < self.eligible_words()) by (nonlinear_arith)
                    requires
                        idx < n,
                        n <= self.still_eligible_len,
                        self.eligible_words() == (self.still_eligible_len + 63) / 64,
                ;
            }
            let ghost before = self.scratch@;
            let ghost elig_before = self.eligible();
            let above = f32_bits_greater(prob, EMIT_GATE);
            if above {
                self.scratch.push(EmissionRequest { cell_index: idx, probability: prob });
                self.set_eligible(idx);
            } else {
                self.clear_eligible(idx);
            }
            proof {
                assert(keep(idx as int) == above);
                assert(requests_where(p, keep, idx + 1) == (if keep(idx as int) {
                    requests_where(p, keep, idx as int).push(EmissionRequest { cell_index: idx, probability: p[idx as int] })
                } else {
                    requests_where(p, keep, idx as int)
                }));
                assert forall|i: int| 0 <= i < idx + 1 implies (#[trigger] self.eligible().contains(i) == above_gate(p, i)) by {
                    if i < idx {
                        assert(elig_before.contains(i) == above_gate(p, i));
                    }
                }
                assert forall|i: int| !(0 <= i < idx + 1) implies (#[trigger] self.eligible().contains(i) == start.contains(i)) by {
                    assert(elig_before.contains(i) == start.contains(i));
                }
            }
            idx += 1;
        }
        let ghost elig_end = self.eligible();
        let ghost all = self.scratch@;
        self.enforce_budget();
        proof {
            assert(requests_where(p, keep, n as int) == gate_candidates(p));
            assert forall|i: int| 0 <= i < self.scratch@.len() implies {
                &&& (#[trigger] self.scratch@[i]).cell_index < p.len()
                &&& above_gate(p, self.scratch@[i].cell_index as int)
                &&& self.scratch@[i].probability == p[self.scratch@[i].cell_index as int]
            } by {
                assert(all.contains(self.scratch@[i]));
                lemma_requests_where_members(p, keep, n as int, self.scratch@[i]);
            }
            assert(self.eligible() == elig_end);
            assert forall|i: int| 0 <= i < n implies (#[trigger] self.eligible().contains(i) == above_gate(p, i)) by {
                assert(elig_end.contains(i) == above_gate(p, i));
            }
            assert forall|i: int| !(0 <= i < n) implies (#[trigger] self.eligible().contains(i) == start.contains(i)) by {
                assert(elig_end.contains(i) == start.contains(i));
            }
        }
        self.scratch.as_slice()
    }

    /// Sparse scan: re-evaluate the changed cells, then carry forward the
    /// unchanged cells that were eligible and are still above `EMIT_GATE`.
    ///
    /// The output lists the changed cells above `EMIT_GATE`, then the carried
    /// cells, each in ascending cell order, within the budget.  Changed
    /// cells are remembered as eligible exactly when above `EMIT_GATE`;
    /// unchanged cells stay eligible only while above it.
    pub fn collect_from_changed(&mut self, probabilities: &[u32], delta_mask: &FieldDeltaMask) -> (r: &[EmissionRequest])
        requires
            sparse_scan_allowed(*old(self), probabilities@, *delta_mask),
        ensures
            r@ == final(self).emitted(),
            sparse_scanned(*old(self), *final(self), probabilities@, *delta_mask),
    {
        let ghost p = probabilities@;
        let n = probabilities.len();
        let ghost keep1 = |i: int| rescanned(*delta_mask, n as int, i) && above_gate(p, i);
        let ghost start = self.eligible();
        proof {
            delta_mask.lemma_well_formed();
        }
        self.scratch.clear();
        self.ensure_eligible_capacity(n);
        let ghost cov = self.still_eligible_len;

        // Pass 1: the changed cells, in ascending order.
        let cells = delta_mask.iter_changed();
        let mut j: usize = 0;
        proof {
            lemma_first_bound(p, *delta_mask, cells@, n as int, start);
        }
        while j < cells.len() && cells[j] < n
            invariant
                n == p.len(),
                p == probabilities@,
                self.well_formed(),
                self.still_eligible_len == cov,
                cov >= n,
                keep1 == (|i: int| rescanned(*delta_mask, n as int, i) && above_gate(p, i)),
                delta_mask.well_formed(),
                forall|a: int, b: int| 0 <= a < b < cells@.len() ==> cells@[a] < cells@[b],
                forall|i: usize|
                    #![trigger cells@.contains(i)]
                    cells@.contains(i) <==> (delta_mask.changed().contains(i as int) && i
                        < delta_mask.cell_count()),
                j <= cells@.len(),
                forall|k: int| 0 <= k < j ==> cells@[k] < n,
                self.scratch@ == requests_where(p, keep1, pass_bound(cells@, j as int, n as int)),
                forall|i: int| #[trigger] self.eligible().contains(i) == (if rescanned(*delta_mask, n as int, i)
                    && i < pass_bound(cells@, j as int, n as int) {
                    above_gate(p, i)
                } else {
                    start.contains(i)
                }),
            decreases cells@.len() - j,
        {
            let idx = cells[j];
            let prob = probabilities[idx];
            let ghost elig_before = self.eligible();
            proof {
                assert(cells@.contains(idx));
                assert(idx / 64 < self.eligible_words()) by (nonlinear_arith)
                    requires
                        idx < n,
                        n <= self.still_eligible_len,
                        self.eligible_words() == (self.still_eligible_len + 63) / 64,
                ;
            }
            let above = f32_bits_greater(prob, EMIT_GATE);
            if above {
                self.scratch.push(EmissionRequest { cell_index: idx, probability: prob });
                self.set_eligible(idx);
            } else {
                self.clear_eligible(idx);
            }
            proof {
                lemma_next_bound(p, *delta_mask, cells@, j as int, n as int, keep1);
                assert forall|i: int| #[trigger] self.eligible().contains(i) == (if rescanned(*delta_mask, n as int, i)
                    && i < pass_bound(cells@, j + 1, n as int) {
                    above_gate(p, i)
                } else {
                    start.contains(i)
                }) by {
                    if i != idx {
                        assert(elig_before.contains(i) == self.eligible().contains(i));
                        if idx < i && i < pass_bound(cells@, j + 1, n as int) {
                            lemma_no_changed_between(*delta_mask, cells@, j as int, n as int, i);
                        }
                    }
                }
            }
            j += 1;
        }
        proof {
            assert(pass_bound(cells@, j as int, n as int) == n);
        }

        // Pass 2: unchanged cells still marked eligible.
        let ghost mid = self.eligible();
        let ghost first = self.scratch@;
        let ghost keep2 = |i: int| carried(*delta_mask, start, p, i);
        let mut idx: usize = 0;
        proof {
            assert(requests_where(p, keep2, 0) =~= Seq::<EmissionRequest>::empty());
            assert(first + requests_where(p, keep2, 0) =~= first);
        }
        while idx < n
            invariant
                n == p.len(),
                p == probabilities@,
                self.well_formed(),
                self.still_eligible_len == cov,
                cov >= n,
                idx <= n,
                keep2 == (|i: int| carried(*delta_mask, start, p, i)),
                delta_mask.well_formed(),
                forall|i: int| #[trigger] delta_mask.changed().contains(i) ==> 0 <= i < 64 * delta_mask.word_count(),
                forall|i: int| #[trigger] start.contains(i) && 0 <= i < n ==> i < 64 * delta_mask.word_count(),
                forall|i: int| #[trigger] mid.contains(i) == (if rescanned(*delta_mask, n as int, i) {
                    above_gate(p, i)
                } else {
                    start.contains(i)
                }),
                self.scratch@ == first + requests_where(p, keep2, idx as int),
                forall|i: int| #[trigger] self.eligible().contains(i) == (if 0 <= i < idx && !delta_mask.changed().contains(i)
                    && mid.contains(i) {
                    above_gate(p, i)
                } else {
                    mid.contains(i)
                }),
            decreases n - idx,
        {
            let ghost elig_before = self.eligible();
            let ghost before = self.scratch@;
            proof {
                assert(idx / 64 < self.eligible_words()) by (nonlinear_arith)
                    requires
                        idx < n,
                        n <= self.still_eligible_len,
                        self.eligible_words() == (self.still_eligible_len + 63) / 64,
                ;
            }
            if self.is_eligible(idx) {
                proof {
                    assert(mid.contains(idx as int));
                    if rescanned(*delta_mask, n as int, idx as int) {
                        assert(delta_mask.changed().contains(idx as int));
                    } else {
                        assert(start.contains(idx as int));
                    }
                    assert(idx / 64 < delta_mask.word_count()) by (nonlinear_arith)
                        requires
                            idx < 64 * delta_mask.word_count(),
                    ;
                }
                if !delta_mask.is_changed(idx) {
                    let prob = probabilities[idx];
                    if f32_bits_greater(prob, EMIT_GATE) {
                        self.scratch.push(EmissionRequest { cell_index: idx, probability: prob });
                    } else {
                        self.clear_eligible(idx);
                    }
                }
            }
            proof {
                assert(keep2(idx as int) == (!delta_mask.changed().contains(idx as int) && start.contains(idx as int)
                    && above_gate(p, idx as int)));
                assert(requests_where(p, keep2, idx + 1) == (if keep2(idx as int) {
                    requests_where(p, keep2, idx as int).push(EmissionRequest { cell_index: idx, probability: p[idx as int] })
                } else {
                    requests_where(p, keep2, idx as int)
                }));
                assert(self.scratch@ =~= first + requests_where(p, keep2, idx + 1));
                assert forall|i: int| #[trigger] self.eligible().contains(i) == (if 0 <= i < idx + 1 && !delta_mask.changed().contains(i)
                    && mid.contains(i) {
                    above_gate(p, i)
                } else {
                    mid.contains(i)
                }) by {
                    if i != idx {
                        assert(elig_before.contains(i) == self.eligible().contains(i));
                    }
                }
            }
            idx += 1;
        }
        let ghost elig_end = self.eligible();
        let ghost all = self.scratch@;
        self.enforce_budget();
        proof {
            assert(requests_where(p, keep1, n as int) == requests_where(p, |i: int| rescanned(*delta_mask, n as int, i) && above_gate(p, i), p.len() as int));
            assert(all == sparse_candidates(p, *delta_mask, start));
            assert(self.eligible() == elig_end);
            assert forall|i: int| 0 <= i < self.scratch@.len() implies {
                &&& (#[trigger] self.scratch@[i]).cell_index < p.len()
                &&& above_gate(p, self.scratch@[i].cell_index as int)
                &&& self.scratch@[i].probability == p[self.scratch@[i].cell_index as int]
            } by {
                let x = self.scratch@[i];
                assert(all.contains(x));
                let m = choose|m: int| 0 <= m < all.len() && all[m] == x;
                let l1 = requests_where(p, keep1, n as int);
                let l2 = requests_where(p, keep2, n as int);
                assert(all == l1 + l2);
                if m < l1.len() {
                    assert(l1[m] == x);
                    assert(l1.contains(x));
                    lemma_requests_where_members(p, keep1, n as int, x);
                } else {
                    assert(l2[m - l1.len()] == x);
                    assert(l2.contains(x));
                    lemma_requests_where_members(p, keep2, n as int, x);
                }
            }
            assert forall|i: int| 0 <= i < n implies (#[trigger] self.eligible().contains(i) == (if rescanned(*delta_mask, n as int, i) {
                above_gate(p, i)
            } else if delta_mask.changed().contains(i) {
                start.contains(i)
            } else {
                start.contains(i) && above_gate(p, i)
            })) by {
                assert(elig_end.contains(i) == self.eligible().contains(i));
                assert(mid.contains(i) == (if rescanned(*delta_mask, n as int, i) { above_gate(p, i) } else { start.contains(i) }));
            }
            assert forall|i: int| !(0 <= i < n) implies (#[trigger] self.eligible().contains(i) == start.contains(i)) by {
                assert(elig_end.contains(i) == self.eligible().contains(i));
                assert(mid.contains(i) == start.contains(i));
            }
        }
        self.scratch.as_slice()
    }

    /// Number of requests of the last scan.
    pub fn pending_count(&self) -> (n: usize)
        ensures
            n == self.emitted().len(),
    {
        self.scratch.len()
    }
}

/// Cell `i` is re-evaluated by the sparse scan: marked in the change mask,
/// inside the mask's cells and inside the field.
pub open spec fn rescanned(mask: FieldDeltaMask, n: int, i: int) -> bool {
    mask.changed().contains(i) && 0 <= i < mask.cell_count() && i < n
}

/// Cell `i` is carried forward by the sparse scan: unchanged, eligible
/// before, and still above `EMIT_GATE`.
pub open spec fn carried(mask: FieldDeltaMask, eligible: Set<int>, p: Seq<u32>, i: int) -> bool {
    !mask.changed().contains(i) && eligible.contains(i) && above_gate(p, i)
}

/// What the sparse scan collects before the budget: changed cells above the
/// gate, then carried cells, each in ascending cell order.
pub open spec fn sparse_candidates(p: Seq<u32>, mask: FieldDeltaMask, eligible: Set<int>) -> Seq<EmissionRequest> {
    requests_where(p, |i: int| rescanned(mask, p.len() as int, i) && above_gate(p, i), p.len() as int)
        + requests_where(p, |i: int| carried(mask, eligible, p, i), p.len() as int)
}

/// How far the first pass has got after `j` changed cells: up to the next
/// changed cell, or the end of the field.
pub open spec fn pass_bound(cells: Seq<usize>, j: int, n: int) -> int {
    if j < cells.len() && cells[j] < n {
        cells[j] as int
    } else {
        n
    }
}

proof fn lemma_requests_gap(p: Seq<u32>, keep: spec_fn(int) -> bool, lo: int, hi: int)
    requires
        0 <= lo <= hi,
        forall|i: int| lo <= i < hi ==> !#[trigger] keep(i),
    ensures
        requests_where(p, keep, hi) == requests_where(p, keep, lo),
    decreases hi - lo,
{
    if hi > lo {
        lemma_requests_gap(p, keep, lo, hi - 1);
    }
}

/// No changed cell of the field lies strictly between the `j`-th changed
/// cell and the next pass bound.
proof fn lemma_no_changed_between(mask: FieldDeltaMask, cells: Seq<usize>, j: int, n: int, i: int)
    requires
        0 <= j < cells.len(),
        forall|a: int, b: int| 0 <= a < b < cells.len() ==> cells[a] < cells[b],
        forall|x: usize|
            #![trigger cells.contains(x)]
            cells.contains(x) <==> (mask.changed().contains(x as int) && x < mask.cell_count()),
        cells[j] < i < pass_bound(cells, j + 1, n),
        n <= usize::MAX,
    ensures
        !rescanned(mask, n, i),
{
    if rescanned(mask, n, i) {
        assert(cells.contains(i as usize));
        let m = choose|m: int| 0 <= m < cells.len() && cells[m] == i as usize;
        if m <= j {
            if m < j {
                assert(cells[m] < cells[j]);
            }
        } else if m > j + 1 {
            assert(cells[j + 1] < cells[m]);
        }
    }
}

proof fn lemma_first_bound(p: Seq<u32>, mask: FieldDeltaMask, cells: Seq<usize>, n: int, start: Set<int>)
    requires
        forall|a: int, b: int| 0 <= a < b < cells.len() ==> cells[a] < cells[b],
        forall|x: usize|
            #![trigger cells.contains(x)]
            cells.contains(x) <==> (mask.changed().contains(x as int) && x < mask.cell_count()),
        0 <= n <= usize::MAX,
    ensures
        forall|i: int| 0 <= i < pass_bound(cells, 0, n) ==> !#[trigger] rescanned(mask, n, i),
        requests_where(p, |i: int| rescanned(mask, n, i) && above_gate(p, i), pass_bound(cells, 0, n))
            == Seq::<EmissionRequest>::empty(),
{
    let keep1 = |i: int| rescanned(mask, n, i) && above_gate(p, i);
    assert forall|i: int| 0 <= i < pass_bound(cells, 0, n) implies !#[trigger] rescanned(mask, n, i) by {
        if rescanned(mask, n, i) {
            assert(cells.contains(i as usize));
            let m = choose|m: int| 0 <= m < cells.len() && cells[m] == i as usize;
            if m > 0 {
                assert(cells[0] < cells[m]);
            }
        }
    }
    lemma_requests_gap(p, keep1, 0, pass_bound(cells, 0, n));
}

proof fn lemma_next_bound(p: Seq<u32>, mask: FieldDeltaMask, cells: Seq<usize>, j: int, n: int, keep1: spec_fn(int) -> bool)
    requires
        keep1 == (|i: int| rescanned(mask, n, i) && above_gate(p, i)),
        0 <= j < cells.len(),
        cells[j] < n,
        n == p.len(),
        n <= usize::MAX,
        forall|a: int, b: int| 0 <= a < b < cells.len() ==> cells[a] < cells[b],
        forall|x: usize|
            #![trigger cells.contains(x)]
            cells.contains(x) <==> (mask.changed().contains(x as int) && x < mask.cell_count()),
    ensures
        requests_where(p, keep1, pass_bound(cells, j + 1, n)) == (if above_gate(p, cells[j] as int) {
            requests_where(p, keep1, cells[j] as int).push(
                EmissionRequest { cell_index: cells[j], probability: p[cells[j] as int] },
            )
        } else {
            requests_where(p, keep1, cells[j] as int)
        }),
        cells[j] < pass_bound(cells, j + 1, n),
{
    let idx = cells[j] as int;
    if j + 1 < cells.len() {
        assert(cells[j] < cells[j + 1]);
    }
    assert(cells.contains(cells[j]));
    assert(rescanned(mask, n, idx));
    assert forall|i: int| idx + 1 <= i < pass_bound(cells, j + 1, n) implies !#[trigger] keep1(i) by {
        lemma_no_changed_between(mask, cells, j, n, i);
    }
    lemma_requests_gap(p, keep1, idx + 1, pass_bound(cells, j + 1, n));
}

/// Every request of `s` is for a cell of `p` above `EMIT_GATE` and carries
/// that cell's probability.
pub open spec fn gate_output_ok(p: Seq<u32>, s: Seq<EmissionRequest>) -> bool {
    forall|i: int| 0 <= i < s.len() ==> {
        &&& (#[trigger] s[i]).cell_index < p.len()
        &&& above_gate(p, s[i].cell_index as int)
        &&& s[i].probability == p[s[i].cell_index as int]
    }
}

/// A request selected by `requests_where` is for a kept cell below the
/// bound and carries that cell's probability.
pub proof fn lemma_requests_where_members(p: Seq<u32>, keep: spec_fn(int) -> bool, k: int, x: EmissionRequest)
    requires
        0 <= k <= p.len(),
        p.len() <= usize::MAX,
        requests_where(p, keep, k).contains(x),
    ensures
        x.cell_index < k,
        keep(x.cell_index as int),
        x.probability == p[x.cell_index as int],
    decreases k,
{
    if k > 0 {
        let r = EmissionRequest { cell_index: (k - 1) as usize, probability: p[k - 1] };
        if keep(k - 1) && x == r {
        } else {
            if keep(k - 1) {
                let prefix = requests_where(p, keep, k - 1);
                assert(prefix.push(r).contains(x));
                let m = choose|m: int| 0 <= m < prefix.push(r).len() && prefix.push(r)[m] == x;
                assert(m < prefix.len());
                assert(prefix.contains(x));
            }
            lemma_requests_where_members(p, keep, k - 1, x);
        }
    }
}

/// A sparse scan of `p` with `mask` may run on `gate`: `gate` is
/// consistent, the field's length leaves room for rounding up to words, the
/// mask is consistent, and every eligible cell of the field lies inside the
/// mask's words (the scan asks the mask about each of them).
pub open spec fn sparse_scan_allowed(gate: EmissionGate, p: Seq<u32>, mask: FieldDeltaMask) -> bool {
    &&& gate.well_formed()
    &&& p.len() + 63 <= usize::MAX
    &&& mask.well_formed()
    &&& forall|i: int| #[trigger] gate.eligible().contains(i) && 0 <= i < p.len() ==> i < 64
        * mask.word_count()
}

/// `after` is `before` after a sparse scan of `p` with `mask`: it emitted
/// the budgeted sparse candidates, covers the field, re-evaluated changed
/// cells, dropped unchanged cells that fell below `EMIT_GATE`, and left cells
/// outside the field alone.
pub open spec fn sparse_scanned(before: EmissionGate, after: EmissionGate, p: Seq<u32>, mask: FieldDeltaMask) -> bool {
    &&& after.well_formed()
    &&& after.emitted() == within_budget(sparse_candidates(p, mask, before.eligible()))
    &&& gate_output_ok(p, after.emitted())
    &&& after.covered() == (if before.covered() < p.len() { p.len() } else { before.covered() })
    &&& forall|i: int| 0 <= i < p.len() ==> (#[trigger] after.eligible().contains(i) == (if rescanned(
        mask,
        p.len() as int,
        i,
    ) {
        above_gate(p, i)
    } else if mask.changed().contains(i) {
        before.eligible().contains(i)
    } else {
        before.eligible().contains(i) && above_gate(p, i)
    }))
    &&& forall|i: int| !(0 <= i < p.len()) ==> (#[trigger] after.eligible().contains(i)
        == before.eligible().contains(i))
}

/// Every kept cell below the bound has its request in `requests_where`.
pub proof fn lemma_requests_where_has(p: Seq<u32>, keep: spec_fn(int) -> bool, k: int, i: int)
    requires
        0 <= i < k <= p.len(),
        p.len() <= usize::MAX,
        keep(i),
    ensures
        requests_where(p, keep, k).contains(EmissionRequest { cell_index: i as usize, probability: p[i] }),
    decreases k,
{
    let x = EmissionRequest { cell_index: i as usize, probability: p[i] };
    let prefix = requests_where(p, keep, k - 1);
    if i == k - 1 {
        assert(prefix.push(x)[prefix.len() as int] == x);
    } else {
        lemma_requests_where_has(p, keep, k - 1, i);
        if keep(k - 1) {
            let r = EmissionRequest { cell_index: (k - 1) as usize, probability: p[k - 1] };
            let m = choose|m: int| 0 <= m < prefix.len() && prefix[m] == x;
            assert(prefix.push(r)[m] == x);
        }
    }
}

/// The requests of `requests_where` come in strictly increasing cell order.
pub proof fn lemma_requests_where_increasing(p: Seq<u32>, keep: spec_fn(int) -> bool, k: int)
    requires
        0 <= k <= p.len(),
        p.len() <= usize::MAX,
    ensures
        forall|a: int, b: int| 0 <= a < b < requests_where(p, keep, k).len() ==> requests_where(p, keep, k)[a].cell_index
            < requests_where(p, keep, k)[b].cell_index,
    decreases k,
{
    if k > 0 {
        lemma_requests_where_increasing(p, keep, k - 1);
        let prefix = requests_where(p, keep, k - 1);
        if keep(k - 1) {
            assert forall|a: int| 0 <= a < prefix.len() implies prefix[a].cell_index < k - 1 by {
                assert(prefix.contains(prefix[a]));
                lemma_requests_where_members(p, keep, k - 1, prefix[a]);
            }
        }
    }
}

/// Requests for different cells have different ranked keys.
pub proof fn lemma_distinct_cells_distinct_keys(s: Seq<EmissionRequest>)
    requires
        forall|a: int, b: int| 0 <= a < b < s.len() ==> s[a].cell_index != s[b].cell_index,
    ensures
        distinct_keys(s),
{
    assert forall|a: int, b: int| 0 <= a < b < s.len() implies s[a].canonical_key() != s[b].canonical_key() by {
        lemma_lex_key(
            -f32_bits_rank(s[a].probability),
            s[a].cell_index as int,
            -f32_bits_rank(s[b].probability),
            s[b].cell_index as int,
        );
        lemma_lex_key(
            -f32_bits_rank(s[b].probability),
            s[b].cell_index as int,
            -f32_bits_rank(s[a].probability),
            s[a].cell_index as int,
        );
    }
}

/// Sequences holding every key's elements in the same order rank the same.
pub proof fn lemma_ranked_same(a: Seq<EmissionRequest>, b: Seq<EmissionRequest>)
    requires
        same_key_order(a, b),
    ensures
        ranked(a) == ranked(b),
{
    lemma_stable_sort_exists(a);
    lemma_stable_sort_exists(b);
    let ra = ranked(a);
    let rb = ranked(b);
    assert(stable_sorted(a, ra));
    assert(stable_sorted(b, rb));
    assert forall|k: int| #[trigger] with_key(b, k) == with_key(ra, k) by {
        assert(with_key(a, k) == with_key(b, k));
        assert(with_key(a, k) == with_key(ra, k));
    }
    assert(stable_sorted(b, ra));
    lemma_stable_sort_unique(b, ra, rb);
}

/// The sparse scan keeps the remembered eligibility exact.  When the emission gate
/// remembers exactly the cells of the previous field above `EMIT_GATE`, and
/// the change mask covers the field and marks every cell that has risen above
/// `EMIT_GATE` (as a mask of every cell whose probability changed does), then
/// after the scan it remembers exactly the cells of the new field above
/// `EMIT_GATE`.
pub proof fn lemma_sparse_scan_keeps_eligibility(
    before: EmissionGate,
    after: EmissionGate,
    prev: Seq<u32>,
    p: Seq<u32>,
    mask: FieldDeltaMask,
)
    requires
        prev.len() == p.len(),
        p.len() <= mask.cell_count(),
        forall|i: int| 0 <= i < p.len() ==> (#[trigger] before.eligible().contains(i) == above_gate(prev, i)),
        forall|i: int| 0 <= i < p.len() && above_gate(p, i) && !above_gate(prev, i) ==> #[trigger] mask.changed().contains(i),
        sparse_scanned(before, after, p, mask),
    ensures
        forall|i: int| 0 <= i < p.len() ==> (#[trigger] after.eligible().contains(i) == above_gate(p, i)),
{
    assert forall|i: int| 0 <= i < p.len() implies (#[trigger] after.eligible().contains(i) == above_gate(p, i)) by {
        assert(before.eligible().contains(i) == above_gate(prev, i));

    }
}

/// A change mask that marks every cell whose probability changed marks
/// every cell that has risen above `EMIT_GATE`.
pub proof fn lemma_change_mask_marks_risen(prev: Seq<u32>, p: Seq<u32>, mask: FieldDeltaMask)
    requires
        prev.len() == p.len(),
        forall|i: int| 0 <= i < p.len() && p[i] != prev[i] ==> #[trigger] mask.changed().contains(i),
    ensures
        forall|i: int| 0 <= i < p.len() && above_gate(p, i) && !above_gate(prev, i) ==> #[trigger] mask.changed().contains(i),
{
}

/// Some request of `s` is for cell `i`.
pub open spec fn emits_cell(s: Seq<EmissionRequest>, i: int) -> bool {
    exists|k: int| 0 <= k < s.len() && s[k].cell_index == i
}

/// A full scan emits, within the budget, the cells of highest probability.
/// Each request is for a distinct cell above `EMIT_GATE` and carries its
/// probability.  A cell above `EMIT_GATE` is left out only when the budget
/// is full, and then every emitted request has a higher probability (in
/// `f32` order), or the same probability and a lower cell index.
pub proof fn lemma_budget_keeps_highest(p: Seq<u32>)
    requires
        p.len() <= usize::MAX,
    ensures
        within_budget(gate_candidates(p)).len() <= MAX_EMIT_PER_TICK,
        gate_output_ok(p, within_budget(gate_candidates(p))),
        forall|a: int, b: int| 0 <= a < b < within_budget(gate_candidates(p)).len() ==> within_budget(
            gate_candidates(p),
        )[a].cell_index != within_budget(gate_candidates(p))[b].cell_index,
        forall|i: int|
            0 <= i < p.len() && above_gate(p, i) && !#[trigger] emits_cell(within_budget(gate_candidates(p)), i)
                ==> within_budget(gate_candidates(p)).len() == MAX_EMIT_PER_TICK,
        forall|i: int, k: int|
            #![trigger emits_cell(within_budget(gate_candidates(p)), i), within_budget(gate_candidates(p))[k]]
            0 <= i < p.len() && above_gate(p, i) && !emits_cell(within_budget(gate_candidates(p)), i) && 0 <= k
                < within_budget(gate_candidates(p)).len() ==> (f32_bits_rank(within_budget(gate_candidates(p))[k].probability) > f32_bits_rank(p[i]) || (
            f32_bits_rank(within_budget(gate_candidates(p))[k].probability) == f32_bits_rank(p[i])
                && within_budget(gate_candidates(p))[k].cell_index < i)),
{
    let n = p.len() as int;
    let keep = |c: int| above_gate(p, c);
    let all = gate_candidates(p);
    let w = within_budget(all);
    assert(all == requests_where(p, keep, n));
    lemma_requests_where_increasing(p, keep, n);
    assert forall|m: int| 0 <= m < all.len() implies {
        &&& (#[trigger] all[m]).cell_index < p.len()
        &&& above_gate(p, all[m].cell_index as int)
        &&& all[m].probability == p[all[m].cell_index as int]
    } by {
        assert(all.contains(all[m]));
        lemma_requests_where_members(p, keep, n, all[m]);
    }
    if all.len() <= MAX_EMIT_PER_TICK {
        assert(w == all);
        assert forall|i: int| 0 <= i < p.len() && above_gate(p, i) implies #[trigger] emits_cell(w, i) by {
            lemma_requests_where_has(p, keep, n, i);
            let x = EmissionRequest { cell_index: i as usize, probability: p[i] };
            let m = choose|m: int| 0 <= m < all.len() && all[m] == x;
            assert(w[m].cell_index == i);
        }
        assert forall|i: int, k: int|
            #![trigger emits_cell(w, i), w[k]]
            0 <= i < p.len() && above_gate(p, i) && !emits_cell(w, i) && 0 <= k < w.len() implies (f32_bits_rank(w[k].probability) > f32_bits_rank(p[i]) || (f32_bits_rank(
            w[k].probability,
        ) == f32_bits_rank(p[i]) && w[k].cell_index < i)) by {
            lemma_requests_where_has(p, keep, n, i);
            let x = EmissionRequest { cell_index: i as usize, probability: p[i] };
            let m = choose|m: int| 0 <= m < all.len() && all[m] == x;
            assert(w[m].cell_index == i);
            assert(emits_cell(w, i));
        }
    } else {
        let c = ranked(all);
        lemma_stable_sort_exists(all);
        assert(stable_sorted(all, c));
        lemma_distinct_cells_distinct_keys(all);
        lemma_stable_sorted_members(all, c);
        lemma_stable_sorted_distinct(all, c);
        assert(w == c.take(MAX_EMIT_PER_TICK as int));
        assert(w.len() == MAX_EMIT_PER_TICK);
        assert forall|k: int| 0 <= k < w.len() implies {
            &&& (#[trigger] w[k]).cell_index < p.len()
            &&& above_gate(p, w[k].cell_index as int)
            &&& w[k].probability == p[w[k].cell_index as int]
        } by {
            assert(w[k] == c[k]);
            assert(c.contains(c[k]));
            let m = choose|m: int| 0 <= m < all.len() && all[m] == c[k];
            assert(all[m] == w[k]);
        }
        assert forall|a: int, b: int| 0 <= a < b < w.len() implies w[a].cell_index != w[b].cell_index by {
            assert(w[a] == c[a] && w[b] == c[b]);
            assert(c[a] != c[b]);
            assert(c.contains(c[a]) && c.contains(c[b]));
            let ma = choose|m: int| 0 <= m < all.len() && all[m] == c[a];
            let mb = choose|m: int| 0 <= m < all.len() && all[m] == c[b];
            if ma != mb {
                if ma < mb {
                    assert(all[ma].cell_index < all[mb].cell_index);
                } else {
                    assert(all[mb].cell_index < all[ma].cell_index);
                }
            }
        }
        assert forall|i: int, k: int|
            #![trigger emits_cell(w, i), w[k]]
            0 <= i < p.len() && above_gate(p, i) && !emits_cell(w, i) && 0 <= k < w.len() implies (f32_bits_rank(w[k].probability) > f32_bits_rank(p[i]) || (f32_bits_rank(
            w[k].probability,
        ) == f32_bits_rank(p[i]) && w[k].cell_index < i)) by {
            lemma_requests_where_has(p, keep, n, i);
            let x = EmissionRequest { cell_index: i as usize, probability: p[i] };
            assert(c.contains(x));
            if w.contains(x) {
                let m = choose|m: int| 0 <= m < w.len() && w[m] == x;
                assert(w[m].cell_index == i);
                assert(emits_cell(w, i));
            }
            assert(w.contains(w[k]));
            assert(w.len() == MAX_EMIT_PER_TICK);
            lemma_sorted_prefix_least(c, MAX_EMIT_PER_TICK as int, w[k], x);
            lemma_lex_key(
                -f32_bits_rank(w[k].probability),
                w[k].cell_index as int,
                -f32_bits_rank(x.probability),
                x.cell_index as int,
            );
            lemma_lex_key(
                -f32_bits_rank(x.probability),
                x.cell_index as int,
                -f32_bits_rank(w[k].probability),
                w[k].cell_index as int,
            );
            assert(w[k].cell_index != i);
        }
    }
}

} // verus!
