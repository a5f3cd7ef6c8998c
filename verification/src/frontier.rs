//! Sparse propagation frontier: the changed cells and their 4-neighbours.
use vstd::prelude::*;
use crate::bits::{packed_set, lemma_packed_finite, lemma_zero_words_empty, lemma_bit_test, lemma_set_bit};
use crate::delta::FieldDeltaMask;

verus! {

/// Maximum cells listed in the frontier before a full-field fallback.
pub const FRONTIER_MAX_CELLS: usize = 4096;

/// The von Neumann neighbourhood of cell `c` in a `w`-wide, `h`-tall grid:
/// the cell itself and each of its row/column neighbours inside the grid.
pub open spec fn neighbourhood(c: int, w: int, h: int) -> Set<int> {
    Set::new(
        |j: int|
            j == c || (c / w > 0 && j == c - w) || (c / w + 1 < h && j == c + w) || (c % w > 0 && j
                == c - 1) || (c % w + 1 < w && j == c + 1),
    )
}

/// The frontier grown from a set of changed cells, clipped to `n` cells.
pub open spec fn frontier_set(changed: Set<int>, limit: int, w: int, h: int, n: int) -> Set<int> {
    Set::new(
        |j: int|
            0 <= j < n && exists|c: int|
                #![trigger changed.contains(c)]
                changed.contains(c) && 0 <= c < limit && neighbourhood(c, w, h).contains(j),
    )
}

/// Whether a frontier of `listed` cells over a `total`-cell field is too
/// large for sparse propagation.
///
/// The ratio test `listed / total > 0.4` is decided exactly in integers:
/// below the list cap the listed count is under 4096, so every field size
/// where the two differ lies far below single-precision resolution.
pub open spec fn fallback_rule(listed: int, total: int) -> bool {
    total != 0 && (listed >= FRONTIER_MAX_CELLS || 5 * listed > 2 * total)
}

/// Sparse propagation frontier: the set of cells that require
/// re-evaluation in the current tick.
#[derive(Debug, Clone)]
pub struct PropagationFrontier {
    /// Bit-mask: one bit per cell, 1 = cell is in the frontier.
    bits: Vec<u64>,
    /// Compact index list of frontier cells, capped at `FRONTIER_MAX_CELLS`.
    cells: Vec<usize>,
    /// Total field cell count.
    num_cells: usize,
    /// Field width (for neighbour computation).
    field_width: usize,
    /// Field height.
    field_height: usize,
}

impl PropagationFrontier {
    /// The cells in the frontier.
    pub closed spec fn members(&self) -> Set<int> {
        packed_set(self.bits@)
    }

    /// The listed frontier cells, in the order they were added.
    pub closed spec fn listed(&self) -> Seq<usize> {
        self.cells@
    }

    /// Total field cell count.
    pub closed spec fn cell_count(&self) -> nat {
        self.num_cells as nat
    }

    /// Grid dimensions used by the last build.
    pub closed spec fn dims(&self) -> (nat, nat) {
        (self.field_width as nat, self.field_height as nat)
    }

    /// The frontier's consistency: members lie inside the field, the list
    /// holds distinct members, and it holds all of them unless it is full.
    pub closed spec fn well_formed(&self) -> bool {
        &&& self.num_cells + 63 <= usize::MAX
        &&& self.bits@.len() == (self.num_cells + 63) / 64
        &&& forall|j: int| #[trigger] self.members().contains(j) ==> 0 <= j < self.num_cells
        &&& self.cells@.no_duplicates()
        &&& forall|k: int| 0 <= k < self.cells@.len() ==> self.members().contains(#[trigger] self.cells@[k] as int)
        &&& self.cells@.len() <= FRONTIER_MAX_CELLS
        &&& self.members().finite()
        &&& self.cells@.len() < FRONTIER_MAX_CELLS ==> self.cells@.len() == self.members().len()
        &&& self.cells@.len() == FRONTIER_MAX_CELLS ==> self.members().len() >= FRONTIER_MAX_CELLS
    }

    /// What well-formedness gives a caller: every member lies in the field,
    /// the list holds distinct members, at most `FRONTIER_MAX_CELLS` of
    /// them, and below that cap it holds every member exactly once.
    pub proof fn lemma_well_formed(&self)
        requires
            self.well_formed(),
        ensures
            forall|j: int| #[trigger] self.members().contains(j) ==> 0 <= j < self.cell_count(),
            self.listed().no_duplicates(),
            forall|k: int| 0 <= k < self.listed().len() ==> self.members().contains(#[trigger] self.listed()[k] as int),
            self.listed().len() <= FRONTIER_MAX_CELLS,
            self.members().finite(),
            self.listed().len() < FRONTIER_MAX_CELLS ==> self.listed().len() == self.members().len(),
            self.listed().len() < FRONTIER_MAX_CELLS ==> forall|j: int| #[trigger] self.members().contains(j)
                ==> exists|k: int| 0 <= k < self.listed().len() && self.listed()[k] as int == j,
            self.listed().len() == FRONTIER_MAX_CELLS ==> self.members().len() >= FRONTIER_MAX_CELLS,
    {
        if self.cells@.len() < FRONTIER_MAX_CELLS {
            let listed_set = Set::new(|j: int| exists|k: int| 0 <= k < self.cells@.len() && self.cells@[k] as int == j);
            let as_ints = self.cells@.map_values(|c: usize| c as int);
            assert forall|a: int, b: int| 0 <= a < b < as_ints.len() implies as_ints[a] != as_ints[b] by {
                assert(self.cells@[a] != self.cells@[b]);
            }
            assert(as_ints.no_duplicates());
            as_ints.unique_seq_to_set();
            assert(as_ints.to_set() =~= listed_set) by {
                assert forall|j: int| listed_set.contains(j) implies as_ints.to_set().contains(j) by {
                    let k = choose|k: int| 0 <= k < self.cells@.len() && self.cells@[k] as int == j;
                    assert(as_ints[k] == j);
                }
                assert forall|j: int| as_ints.to_set().contains(j) implies listed_set.contains(j) by {
                    let k = choose|k: int| 0 <= k < as_ints.len() && as_ints[k] == j;
                    assert(self.cells@[k] as int == j);
                }
            }
            assert(listed_set.subset_of(self.members()));
            vstd::set_lib::lemma_subset_equality(listed_set, self.members());
        }
    }

    /// Allocate an empty frontier for a `width × height` field.
    pub fn new(width: usize, height: usize) -> (f: Self)
        requires
            width * height + 63 <= usize::MAX,
        ensures
            f.well_formed(),
            f.members() == Set::<int>::empty(),
            f.listed() == Seq::<usize>::empty(),
            f.cell_count() == width * height,
            f.dims() == (width as nat, height as nat),
    {
        let num_cells = width * height;
        let num_words = (num_cells + 63) / 64;
        let bits: Vec<u64> = vec![0u64; num_words];
        proof {
            lemma_zero_words_empty(bits@);
        }
        Self {
            bits,
            cells: Vec::with_capacity(FRONTIER_MAX_CELLS),
            num_cells,
            field_width: width,
            field_height: height,
        }
    }

    /// Clear the frontier.
    fn clear(&mut self)
        requires
            old(self).well_formed(),
        ensures
            final(self).well_formed(),
            final(self).members() == Set::<int>::empty(),
            final(self).listed() == Seq::<usize>::empty(),
            final(self).cell_count() == old(self).cell_count(),
            final(self).dims() == old(self).dims(),
    {
        self.cells.clear();
        let n = self.bits.len();
        let mut i: usize = 0;
        while i < n
            invariant
                n == self.bits@.len(),
                i <= n,
                self.cells@.len() == 0,
                self.num_cells == old(self).num_cells,
                self.field_width == old(self).field_width,
                self.field_height == old(self).field_height,
                forall|w: int| 0 <= w < i ==> self.bits@[w] == 0u64,
            decreases n - i,
        {
            self.bits.set(i, 0u64);
            i = i + 1;
        }
        proof {
            lemma_zero_words_empty(self.bits@);
        }
    }

    /// Add cell `idx` to the frontier; indices outside the field are ignored
    /// and the list stops growing at `FRONTIER_MAX_CELLS`.
    fn set_cell(&mut self, idx: usize)
        requires
            old(self).well_formed(),
        ensures
            final(self).well_formed(),
            final(self).cell_count() == old(self).cell_count(),
            final(self).dims() == old(self).dims(),
            idx < old(self).cell_count() ==> final(self).members() == old(self).members().insert(
                idx as int,
            ),
            idx >= old(self).cell_count() ==> final(self).members() == old(self).members(),
            final(self).listed().len() >= old(self).listed().len(),
    {
        if idx >= self.num_cells {
            return;
        }
        let word = idx / 64;
        let bit = (idx % 64) as u64;
        let w = self.bits[word];
        proof {
            lemma_bit_test(w, bit);
            assert(64 * word + bit == idx);
            lemma_set_bit(self.bits@, word as int, bit);
            lemma_packed_finite(self.bits@);
        }
        if w & (1u64 << bit) == 0 {
            let ghost old_members = self.members();
            let ghost old_cells = self.cells@;
            self.bits.set(word, w | (1u64 << bit));
            proof {
                assert(!old_members.contains(idx as int));
                assert(self.members() == old_members.insert(idx as int));
                assert forall|j: int| #[trigger] self.members().contains(j) implies 0 <= j < self.num_cells by {
                    if j != idx {
                        assert(old_members.contains(j));
                    }
                }
            }
            if self.cells.len() < FRONTIER_MAX_CELLS {
                self.cells.push(idx);
                proof {
                    assert forall|k: int| 0 <= k < self.cells@.len() implies self.members().contains(
                        #[trigger] self.cells@[k] as int,
                    ) by {
                        if k < old_cells.len() {
                            assert(self.cells@[k] == old_cells[k]);
                            assert(old_members.contains(old_cells[k] as int));
                        }
                    }
                    assert forall|a: int, b: int|
                        0 <= a < self.cells@.len() && 0 <= b < self.cells@.len() && a != b implies self.cells@[a]
                        != self.cells@[b] by {
                        if a < old_cells.len() && b < old_cells.len() {
                            assert(old_cells.no_duplicates());
                        } else if a < old_cells.len() {
                            assert(old_members.contains(old_cells[a] as int));
                        } else {
                            assert(old_members.contains(old_cells[b] as int));
                        }
                    }
                }
            } else {
                proof {
                    assert forall|k: int| 0 <= k < self.cells@.len() implies self.members().contains(
                        #[trigger] self.cells@[k] as int,
                    ) by {
                        assert(old_members.contains(old_cells[k] as int));
                    }
                }
            }
        }
    }

    /// Build the frontier from a delta mask, expanding every changed cell
    /// below the mask's cell count by one 4-neighbour step.
    ///
    /// Returns `true` if the frontier is small enough for sparse propagation.
    pub fn build_from_delta(&mut self, delta: &FieldDeltaMask, width: usize, height: usize) -> (sparse: bool)
        requires
            old(self).well_formed(),
            delta.well_formed(),
            delta.cell_count() + width <= usize::MAX,
            width > 0 || forall|c: int| #[trigger] delta.changed().contains(c) ==> c >= delta.cell_count(),
        ensures
            final(self).well_formed(),
            final(self).cell_count() == old(self).cell_count(),
            final(self).dims() == (width as nat, height as nat),
            final(self).members() == frontier_set(
                delta.changed(),
                delta.cell_count() as int,
                width as int,
                height as int,
                old(self).cell_count() as int,
            ),
            sparse == !fallback_rule(final(self).listed().len() as int, final(self).cell_count() as int),
    {
        self.clear();
        self.field_width = width;
        self.field_height = height;
        let changed = delta.iter_changed();
        let ghost n = self.num_cells as int;
        let ghost lim = delta.cell_count() as int;
        let ghost ch = delta.changed();
        let mut k: usize = 0;
        while k < changed.len()
            invariant
                self.well_formed(),
                self.num_cells == n,
                self.field_width == width,
                self.field_height == height,
                k <= changed@.len(),
                delta.cell_count() + width <= usize::MAX,
                width > 0 || forall|c: int| #[trigger] ch.contains(c) ==> c >= lim,
                ch == delta.changed(),
                lim == delta.cell_count(),
                forall|i: usize| #![trigger changed@.contains(i)] changed@.contains(i) <==> (ch.contains(i as int) && i < lim),
                forall|j: int|
                    #[trigger] self.members().contains(j) <==> (0 <= j < n && exists|q: int|
                        0 <= q < k && neighbourhood(changed@[q] as int, width as int, height as int).contains(j)),
            decreases changed@.len() - k,
        {
            let idx = changed[k];
            proof {
                assert(changed@[k as int] == idx);
                assert(changed@.contains(idx));
                assert(ch.contains(idx as int) && idx < lim);
            }
            let x = idx % width;
            let y = idx / width;
            proof {
                vstd::arithmetic::div_mod::lemma_fundamental_div_mod(idx as int, width as int);
                assert(width * y >= 0) by (nonlinear_arith)
                    requires
                        width > 0,
                        y >= 0,
                ;
            }
            let ghost before = self.members();
            self.set_cell(idx);
            if y > 0 {
                proof {
                    assert(idx >= width) by (nonlinear_arith)
                        requires
                            idx == width * y + x,
                            y > 0,
                            x >= 0,
                    ;
                }
                self.set_cell(idx - width);
            }
            if y + 1 < height {
                self.set_cell(idx + width);
            }
            if x > 0 {
                self.set_cell(idx - 1);
            }
            if x + 1 < width {
                self.set_cell(idx + 1);
            }
            proof {
                let nb = neighbourhood(idx as int, width as int, height as int);
                assert forall|j: int|
                    #[trigger] self.members().contains(j) <==> (0 <= j < n && exists|q: int|
                        0 <= q < k + 1 && neighbourhood(changed@[q] as int, width as int, height as int).contains(j)) by {
                    if self.members().contains(j) {
                        if !before.contains(j) {
                            assert(nb.contains(j));
                            assert(changed@[k as int] == idx);
                        }
                    }
                    if 0 <= j < n && exists|q: int|
                        0 <= q < k + 1 && neighbourhood(changed@[q] as int, width as int, height as int).contains(j) {
                        let q = choose|q: int|
                            0 <= q < k + 1 && neighbourhood(changed@[q] as int, width as int, height as int).contains(j);
                        if q < k {
                            assert(before.contains(j));
                        } else {
                            assert(nb.contains(j));
                        }
                    }
                }
            }
            k = k + 1;
        }
        proof {
            let target = frontier_set(ch, lim, width as int, height as int, n);
            assert forall|j: int| self.members().contains(j) <==> target.contains(j) by {
                if self.members().contains(j) {
                    let q = choose|q: int|
                        0 <= q < k && neighbourhood(changed@[q] as int, width as int, height as int).contains(j);
                    assert(changed@.contains(changed@[q]));
                    assert(ch.contains(changed@[q] as int));
                }
                if target.contains(j) {
                    let c = choose|c: int|
                        #![trigger ch.contains(c)]
                        ch.contains(c) && 0 <= c < lim && neighbourhood(c, width as int, height as int).contains(j);
                    assert(changed@.contains(c as usize));
                    let q = choose|q: int| 0 <= q < changed@.len() && changed@[q] == c as usize;
                    assert(neighbourhood(changed@[q] as int, width as int, height as int).contains(j));
                }
            }
            assert(self.members() =~= target);
        }
        !self.should_fallback_to_full()
    }

    /// True if the frontier is small enough to benefit from sparse propagation.
    pub fn should_use_sparse(&self) -> (r: bool)
        ensures
            r == !fallback_rule(self.listed().len() as int, self.cell_count() as int),
    {
        !self.should_fallback_to_full()
    }

    /// True if the frontier list is full or covers more than 40% of the field.
    pub fn should_fallback_to_full(&self) -> (r: bool)
        ensures
            r == fallback_rule(self.listed().len() as int, self.cell_count() as int),
    {
        if self.num_cells == 0 {
            return false;
        }
        let len = self.cells.len();
        if len >= FRONTIER_MAX_CELLS {
            return true;
        }
        5 * (len as u128) > 2 * (self.num_cells as u128)
    }

    /// The listed frontier cells.
    pub fn iter_cells(&self) -> (cells: &[usize])
        ensures
            cells@ == self.listed(),
    {
        self.cells.as_slice()
    }

    /// Number of listed cells in the frontier.
    pub fn frontier_size(&self) -> (n: usize)
        ensures
            n == self.listed().len(),
    {
        self.cells.len()
    }

    /// Total field cell count.
    pub fn num_cells(&self) -> (n: usize)
        ensures
            n == self.cell_count(),
    {
        self.num_cells
    }

    /// True if the frontier is empty (no propagation needed this tick).
    pub fn is_empty(&self) -> (r: bool)
        requires
            self.well_formed(),
        ensures
            r == (self.listed().len() == 0),
            r == (self.members() == Set::<int>::empty()),
    {
        proof {
            vstd::set_lib::lemma_set_empty_equivalency_len(self.members());
        }
        self.cells.len() == 0
    }

    /// Check if a cell index is present in the frontier.
    pub fn contains(&self, idx: usize) -> (r: bool)
        requires
            self.well_formed(),
        ensures
            r == self.members().contains(idx as int),
    {
        if idx >= self.num_cells {
            return false;
        }
        let word = idx / 64;
        let bit = (idx % 64) as u64;
        proof {
            lemma_bit_test(self.bits@[word as int], bit);
        }
        (self.bits[word] & (1u64 << bit)) != 0
    }
}

/// Cells `i` and `c` of a `w`-wide grid are one cell, or share a row or a
/// column and lie one step apart along it.
pub open spec fn grid_adjacent(i: int, c: int, w: int) -> bool {
    ||| i == c
    ||| (i / w == c / w && (i % w - c % w == 1 || c % w - i % w == 1))
    ||| (i % w == c % w && (i / w - c / w == 1 || c / w - i / w == 1))
}

/// Inside a `w × h` grid, the neighbourhood of a cell holds exactly the
/// cells adjacent to it by row and column.
proof fn lemma_neighbourhood_adjacent(c: int, j: int, w: int, h: int)
    requires
        w > 0,
        0 <= c < w * h,
        0 <= j < w * h,
    ensures
        neighbourhood(c, w, h).contains(j) == grid_adjacent(j, c, w),
{
    let qc = c / w;
    let rc = c % w;
    let qj = j / w;
    let rj = j % w;
    vstd::arithmetic::div_mod::lemma_fundamental_div_mod(c, w);
    vstd::arithmetic::div_mod::lemma_fundamental_div_mod(j, w);
    vstd::arithmetic::div_mod::lemma_mod_bound(c, w);
    vstd::arithmetic::div_mod::lemma_mod_bound(j, w);
    assert(0 <= qc < h && 0 <= qj < h) by (nonlinear_arith)
        requires
            w > 0,
            c == w * qc + rc,
            j == w * qj + rj,
            0 <= rc < w,
            0 <= rj < w,
            0 <= c < w * h,
            0 <= j < w * h,
    ;
    assert(w * (qc - 1) == w * qc - w && w * (qc + 1) == w * qc + w) by (nonlinear_arith);
    if qc > 0 && j == c - w {
        vstd::arithmetic::div_mod::lemma_fundamental_div_mod_converse(j, w, qc - 1, rc);
    }
    if qc + 1 < h && j == c + w {
        vstd::arithmetic::div_mod::lemma_fundamental_div_mod_converse(j, w, qc + 1, rc);
    }
    if rc > 0 && j == c - 1 {
        vstd::arithmetic::div_mod::lemma_fundamental_div_mod_converse(j, w, qc, rc - 1);
    }
    if rc + 1 < w && j == c + 1 {
        vstd::arithmetic::div_mod::lemma_fundamental_div_mod_converse(j, w, qc, rc + 1);
    }
    if grid_adjacent(j, c, w) && j != c {
        if qj == qc {
            assert(j - c == rj - rc);
        } else {
            assert(rj == rc);
            if qj == qc + 1 {
                assert(w * qj == w * qc + w);
            } else {
                assert(qj == qc - 1);
                assert(w * qj == w * qc - w);
            }
        }
    }
}

/// Built from a change mask over all of a `w × h` field (`w > 0`), the
/// frontier holds exactly the cells of the field that are changed, or one
/// row or one column step from a changed cell.  Below the list cap, the
/// listed cells are the frontier's cells, each once.
pub proof fn lemma_frontier_row_column(f: PropagationFrontier, delta: FieldDeltaMask, w: int, h: int)
    requires
        f.well_formed(),
        w > 0,
        h >= 0,
        f.cell_count() == w * h,
        delta.cell_count() == w * h,
        f.members() == frontier_set(delta.changed(), delta.cell_count() as int, w, h, f.cell_count() as int),
    ensures
        forall|i: int| #[trigger] f.members().contains(i) <==> (0 <= i < w * h && exists|c: int|
            #![trigger delta.changed().contains(c)]
            delta.changed().contains(c) && 0 <= c < w * h && grid_adjacent(i, c, w)),
        f.listed().len() < FRONTIER_MAX_CELLS ==> f.listed().no_duplicates() && forall|i: int| #[trigger] f.members().contains(i)
            <==> exists|k: int| 0 <= k < f.listed().len() && f.listed()[k] as int == i,
{
    f.lemma_well_formed();
    let ch = delta.changed();
    assert forall|i: int| #[trigger] f.members().contains(i) <==> (0 <= i < w * h && exists|c: int|
        #![trigger ch.contains(c)]
        ch.contains(c) && 0 <= c < w * h && grid_adjacent(i, c, w)) by {
        if f.members().contains(i) {
            let c = choose|c: int| #![trigger ch.contains(c)] ch.contains(c) && 0 <= c < w * h && neighbourhood(c, w, h).contains(i);
            lemma_neighbourhood_adjacent(c, i, w, h);
        }
        if 0 <= i < w * h && exists|c: int| #![trigger ch.contains(c)] ch.contains(c) && 0 <= c < w * h && grid_adjacent(i, c, w) {
            let c = choose|c: int| #![trigger ch.contains(c)] ch.contains(c) && 0 <= c < w * h && grid_adjacent(i, c, w);
            lemma_neighbourhood_adjacent(c, i, w, h);
        }
    }
}

/// Sparse propagation is only recommended over a complete list.  On a
/// non-empty field, a frontier whose list is full (so that members may be
/// missing from it) or that lists more than 40% of the cells falls back to
/// full propagation; and whenever it does not fall back, its list holds
/// every member of the frontier, each once.
pub proof fn lemma_sparse_only_over_complete_list(f: PropagationFrontier)
    requires
        f.well_formed(),
    ensures
        f.cell_count() > 0 && f.listed().len() >= FRONTIER_MAX_CELLS ==> fallback_rule(
            f.listed().len() as int,
            f.cell_count() as int,
        ),
        f.cell_count() > 0 && 5 * f.listed().len() > 2 * f.cell_count() ==> fallback_rule(
            f.listed().len() as int,
            f.cell_count() as int,
        ),
        !fallback_rule(f.listed().len() as int, f.cell_count() as int) ==> {
            &&& f.listed().len() < FRONTIER_MAX_CELLS
            &&& f.listed().no_duplicates()
            &&& forall|j: int| #[trigger] f.members().contains(j) <==> exists|k: int|
                0 <= k < f.listed().len() && f.listed()[k] as int == j
        },
{
    f.lemma_well_formed();
    if !fallback_rule(f.listed().len() as int, f.cell_count() as int) && f.cell_count() == 0 {
        assert forall|j: int| #[trigger] f.members().contains(j) <==> exists|k: int|
            0 <= k < f.listed().len() && f.listed()[k] as int == j by {
            if exists|k: int| 0 <= k < f.listed().len() && f.listed()[k] as int == j {
                let k = choose|k: int| 0 <= k < f.listed().len() && f.listed()[k] as int == j;
                assert(f.members().contains(f.listed()[k] as int));
            }
        }
        assert(f.listed().len() == 0) by {
            if f.listed().len() > 0 {
                assert(f.members().contains(f.listed()[0] as int));
            }
        }
    }
}

} // verus!
