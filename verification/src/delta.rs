//! Per-cell change classification and the bit-packed change mask.
use vstd::prelude::*;
use crate::emission::{f32_bits_greater, f32_bits_gt};
use crate::bits::{packed_set, lemma_packed_finite, lemma_zero_words_empty, lemma_bit_test, lemma_set_bit, lemma_zero_bits};

verus! {

/// Edge flags of the emission threshold of a move from `prev` to `now` (see
/// `CellChangeFlags::gate_edge`).
pub open spec fn gate_edge_bits(prev: u32, now: u32, gate: u32) -> u8 {
    let was_above = f32_bits_gt(prev, gate);
    let now_above = f32_bits_gt(now, gate);
    if !was_above && now_above {
        CellChangeFlags::EMISSION_GATE_RISEN
    } else if was_above && !now_above {
        CellChangeFlags::EMISSION_GATE_FALLEN
    } else {
        0
    }
}

/// Bit-field: which components of a cell changed since last frame.
///
/// Multiple flags may be set simultaneously.  Zero means the cell is stable.
#[derive(Debug, Clone, Copy, PartialEq, Eq, Default)]
pub struct CellChangeFlags(pub u8);

impl CellChangeFlags {
    /// Cell activation value changed beyond its epsilon.
    pub const ACTIVATION_CHANGED: u8 = 0b0000_0001;
    /// Cell pressure changed beyond its epsilon.
    pub const PRESSURE_CHANGED: u8 = 0b0000_0010;
    /// Cell execution probability changed beyond its epsilon.
    pub const PROBABILITY_CHANGED: u8 = 0b0000_0100;
    /// Cell crossed the emission gate threshold (rising edge).
    pub const EMISSION_GATE_RISEN: u8 = 0b0000_1000;
    /// Cell fell below the emission gate threshold (falling edge).
    pub const EMISSION_GATE_FALLEN: u8 = 0b0001_0000;

    /// The emission-gate edge flags of a cell whose probability (an `f32`
    /// bit pattern) went from `prev_probability` to `probability`: risen
    /// when it was not above `emit_gate` and now is, fallen when it was and
    /// no longer is, none otherwise.
    pub fn gate_edge(prev_probability: u32, probability: u32, emit_gate: u32) -> (f: u8)
        ensures
            f == gate_edge_bits(prev_probability, probability, emit_gate),
    {
        let was_eligible = f32_bits_greater(prev_probability, emit_gate);
        let now_eligible = f32_bits_greater(probability, emit_gate);
        if !was_eligible && now_eligible {
            Self::EMISSION_GATE_RISEN
        } else if was_eligible && !now_eligible {
            Self::EMISSION_GATE_FALLEN
        } else {
            0
        }
    }

    /// True if any change flag is set.
    pub fn is_changed(self) -> (r: bool)
        ensures
            r == (self.0 != 0),
    {
        self.0 != 0
    }

    /// True if the activation component changed.
    pub fn activation_changed(self) -> (r: bool)
        ensures
            r == (self.0 & Self::ACTIVATION_CHANGED != 0),
    {
        self.0 & Self::ACTIVATION_CHANGED != 0
    }

    /// True if the probability component changed.
    pub fn probability_changed(self) -> (r: bool)
        ensures
            r == (self.0 & Self::PROBABILITY_CHANGED != 0),
    {
        self.0 & Self::PROBABILITY_CHANGED != 0
    }

    /// True if the pressure component changed.
    pub fn pressure_changed(self) -> (r: bool)
        ensures
            r == (self.0 & Self::PRESSURE_CHANGED != 0),
    {
        self.0 & Self::PRESSURE_CHANGED != 0
    }

    /// True if this cell newly became emission-eligible this frame.
    pub fn emission_gate_risen(self) -> (r: bool)
        ensures
            r == (self.0 & Self::EMISSION_GATE_RISEN != 0),
    {
        self.0 & Self::EMISSION_GATE_RISEN != 0
    }

    /// True if this cell was emission-eligible last frame but is not now.
    pub fn emission_gate_fallen(self) -> (r: bool)
        ensures
            r == (self.0 & Self::EMISSION_GATE_FALLEN != 0),
    {
        self.0 & Self::EMISSION_GATE_FALLEN != 0
    }
}

/// Bit-packed mask: one bit per cell indicating whether that cell changed.
///
/// Cell `i` lives in word `i / 64`, bit `i % 64`.
pub struct FieldDeltaMask {
    /// Packed bits: bit `i % 64` of word `i / 64` is 1 if cell `i` changed.
    words: Vec<u64>,
    /// Total number of cells covered.
    num_cells: usize,
    /// Total number of cells marked changed in this frame.
    pub changed_count: usize,
}

impl FieldDeltaMask {
    /// The set of marked cell indices.
    pub closed spec fn changed(&self) -> Set<int> {
        packed_set(self.words@)
    }

    /// The recorded number of changed cells.
    pub closed spec fn count(&self) -> usize {
        self.changed_count
    }

    /// Number of 64-cell words in the mask.
    pub closed spec fn word_count(&self) -> nat {
        self.words@.len()
    }

    /// Number of cells the mask was created for.
    pub closed spec fn cell_count(&self) -> nat {
        self.num_cells as nat
    }

    /// The mask's internal consistency: the word count covers the cells and
    /// `changed_count` is the number of marked cells.
    pub closed spec fn well_formed(&self) -> bool {
        &&& self.num_cells + 63 <= usize::MAX
        &&& self.words@.len() == (self.num_cells + 63) / 64
        &&& self.changed_count == self.changed().len()
    }

    /// The recorded number of changed cells (the `changed_count` field).
    pub fn changed_count(&self) -> (n: usize)
        ensures
            n == self.count(),
    {
        self.changed_count
    }

    pub proof fn lemma_well_formed(&self)
        requires
            self.well_formed(),
        ensures
            self.changed().finite(),
            self.count() == self.changed().len(),
            self.word_count() == (self.cell_count() + 63) / 64,
            forall|i: int| #[trigger] self.changed().contains(i) ==> 0 <= i < 64 * self.word_count(),
    {
        lemma_packed_finite(self.words@);
    }

    /// Allocate a zeroed mask for `num_cells` cells.
    pub fn new(num_cells: usize) -> (m: Self)
        requires
            num_cells + 63 <= usize::MAX,
        ensures
            m.well_formed(),
            m.changed() == Set::<int>::empty(),
            m.cell_count() == num_cells,
            m.word_count() == (num_cells + 63) / 64,
            m.count() == 0,
    {
        let num_words = (num_cells + 63) / 64;
        let words: Vec<u64> = vec![0u64; num_words];
        proof {
            lemma_zero_words_empty(words@);
        }
        Self { words, num_cells, changed_count: 0 }
    }

    /// Number of cells the mask covers.
    pub fn num_cells(&self) -> (n: usize)
        ensures
            n == self.cell_count(),
    {
        self.num_cells
    }

    /// Set the bit of `idx`, counting it if it was clear.
    fn set_bit(&mut self, word: usize, bit: u64)
        requires
            old(self).well_formed(),
            word < old(self).word_count(),
            bit < 64,
        ensures
            final(self).well_formed(),
            final(self).changed() == old(self).changed().insert(64 * word + bit),
            final(self).cell_count() == old(self).cell_count(),
            final(self).word_count() == old(self).word_count(),
    {
        let mask = 1u64 << bit;
        let w = self.words[word];
        proof {
            lemma_bit_test(w, bit);
            lemma_set_bit(self.words@, word as int, bit);
            lemma_packed_finite(self.words@);
            lemma_packed_finite(self.words@.update(word as int, w | mask));
            assert(((64 * word + bit) as int) / 64 == word);
            assert(((64 * word + bit) as int) % 64 == bit);
        }
        if (w & mask) == 0 {
            proof {
                assert(!self.changed().contains(64 * word + bit));
            }
            self.words.set(word, w | mask);
            self.changed_count = self.changed_count + 1;
        } else {
            proof {
                assert(self.changed().contains(64 * word + bit));
                assert(self.changed().insert(64 * word + bit) =~= self.changed());
            }
            self.words.set(word, w | mask);
        }
    }

    /// Mark a cell as changed; indices beyond the mask's words are ignored.
    pub fn mark_changed(&mut self, index: usize)
        requires
            old(self).well_formed(),
        ensures
            final(self).well_formed(),
            final(self).cell_count() == old(self).cell_count(),
            final(self).word_count() == old(self).word_count(),
            index / 64 < old(self).word_count() ==> final(self).changed() == old(self).changed().insert(
                index as int,
            ),
            index / 64 >= old(self).word_count() ==> final(self).changed() == old(self).changed()
                && final(self).count() == old(self).count(),
    {
        let word = index / 64;
        if word >= self.words.len() {
            return;
        }
        let bit = (index % 64) as u64;
        self.set_bit(word, bit);
    }

    /// Mark a cell as changed; indices beyond the mask's words are ignored.
    pub fn mark(&mut self, idx: usize)
        requires
            old(self).well_formed(),
        ensures
            final(self).well_formed(),
            final(self).cell_count() == old(self).cell_count(),
            final(self).word_count() == old(self).word_count(),
            idx / 64 < old(self).word_count() ==> final(self).changed() == old(self).changed().insert(
                idx as int,
            ),
            idx / 64 >= old(self).word_count() ==> final(self).changed() == old(self).changed()
                && final(self).count() == old(self).count(),
    {
        let word = idx / 64;
        let bit = (idx % 64) as u64;
        if word >= self.words.len() {
            return;
        }
        self.set_bit(word, bit);
    }

    /// Clear all bits (start of frame reset).
    pub fn clear(&mut self)
        requires
            old(self).well_formed(),
        ensures
            final(self).well_formed(),
            final(self).changed() == Set::<int>::empty(),
            final(self).count() == 0,
            final(self).cell_count() == old(self).cell_count(),
            final(self).word_count() == old(self).word_count(),
    {
        self.changed_count = 0;
        let n = self.words.len();
        let mut i: usize = 0;
        while i < n
            invariant
                n == self.words@.len(),
                i <= n,
                self.changed_count == 0,
                self.num_cells == old(self).num_cells,
                forall|w: int| 0 <= w < i ==> self.words@[w] == 0u64,
            decreases n - i,
        {
            self.words.set(i, 0u64);
            i = i + 1;
        }
        proof {
            lemma_zero_words_empty(self.words@);
        }
    }

    /// Mark cell `idx` as changed.
    pub fn set(&mut self, idx: usize)
        requires
            old(self).well_formed(),
            idx / 64 < old(self).word_count(),
        ensures
            final(self).well_formed(),
            final(self).changed() == old(self).changed().insert(idx as int),
            final(self).cell_count() == old(self).cell_count(),
            final(self).word_count() == old(self).word_count(),
    {
        let word = idx / 64;
        let bit = (idx % 64) as u64;
        self.set_bit(word, bit);
    }

    /// Returns true if cell `idx` changed this frame.
    pub fn is_changed(&self, idx: usize) -> (r: bool)
        requires
            idx / 64 < self.word_count(),
        ensures
            r == self.changed().contains(idx as int),
    {
        let word = idx / 64;
        let bit = (idx % 64) as u64;
        proof {
            lemma_bit_test(self.words@[word as int], bit);
        }
        self.words[word] & (1u64 << bit) != 0
    }

    /// Returns true if no cell changed this frame.
    pub fn is_empty(&self) -> (r: bool)
        requires
            self.well_formed(),
        ensures
            r == (self.changed() == Set::<int>::empty()),
            r == (self.count() == 0),
    {
        proof {
            lemma_packed_finite(self.words@);
            vstd::set_lib::lemma_set_empty_equivalency_len(self.changed());
        }
        self.changed_count == 0
    }

    /// The indices of all changed cells below the cell count, in ascending order.
    pub fn iter_changed(&self) -> (cells: Vec<usize>)
        requires
            self.well_formed(),
        ensures
            forall|a: int, b: int| 0 <= a < b < cells@.len() ==> cells@[a] < cells@[b],
            forall|i: usize|
                #![trigger cells@.contains(i)]
                #![trigger self.changed().contains(i as int)]
                cells@.contains(i) <==> (self.changed().contains(i as int) && i < self.cell_count()),
    {
        let mut cells: Vec<usize> = Vec::new();
        let n = self.words.len();
        let mut w: usize = 0;
        while w < n
            invariant
                self.well_formed(),
                n == self.words@.len(),
                w <= n,
                forall|a: int, b: int| 0 <= a < b < cells@.len() ==> cells@[a] < cells@[b],
                forall|a: int| 0 <= a < cells@.len() ==> cells@[a] < 64 * w,
                forall|i: usize|
                    cells@.contains(i) <==> (self.changed().contains(i as int) && i
                        < self.cell_count() && i < 64 * w),
            decreases n - w,
        {
            let word = self.words[w];
            if word != 0 {
                let mut b: u64 = 0;
                while b < 64
                    invariant
                        self.well_formed(),
                        n == self.words@.len(),
                        w < n,
                        word == self.words@[w as int],
                        b <= 64,
                        forall|a: int, c: int| 0 <= a < c < cells@.len() ==> cells@[a] < cells@[c],
                        forall|a: int| 0 <= a < cells@.len() ==> cells@[a] < 64 * w + b,
                        forall|i: usize|
                            cells@.contains(i) <==> (self.changed().contains(i as int) && i
                                < self.cell_count() && i < 64 * w + b),
                    decreases 64 - b,
                {
                    proof {
                        assert(64 * w + b < 64 * n);
                        assert(64 * n <= self.num_cells + 63);
                    }
                    let idx = w * 64 + (b as usize);
                    proof {
                        lemma_bit_test(word, b);
                        assert((idx as int) / 64 == w);
                        assert((idx as int) % 64 == b);
                    }
                    if (word & (1u64 << b)) != 0 && idx < self.num_cells {
                        let ghost old_cells = cells@;
                        cells.push(idx);
                        proof {
                            assert forall|i: usize|
                                cells@.contains(i) <==> (self.changed().contains(i as int) && i
                                    < self.cell_count() && i < 64 * w + b + 1) by {
                                if cells@.contains(i) && i != idx {
                                    let k = choose|k: int| 0 <= k < cells@.len() && cells@[k] == i;
                                    assert(old_cells[k] == i);
                                    assert(old_cells.contains(i));
                                }
                                if self.changed().contains(i as int) && i < self.cell_count() && i
                                    < 64 * w + b + 1 {
                                    if i != idx {
                                        assert(old_cells.contains(i));
                                        let k = choose|k: int| 0 <= k < old_cells.len() && old_cells[k] == i;
                                        assert(cells@[k] == i);
                                    } else {
                                        assert(cells@[cells@.len() - 1] == idx);
                                    }
                                }
                            }
                        }
                    } else {
                        proof {
                            assert forall|i: usize|
                                cells@.contains(i) <==> (self.changed().contains(i as int) && i
                                    < self.cell_count() && i < 64 * w + b + 1) by {
                                if cells@.contains(i) {
                                    let k = choose|k: int| 0 <= k < cells@.len() && cells@[k] == i;
                                    assert(cells@[k] < 64 * w + b);
                                }
                            }
                        }
                    }
                    b = b + 1;
                }
            } else {
                proof {
                    assert forall|i: usize|
                        cells@.contains(i) <==> (self.changed().contains(i as int) && i
                            < self.cell_count() && i < 64 * (w + 1)) by {
                        if self.changed().contains(i as int) && 64 * w <= i < 64 * (w + 1) {
                            assert((i as int) / 64 == w);
                            lemma_zero_bits((i % 64) as u64);
                        }
                        if cells@.contains(i) {
                            let k = choose|k: int| 0 <= k < cells@.len() && cells@[k] == i;
                            assert(cells@[k] < 64 * w);
                        }
                    }
                }
            }
            w = w + 1;
        }
        proof {
            lemma_packed_finite(self.words@);
        }
        cells
    }
}

/// The edge flags of a move record exactly the crossings of the threshold
/// `gate`: the rising flag when the value was not above `gate` and now is,
/// the falling flag when it was and no longer is, and no other flag.
pub proof fn lemma_gate_edge_crossings(prev: u32, now: u32, gate: u32)
    ensures
        (gate_edge_bits(prev, now, gate) & CellChangeFlags::EMISSION_GATE_RISEN != 0) == (!f32_bits_gt(prev, gate)
            && f32_bits_gt(now, gate)),
        (gate_edge_bits(prev, now, gate) & CellChangeFlags::EMISSION_GATE_FALLEN != 0) == (f32_bits_gt(prev, gate)
            && !f32_bits_gt(now, gate)),
        gate_edge_bits(prev, now, gate) & !(CellChangeFlags::EMISSION_GATE_RISEN | CellChangeFlags::EMISSION_GATE_FALLEN)
            == 0,
{
    assert((0u8 & 0x08u8) == 0u8 && (0u8 & 0x10u8) == 0u8 && (0u8 & !(0x08u8 | 0x10u8)) == 0u8) by (bit_vector);
    assert((0x08u8 & 0x08u8) != 0u8 && (0x08u8 & 0x10u8) == 0u8 && (0x08u8 & !(0x08u8 | 0x10u8)) == 0u8) by (bit_vector);
    assert((0x10u8 & 0x08u8) == 0u8 && (0x10u8 & 0x10u8) != 0u8 && (0x10u8 & !(0x08u8 | 0x10u8)) == 0u8) by (bit_vector);
}

} // verus!
