use vstd::prelude::*;

verus! {

/// Bit `b` of `word` is one.
pub open spec fn bit_of(word: u64, b: u64) -> bool {
    (word >> b) & 1u64 == 1u64
}

/// Cell `i` is marked in a packed mask: bit `i % 64` of word `i / 64`.
pub open spec fn packed_bit(words: Seq<u64>, i: int) -> bool {
    &&& 0 <= i < 64 * words.len()
    &&& bit_of(words[i / 64], (i % 64) as u64)
}

/// The set of indices marked in a packed mask.
pub open spec fn packed_set(words: Seq<u64>) -> Set<int> {
    Set::new(|i: int| packed_bit(words, i))
}

pub proof fn lemma_bit_or(x: u64, b: u64, j: u64)
    requires
        b < 64,
        j < 64,
    ensures
        bit_of(x | (1u64 << b), j) == (j == b || bit_of(x, j)),
{
    assert(((x | (1u64 << b)) >> j) & 1u64 == 1u64 <==> (j == b || (x >> j) & 1u64 == 1u64))
        by (bit_vector)
        requires
            b < 64,
            j < 64,
    ;
}

pub proof fn lemma_bit_and_not(x: u64, b: u64, j: u64)
    requires
        b < 64,
        j < 64,
    ensures
        bit_of(x & !(1u64 << b), j) == (j != b && bit_of(x, j)),
{
    assert(((x & !(1u64 << b)) >> j) & 1u64 == 1u64 <==> (j != b && (x >> j) & 1u64 == 1u64))
        by (bit_vector)
        requires
            b < 64,
            j < 64,
    ;
}

pub proof fn lemma_bit_test(x: u64, b: u64)
    requires
        b < 64,
    ensures
        (x & (1u64 << b) != 0) == bit_of(x, b),
{
    assert((x & (1u64 << b) != 0) == ((x >> b) & 1u64 == 1u64)) by (bit_vector)
        requires
            b < 64,
    ;
}

pub proof fn lemma_zero_bits(j: u64)
    ensures
        !bit_of(0u64, j),
{
    assert((0u64 >> j) & 1u64 != 1u64) by (bit_vector);
}

/// A mask of all-zero words marks nothing.
pub proof fn lemma_zero_words_empty(words: Seq<u64>)
    requires
        forall|w: int| 0 <= w < words.len() ==> words[w] == 0u64,
    ensures
        packed_set(words) =~= Set::<int>::empty(),
{
    assert forall|i: int| !packed_set(words).contains(i) by {
        if 0 <= i < 64 * words.len() {
            lemma_zero_bits((i % 64) as u64);
        }
    }
}

/// The marked set is finite and bounded by the mask's capacity.
pub proof fn lemma_packed_finite(words: Seq<u64>)
    ensures
        packed_set(words).finite(),
        packed_set(words).len() <= 64 * words.len(),
{
    vstd::set_lib::lemma_int_range(0, (64 * words.len()) as int);
    assert(packed_set(words).subset_of(vstd::set_lib::set_int_range(0, (64 * words.len()) as int)));
    vstd::set_lib::lemma_len_subset(
        packed_set(words),
        vstd::set_lib::set_int_range(0, (64 * words.len()) as int),
    );
}

/// Setting bit `b` of word `w` adds index `64 * w + b` to the marked set.
pub proof fn lemma_set_bit(words: Seq<u64>, w: int, b: u64)
    requires
        0 <= w < words.len(),
        b < 64,
    ensures
        packed_set(words.update(w, words[w] | (1u64 << b))) =~= packed_set(words).insert(
            64 * w + b,
        ),
{
    let nw = words.update(w, words[w] | (1u64 << b));
    assert forall|i: int| packed_set(nw).contains(i) == packed_set(words).insert(64 * w + b).contains(i) by {
        if 0 <= i < 64 * words.len() {
            let j = (i % 64) as u64;
            if i / 64 == w {
                lemma_bit_or(words[w], b, j);
            }
        }
    }
}

/// Clearing bit `b` of word `w` removes index `64 * w + b` from the marked set.
pub proof fn lemma_clear_bit(words: Seq<u64>, w: int, b: u64)
    requires
        0 <= w < words.len(),
        b < 64,
    ensures
        packed_set(words.update(w, words[w] & !(1u64 << b))) =~= packed_set(words).remove(
            64 * w + b,
        ),
{
    let nw = words.update(w, words[w] & !(1u64 << b));
    assert forall|i: int| packed_set(nw).contains(i) == packed_set(words).remove(64 * w + b).contains(i) by {
        if 0 <= i < 64 * words.len() {
            let j = (i % 64) as u64;
            if i / 64 == w {
                lemma_bit_and_not(words[w], b, j);
            }
        }
    }
}

/// Appending an all-zero word marks nothing new.
pub proof fn lemma_push_zero_word(words: Seq<u64>)
    ensures
        packed_set(words.push(0u64)) =~= packed_set(words),
{
    let nw = words.push(0u64);
    assert forall|i: int| packed_set(nw).contains(i) == packed_set(words).contains(i) by {
        if 64 * words.len() <= i < 64 * nw.len() {
            lemma_zero_bits((i % 64) as u64);
        }
    }
}

} // verus!
