//! Canonical ordering of descriptor sequences: a verified stable sort by key.
use vstd::prelude::*;

verus! {

/// A descriptor with a canonical sort key.
///
/// `key_less` decides the order that the key gives, so that sorting by
/// `key_less` sorts by the key.
pub trait CanonicalKey {
    /// The descriptor's position in the canonical order.
    spec fn canonical_key(&self) -> int;

    /// Whether `self` sorts strictly before `other`.
    fn key_less(&self, other: &Self) -> (r: bool)
        ensures
            r == (self.canonical_key() < other.canonical_key()),
    ;
}

/// `s` is in non-decreasing key order.
pub open spec fn key_sorted<T: CanonicalKey>(s: Seq<T>) -> bool {
    forall|i: int, j: int| 0 <= i < j < s.len() ==> s[i].canonical_key() <= s[j].canonical_key()
}

/// The predicate "has key `k`".
pub open spec fn key_is<T: CanonicalKey>(k: int) -> spec_fn(T) -> bool {
    |x: T| x.canonical_key() == k
}

/// The elements of `s` whose key is `k`, in their order in `s`.
pub open spec fn with_key<T: CanonicalKey>(s: Seq<T>, k: int) -> Seq<T> {
    s.filter(key_is::<T>(k))
}

/// `b` holds, for every key, the same elements in the same order as `a`.
pub open spec fn same_key_order<T: CanonicalKey>(a: Seq<T>, b: Seq<T>) -> bool {
    forall|k: int| #[trigger] with_key(a, k) == with_key(b, k)
}

/// `b` is the stable sort of `a` by key: sorted, and for each key the
/// elements keep their relative order.  This determines `b` from `a`.
pub open spec fn stable_sorted<T: CanonicalKey>(a: Seq<T>, b: Seq<T>) -> bool {
    key_sorted(b) && same_key_order(a, b)
}

proof fn lemma_filter_none<T: CanonicalKey>(s: Seq<T>, k: int)
    requires
        forall|i: int| 0 <= i < s.len() ==> s[i].canonical_key() != k,
    ensures
        with_key(s, k) == Seq::<T>::empty(),
    decreases s.len(),
{
    reveal(Seq::filter);
    if s.len() > 0 {
        lemma_filter_none(s.drop_last(), k);
    }
}

proof fn lemma_filter_single<T: CanonicalKey>(x: T, k: int)
    ensures
        with_key(seq![x], k) == (if x.canonical_key() == k { seq![x] } else { Seq::<T>::empty() }),
{
    let e = Seq::<T>::empty();
    e.lemma_filter_push(x, key_is::<T>(k));
    assert(e.push(x) =~= seq![x]);
    reveal(Seq::filter);
    assert(with_key(e, k) =~= e);
    assert(with_key(seq![x], k) == with_key(e.push(x), k));
    assert(with_key(e.push(x), k) == (if x.canonical_key() == k { with_key(e, k).push(x) } else { with_key(e, k) }));
    if x.canonical_key() == k {
        assert(with_key(e, k).push(x) =~= seq![x]);
    }
}

/// Sort `v` by key, stably.
pub fn stable_sort_by_key<T: CanonicalKey>(v: &mut Vec<T>)
    ensures
        stable_sorted(old(v)@, final(v)@),
        final(v)@.len() == old(v)@.len(),
        final(v)@.to_multiset() == old(v)@.to_multiset(),
{
    let ghost orig = v@;
    let n = v.len();
    let mut out: Vec<T> = Vec::new();
    let mut i: usize = 0;
    proof {
        assert(orig.take(0) =~= out@);
    }
    while i < n
        invariant
            n == orig.len(),
            v@ == orig.skip(i as int),
            i <= n,
            out@.len() == i,
            key_sorted(out@),
            forall|k: int| #[trigger] with_key(out@, k) == with_key(orig.take(i as int), k),
            out@.to_multiset() == orig.take(i as int).to_multiset(),
        decreases n - i,
    {
        let x = v.remove(0);
        assert(x == orig[i as int]);
        let mut pos = out.len();
        while pos > 0 && x.key_less(&out[pos - 1])
            invariant
                pos <= out@.len(),
                key_sorted(out@),
                forall|j: int| pos <= j < out@.len() ==> x.canonical_key() < out@[j].canonical_key(),
            decreases pos,
        {
            pos = pos - 1;
        }
        let ghost before = out@;
        proof {
            assert forall|j: int| 0 <= j < pos implies before[j].canonical_key() <= x.canonical_key() by {
                if pos > 0 {
                    assert(before[j].canonical_key() <= before[pos - 1].canonical_key());
                }
            }
        }
        out.insert(pos, x);
        proof {
            let a = before.take(pos as int);
            let b = before.skip(pos as int);
            assert(out@ =~= a + seq![x] + b);
            assert(before =~= a + b);
            let sx = Seq::<T>::empty().push(x);
            assert(seq![x] =~= sx);
            vstd::seq_lib::lemma_multiset_commutative(a + sx, b);
            vstd::seq_lib::lemma_multiset_commutative(a, sx);
            vstd::seq_lib::lemma_multiset_commutative(a, b);
            vstd::seq_lib::to_multiset_len(Seq::<T>::empty());
            vstd::multiset::lemma_multiset_empty_len(Seq::<T>::empty().to_multiset());
            vstd::seq_lib::to_multiset_build(Seq::<T>::empty(), x);
            vstd::seq_lib::to_multiset_build(orig.take(i as int), x);
            assert(out@.to_multiset() =~= before.to_multiset().insert(x)) by {
                broadcast use vstd::multiset::group_multiset_axioms;
            }
            assert(orig.take(i + 1) =~= orig.take(i as int).push(x));
            assert forall|k: int| #[trigger] with_key(out@, k) == with_key(orig.take(i + 1), k) by {
                Seq::filter_distributes_over_add(a + seq![x], b, key_is::<T>(k));
                Seq::filter_distributes_over_add(a, seq![x], key_is::<T>(k));
                Seq::filter_distributes_over_add(a, b, key_is::<T>(k));
                orig.take(i as int).lemma_filter_push(x, key_is::<T>(k));
                lemma_filter_single(x, k);
                assert(with_key(before, k) == with_key(orig.take(i as int), k));
                if x.canonical_key() == k {
                    assert forall|j: int| 0 <= j < b.len() implies b[j].canonical_key() != k by {
                        assert(b[j] == before[pos + j]);
                    }
                    lemma_filter_none(b, k);
                    assert(with_key(a, k) + seq![x] =~= with_key(a, k).push(x));
                    assert(with_key(a, k) + Seq::<T>::empty() =~= with_key(a, k));
                } else {
                    assert(with_key(a, k) + Seq::<T>::empty() =~= with_key(a, k));
                }
            }
            assert forall|p: int, q: int| 0 <= p < q < out@.len() implies out@[p].canonical_key()
                <= out@[q].canonical_key() by {
                if q < pos {
                    assert(out@[p] == before[p] && out@[q] == before[q]);
                } else if q == pos {
                    assert(out@[p] == before[p]);
                } else if p < pos {
                    assert(out@[p] == before[p] && out@[q] == before[q - 1]);
                } else if p == pos {
                    assert(out@[q] == before[q - 1]);
                } else {
                    assert(out@[p] == before[p - 1] && out@[q] == before[q - 1]);
                }
            }
        }
        assert(v@ =~= orig.skip(i + 1));
        i = i + 1;
    }
    proof {
        assert(orig.take(n as int) =~= orig);
    }
    *v = out;
}

/// Sorting is idempotent: a sequence that is already the stable sort of
/// another is its own stable sort, and stable sorts of the same input agree.
pub proof fn lemma_stable_sort_unique<T: CanonicalKey>(a: Seq<T>, b: Seq<T>, c: Seq<T>)
    requires
        stable_sorted(a, b),
        stable_sorted(a, c),
    ensures
        b == c,
        stable_sorted(b, b),
{
    assert forall|k: int| #[trigger] with_key(b, k) == with_key(c, k) by {
        assert(with_key(a, k) == with_key(b, k));
        assert(with_key(a, k) == with_key(c, k));
    }
    lemma_sorted_determined(b, c);
}

proof fn lemma_sorted_determined<T: CanonicalKey>(b: Seq<T>, c: Seq<T>)
    requires
        key_sorted(b),
        key_sorted(c),
        same_key_order(b, c),
    ensures
        b == c,
    decreases b.len() + c.len(),
{
    reveal(Seq::filter);
    if b.len() == 0 || c.len() == 0 {
        if b.len() > 0 {
            let k = b.last().canonical_key();
            b.drop_last().lemma_filter_push(b.last(), key_is::<T>(k));
            assert(b.drop_last().push(b.last()) =~= b);
            assert(with_key(b, k).len() > 0);
            assert(with_key(c, k) =~= Seq::<T>::empty());
        }
        if c.len() > 0 {
            let k = c.last().canonical_key();
            c.drop_last().lemma_filter_push(c.last(), key_is::<T>(k));
            assert(c.drop_last().push(c.last()) =~= c);
            assert(with_key(c, k).len() > 0);
            assert(with_key(b, k) =~= Seq::<T>::empty());
        }
        assert(b =~= c);
    } else {
        let kb = b.last().canonical_key();
        let kc = c.last().canonical_key();
        assert(b.drop_last().push(b.last()) =~= b);
        assert(c.drop_last().push(c.last()) =~= c);
        // The largest key of each is the same.
        if kb < kc {
            c.drop_last().lemma_filter_push(c.last(), key_is::<T>(kc));
            assert forall|j: int| 0 <= j < b.len() implies b[j].canonical_key() != kc by {
                assert(b[j].canonical_key() <= kb);
            }
            lemma_filter_none(b, kc);
            assert(with_key(b, kc) == with_key(c, kc));
            assert(false);
        }
        if kc < kb {
            b.drop_last().lemma_filter_push(b.last(), key_is::<T>(kb));
            assert forall|j: int| 0 <= j < c.len() implies c[j].canonical_key() != kb by {
                assert(c[j].canonical_key() <= kc);
            }
            lemma_filter_none(c, kb);
            assert(with_key(b, kb) == with_key(c, kb));
            assert(false);
        }
        let k = kb;
        b.drop_last().lemma_filter_push(b.last(), key_is::<T>(k));
        c.drop_last().lemma_filter_push(c.last(), key_is::<T>(k));
        assert(with_key(b, k) == with_key(c, k));
        assert(with_key(b, k).last() == b.last());
        assert(with_key(c, k).last() == c.last());
        assert(b.last() == c.last());
        assert forall|m: int| #[trigger] with_key(b.drop_last(), m) == with_key(c.drop_last(), m) by {
            b.drop_last().lemma_filter_push(b.last(), key_is::<T>(m));
            c.drop_last().lemma_filter_push(c.last(), key_is::<T>(m));
            assert(with_key(b, m) == with_key(c, m));
            if m == k {
                assert(with_key(b, m).drop_last() =~= with_key(b.drop_last(), m));
                assert(with_key(c, m).drop_last() =~= with_key(c.drop_last(), m));
            }
        }
        lemma_sorted_determined(b.drop_last(), c.drop_last());
    }
}

/// `x` placed after every element of the sorted `t` whose key is not above its own.
pub open spec fn insert_by_key<T: CanonicalKey>(t: Seq<T>, x: T) -> Seq<T>
    decreases t.len(),
{
    if t.len() == 0 {
        seq![x]
    } else if t.last().canonical_key() <= x.canonical_key() {
        t.push(x)
    } else {
        insert_by_key(t.drop_last(), x).push(t.last())
    }
}

/// Insertion sort by key, as a specification.
pub open spec fn sorted_by_key<T: CanonicalKey>(s: Seq<T>) -> Seq<T>
    decreases s.len(),
{
    if s.len() == 0 {
        Seq::empty()
    } else {
        insert_by_key(sorted_by_key(s.drop_last()), s.last())
    }
}

proof fn lemma_insert_by_key<T: CanonicalKey>(t: Seq<T>, x: T, bound: int)
    requires
        key_sorted(t),
        forall|i: int| 0 <= i < t.len() ==> t[i].canonical_key() <= bound,
        x.canonical_key() <= bound,
    ensures
        key_sorted(insert_by_key(t, x)),
        insert_by_key(t, x).len() == t.len() + 1,
        forall|i: int| 0 <= i < insert_by_key(t, x).len() ==> #[trigger] insert_by_key(t, x)[i].canonical_key() <= bound,
        forall|k: int| #[trigger] with_key(insert_by_key(t, x), k) == with_key(t.push(x), k),
    decreases t.len(),
{
    if t.len() == 0 {
        assert(seq![x] =~= t.push(x));
    } else if t.last().canonical_key() <= x.canonical_key() {
        assert forall|i: int, j: int| 0 <= i < j < t.push(x).len() implies t.push(x)[i].canonical_key()
            <= t.push(x)[j].canonical_key() by {
            if j == t.len() {
                assert(t[i].canonical_key() <= t.last().canonical_key());
            }
        }
    } else {
        let l = t.last();
        let d = t.drop_last();
        assert(key_sorted(d));
        lemma_insert_by_key(d, x, l.canonical_key());
        let u = insert_by_key(d, x);
        assert(insert_by_key(t, x) == u.push(l));
        assert forall|i: int, j: int| 0 <= i < j < u.push(l).len() implies u.push(l)[i].canonical_key()
            <= u.push(l)[j].canonical_key() by {
            if j == u.len() {
                assert(u[i].canonical_key() <= l.canonical_key());
            } else {
                assert(u[i].canonical_key() <= u[j].canonical_key());
            }
        }
        assert forall|i: int| 0 <= i < u.push(l).len() implies #[trigger] u.push(l)[i].canonical_key() <= bound by {
            if i < u.len() {
                assert(u[i].canonical_key() <= l.canonical_key());
            }
        }
        assert forall|k: int| #[trigger] with_key(u.push(l), k) == with_key(t.push(x), k) by {
            u.lemma_filter_push(l, key_is::<T>(k));
            d.push(x).lemma_filter_push(l, key_is::<T>(k));
            d.lemma_filter_push(x, key_is::<T>(k));
            d.lemma_filter_push(l, key_is::<T>(k));
            t.lemma_filter_push(x, key_is::<T>(k));
            assert(d.push(l) =~= t);
            assert(with_key(u, k) == with_key(d.push(x), k));
        }
    }
}

pub(crate) proof fn lemma_sorted_by_key<T: CanonicalKey>(s: Seq<T>)
    ensures
        stable_sorted(s, sorted_by_key(s)),
        sorted_by_key(s).len() == s.len(),
    decreases s.len(),
{
    reveal(Seq::filter);
    if s.len() > 0 {
        let d = s.drop_last();
        lemma_sorted_by_key(d);
        let t = sorted_by_key(d);
        let x = s.last();
        let bound = if t.len() > 0 && t.last().canonical_key() > x.canonical_key() {
            t.last().canonical_key()
        } else {
            x.canonical_key()
        };
        assert forall|i: int| 0 <= i < t.len() implies t[i].canonical_key() <= bound by {
            assert(t[i].canonical_key() <= t.last().canonical_key());
        }
        lemma_insert_by_key(t, x, bound);
        assert(d.push(x) =~= s);
        assert forall|k: int| #[trigger] with_key(s, k) == with_key(sorted_by_key(s), k) by {
            d.lemma_filter_push(x, key_is::<T>(k));
            t.lemma_filter_push(x, key_is::<T>(k));
            assert(with_key(d, k) == with_key(t, k));
        }
    } else {
        assert(sorted_by_key(s) =~= s);
    }
}

proof fn lemma_insert_members<T: CanonicalKey>(t: Seq<T>, x: T)
    ensures
        insert_by_key(t, x).len() == t.len() + 1,
        forall|i: int| 0 <= i < insert_by_key(t, x).len() ==> #[trigger] insert_by_key(t, x)[i] == x
            || t.contains(insert_by_key(t, x)[i]),
    decreases t.len(),
{
    if t.len() > 0 && t.last().canonical_key() > x.canonical_key() {
        let d = t.drop_last();
        lemma_insert_members(d, x);
        let r = insert_by_key(d, x).push(t.last());
        assert forall|i: int| 0 <= i < r.len() implies #[trigger] r[i] == x || t.contains(r[i]) by {
            if i < r.len() - 1 {
                if r[i] != x {
                    let j = choose|j: int| 0 <= j < d.len() && d[j] == r[i];
                    assert(t[j] == r[i]);
                }
            } else {
                assert(t[t.len() - 1] == r[i]);
            }
        }
    } else if t.len() > 0 {
        assert forall|i: int| 0 <= i < t.push(x).len() implies #[trigger] t.push(x)[i] == x || t.contains(t.push(x)[i]) by {
            if i < t.len() {
                assert(t[i] == t.push(x)[i]);
            }
        }
    }
}

/// Every element of the sorted sequence is an element of the input.
pub(crate) proof fn lemma_sorted_members<T: CanonicalKey>(s: Seq<T>)
    ensures
        sorted_by_key(s).len() == s.len(),
        forall|i: int| 0 <= i < sorted_by_key(s).len() ==> s.contains(#[trigger] sorted_by_key(s)[i]),
    decreases s.len(),
{
    if s.len() > 0 {
        let d = s.drop_last();
        lemma_sorted_members(d);
        lemma_insert_members(sorted_by_key(d), s.last());
        let r = sorted_by_key(s);
        assert forall|i: int| 0 <= i < r.len() implies s.contains(#[trigger] r[i]) by {
            if r[i] == s.last() {
                assert(s[s.len() - 1] == r[i]);
            } else {
                assert(sorted_by_key(d).contains(r[i]));
                let k = choose|k: int| 0 <= k < sorted_by_key(d).len() && sorted_by_key(d)[k] == r[i];
                assert(d.contains(sorted_by_key(d)[k]));
                let j = choose|j: int| 0 <= j < d.len() && d[j] == r[i];
                assert(s[j] == r[i]);
            }
        }
    }
}

/// Every sequence has a stable sort by key.
pub proof fn lemma_stable_sort_exists<T: CanonicalKey>(s: Seq<T>)
    ensures
        exists|t: Seq<T>| stable_sorted(s, t),
{
    lemma_sorted_by_key(s);
}

/// No two elements of `s` share a key.
pub open spec fn distinct_keys<T: CanonicalKey>(s: Seq<T>) -> bool {
    forall|i: int, j: int| 0 <= i < j < s.len() ==> s[i].canonical_key() != s[j].canonical_key()
}

proof fn lemma_with_key_distinct<T: CanonicalKey>(s: Seq<T>, k: int)
    requires
        distinct_keys(s),
    ensures
        with_key(s, k).len() <= 1,
        forall|x: T| #[trigger] with_key(s, k).contains(x) <==> (s.contains(x) && x.canonical_key() == k),
    decreases s.len(),
{
    reveal(Seq::filter);
    if s.len() > 0 {
        let d = s.drop_last();
        let l = s.last();
        assert(distinct_keys(d));
        lemma_with_key_distinct(d, k);
        d.lemma_filter_push(l, key_is::<T>(k));
        assert(d.push(l) =~= s);
        if l.canonical_key() == k {
            assert forall|i: int| 0 <= i < d.len() implies d[i].canonical_key() != k by {
                assert(s[i] == d[i]);
            }
            assert(with_key(d, k).len() == 0) by {
                if with_key(d, k).len() > 0 {
                    let y = with_key(d, k)[0];
                    assert(with_key(d, k).contains(y));
                    let m = choose|m: int| 0 <= m < d.len() && d[m] == y;
                }
            }
        }
        assert forall|x: T| #[trigger] with_key(s, k).contains(x) <==> (s.contains(x) && x.canonical_key() == k) by {
            if s.contains(x) && x.canonical_key() == k {
                let m = choose|m: int| 0 <= m < s.len() && s[m] == x;
                if m < d.len() {
                    assert(d[m] == x);
                    assert(d.contains(x));
                }
            }
            if d.contains(x) {
                let m = choose|m: int| 0 <= m < d.len() && d[m] == x;
                assert(s[m] == x);
            }
        }
    } else {
        assert(with_key(s, k) =~= Seq::<T>::empty());
    }
}

/// Two sequences with the same elements, each without shared keys, hold
/// every key's elements in the same order, so they have the same stable sort.
pub proof fn lemma_same_members_same_key_order<T: CanonicalKey>(a: Seq<T>, b: Seq<T>)
    requires
        distinct_keys(a),
        distinct_keys(b),
        forall|x: T| a.contains(x) <==> b.contains(x),
    ensures
        same_key_order(a, b),
{
    assert forall|k: int| #[trigger] with_key(a, k) == with_key(b, k) by {
        lemma_with_key_distinct(a, k);
        lemma_with_key_distinct(b, k);
        let wa = with_key(a, k);
        let wb = with_key(b, k);
        if wa.len() == 1 {
            assert(wa.contains(wa[0]));
            assert(wb.contains(wa[0]));
        }
        if wb.len() == 1 {
            assert(wb.contains(wb[0]));
            assert(wa.contains(wb[0]));
        }
        assert(wa =~= wb);
    }
}

/// A key `hi * base + lo` with `0 <= lo < base` orders by `hi`, then by
/// `lo`.
pub proof fn lemma_radix_order(hi1: int, lo1: int, hi2: int, lo2: int, base: int)
    requires
        base > 0,
        0 <= lo1 < base,
        0 <= lo2 < base,
    ensures
        (hi1 * base + lo1 <= hi2 * base + lo2) == (hi1 < hi2 || (hi1 == hi2 && lo1 <= lo2)),
        (hi1 * base + lo1 < hi2 * base + lo2) == (hi1 < hi2 || (hi1 == hi2 && lo1 < lo2)),
{
    if hi1 < hi2 {
        assert(hi1 * base + base <= hi2 * base) by (nonlinear_arith)
            requires
                hi1 < hi2,
                base > 0,
        ;
    } else if hi2 < hi1 {
        assert(hi2 * base + base <= hi1 * base) by (nonlinear_arith)
            requires
                hi2 < hi1,
                base > 0,
        ;
    }
}

/// A stable sort holds exactly the elements of its input.
pub proof fn lemma_stable_sorted_members<T: CanonicalKey>(a: Seq<T>, b: Seq<T>)
    requires
        stable_sorted(a, b),
    ensures
        forall|x: T| a.contains(x) <==> b.contains(x),
{
    assert forall|x: T| a.contains(x) implies b.contains(x) by {
        let i = choose|i: int| 0 <= i < a.len() && a[i] == x;
        a.lemma_filter_contains(key_is::<T>(x.canonical_key()), i);
        assert(with_key(a, x.canonical_key()) == with_key(b, x.canonical_key()));
        b.lemma_filter_contains_rev(key_is::<T>(x.canonical_key()), x);
    }
    assert forall|x: T| b.contains(x) implies a.contains(x) by {
        let i = choose|i: int| 0 <= i < b.len() && b[i] == x;
        b.lemma_filter_contains(key_is::<T>(x.canonical_key()), i);
        assert(with_key(a, x.canonical_key()) == with_key(b, x.canonical_key()));
        a.lemma_filter_contains_rev(key_is::<T>(x.canonical_key()), x);
    }
}

/// The stable sort of a sequence without shared keys holds no element
/// twice, and has the input's length.
pub proof fn lemma_stable_sorted_distinct<T: CanonicalKey>(a: Seq<T>, b: Seq<T>)
    requires
        stable_sorted(a, b),
        distinct_keys(a),
    ensures
        b.no_duplicates(),
        b.len() == a.len(),
{
    assert forall|i: int, j: int| 0 <= i < b.len() && 0 <= j < b.len() && i != j implies b[i] != b[j] by {
        if b[i] == b[j] {
            let lo = if i < j { i } else { j };
            let hi = if i < j { j } else { i };
            let x = b[lo];
            let k = x.canonical_key();
            let pred = key_is::<T>(k);
            lemma_with_key_distinct(a, k);
            let l = b.take(hi);
            let r = b.skip(hi);
            assert(b =~= l + r);
            Seq::filter_distributes_over_add(l, r, pred);
            assert(l[lo] == x);
            l.lemma_filter_contains(pred, lo);
            assert(r[0] == x);
            r.lemma_filter_contains(pred, 0);
            assert(l.filter(pred).len() >= 1);
            assert(r.filter(pred).len() >= 1);
            assert(with_key(b, k) == l.filter(pred) + r.filter(pred));
            assert(with_key(a, k) == with_key(b, k));
        }
    }
    assert forall|i: int, j: int| 0 <= i < a.len() && 0 <= j < a.len() && i != j implies a[i] != a[j] by {
        if i < j {
            assert(a[i].canonical_key() != a[j].canonical_key());
        } else {
            assert(a[j].canonical_key() != a[i].canonical_key());
        }
    }
    lemma_stable_sorted_members(a, b);
    a.unique_seq_to_set();
    b.unique_seq_to_set();
    assert(a.to_set() =~= b.to_set());
}

/// Cut to its first `n` elements, a key-sorted sequence keeps elements whose
/// keys are at most the key of every element it leaves out.
pub proof fn lemma_sorted_prefix_least<T: CanonicalKey>(b: Seq<T>, n: int, y: T, x: T)
    requires
        key_sorted(b),
        0 <= n <= b.len(),
        b.take(n).contains(y),
        b.contains(x),
        !b.take(n).contains(x),
    ensures
        y.canonical_key() <= x.canonical_key(),
{
    let i = choose|i: int| 0 <= i < b.take(n).len() && b.take(n)[i] == y;
    let j = choose|j: int| 0 <= j < b.len() && b[j] == x;
    if j < n {
        assert(b.take(n)[j] == x);
    }
    assert(b[i] == y);
}

} // verus!
