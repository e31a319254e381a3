use vstd::prelude::*;

verus! {

/// `s` with `x` inserted just after the leading run of elements whose key is at
/// least the key of `x`.
pub open spec fn insert_by_key_desc(s: Seq<usize>, x: usize, keys: Seq<u32>) -> Seq<usize>
    decreases s.len(),
{
    if s.len() == 0 {
        seq![x]
    } else if keys[s[0] as int] >= keys[x as int] {
        seq![s[0]] + insert_by_key_desc(s.drop_first(), x, keys)
    } else {
        seq![x] + s
    }
}

/// The stable sort of `s` by decreasing key: elements with equal keys keep the
/// order they have in `s`.
pub open spec fn sort_by_key_desc(s: Seq<usize>, keys: Seq<u32>) -> Seq<usize>
    decreases s.len(),
{
    if s.len() == 0 {
        s
    } else {
        insert_by_key_desc(sort_by_key_desc(s.drop_last(), keys), s.last(), keys)
    }
}

proof fn lemma_insert_at(s: Seq<usize>, x: usize, keys: Seq<u32>, p: int)
    requires
        0 <= p <= s.len(),
        forall|q: int| 0 <= q < p ==> keys[#[trigger] s[q] as int] >= keys[x as int],
        p < s.len() ==> keys[s[p] as int] < keys[x as int],
    ensures
        insert_by_key_desc(s, x, keys) == s.insert(p, x),
    decreases s.len(),
{
    if s.len() == 0 {
        assert(s.insert(p, x) =~= seq![x]);
    } else if p == 0 {
        assert(s.insert(p, x) =~= seq![x] + s);
    } else {
        let t = s.drop_first();
        assert forall|q: int| 0 <= q < p - 1 implies keys[#[trigger] t[q] as int] >= keys[x as int] by {
            assert(t[q] == s[q + 1]);
        }
        lemma_insert_at(t, x, keys, p - 1);
        assert(s.insert(p, x) =~= seq![s[0]] + t.insert(p - 1, x));
    }
}

pub proof fn lemma_insert_len_bound(s: Seq<usize>, x: usize, keys: Seq<u32>, bound: int)
    requires
        x < bound,
        forall|i: int| 0 <= i < s.len() ==> #[trigger] s[i] < bound,
    ensures
        insert_by_key_desc(s, x, keys).len() == s.len() + 1,
        forall|i: int| 0 <= i < insert_by_key_desc(s, x, keys).len() ==> #[trigger] insert_by_key_desc(s, x, keys)[i] < bound,
    decreases s.len(),
{
    if s.len() > 0 && keys[s[0] as int] >= keys[x as int] {
        let t = s.drop_first();
        lemma_insert_len_bound(t, x, keys, bound);
        let r = insert_by_key_desc(s, x, keys);
        assert forall|i: int| 0 <= i < r.len() implies #[trigger] r[i] < bound by {
            if i > 0 {
                assert(r[i] == insert_by_key_desc(t, x, keys)[i - 1]);
            }
        }
    }
}

/// Sorting keeps the length of a list, and an upper bound on its elements.
pub proof fn lemma_sort_len_bound(s: Seq<usize>, keys: Seq<u32>, bound: int)
    requires
        forall|i: int| 0 <= i < s.len() ==> #[trigger] s[i] < bound,
    ensures
        sort_by_key_desc(s, keys).len() == s.len(),
        forall|i: int| 0 <= i < s.len() ==> #[trigger] sort_by_key_desc(s, keys)[i] < bound,
    decreases s.len(),
{
    if s.len() > 0 {
        let d = s.drop_last();
        lemma_sort_len_bound(d, keys, bound);
        lemma_insert_len_bound(sort_by_key_desc(d, keys), s.last(), keys, bound);
    }
}

/// Sorts a list of curve indices by decreasing `keys[index]`, keeping the input
/// order among indices with equal keys.
pub fn sort_indices_by_key_desc(indices: &Vec<usize>, keys: &Vec<u32>) -> (sorted: Vec<usize>)
    requires
        forall|i: int| 0 <= i < indices@.len() ==> #[trigger] indices@[i] < keys@.len(),
    ensures
        sorted@ == sort_by_key_desc(indices@, keys@),
{
    let mut out: Vec<usize> = Vec::new();
    let n = indices.len();
    proof {
        assert(indices@.take(0) =~= Seq::<usize>::empty());
    }
    for i in 0..n
        invariant
            n == indices@.len(),
            forall|j: int| 0 <= j < indices@.len() ==> #[trigger] indices@[j] < keys@.len(),
            out@ == sort_by_key_desc(indices@.take(i as int), keys@),
            forall|j: int| 0 <= j < out@.len() ==> #[trigger] out@[j] < keys@.len(),
    {
        let x = indices[i];
        let kx = keys[x];
        let mut p: usize = 0;
        while p < out.len() && keys[out[p]] >= kx
            invariant
                p <= out@.len(),
                x < keys@.len(),
                kx == keys@[x as int],
                forall|j: int| 0 <= j < out@.len() ==> #[trigger] out@[j] < keys@.len(),
                forall|q: int| 0 <= q < p ==> keys@[#[trigger] out@[q] as int] >= kx,
            decreases out@.len() - p,
        {
            p = p + 1;
        }
        proof {
            lemma_insert_at(out@, x, keys@, p as int);
            assert(indices@.take(i + 1).drop_last() =~= indices@.take(i as int));
            assert(indices@.take(i + 1).last() == x);
        }
        let ghost before = out@;
        out.insert(p, x);
        proof {
            assert forall|j: int| 0 <= j < out@.len() implies #[trigger] out@[j] < keys@.len() by {
                if j < p {
                    assert(out@[j] == before[j]);
                } else if j > p {
                    assert(out@[j] == before[j - 1]);
                }
            }
        }
    }
    proof {
        assert(indices@.take(n as int) =~= indices@);
    }
    out
}

/// An order-preserving integer code for the bit pattern of an IEEE-754 single
/// precision number: numbers that compare less get smaller codes, and the two
/// zeros share one code.
pub open spec fn spec_float_order_key(bits: u32) -> u32 {
    if bits == 0x8000_0000u32 {
        0x8000_0000u32
    } else if bits >= 0x8000_0000u32 {
        (0xFFFF_FFFFu32 - bits) as u32
    } else {
        (bits + 0x8000_0000u32) as u32
    }
}

/// Maps the bit pattern of a single precision number to its order-preserving code.
pub fn float_order_key(bits: u32) -> (key: u32)
    ensures
        key == spec_float_order_key(bits),
{
    if bits == 0x8000_0000u32 {
        0x8000_0000u32
    } else if bits >= 0x8000_0000u32 {
        0xFFFF_FFFFu32 - bits
    } else {
        bits + 0x8000_0000u32
    }
}


/// `s` is ordered by decreasing key.
pub open spec fn sorted_desc(s: Seq<usize>, keys: Seq<u32>) -> bool {
    forall|i: int, j: int| 0 <= i < j < s.len() ==> keys[#[trigger] s[i] as int] >= keys[#[trigger] s[j] as int]
}

/// The test "the key of `x` is `k`".
pub open spec fn key_is(keys: Seq<u32>, k: u32) -> spec_fn(usize) -> bool {
    |x: usize| keys[x as int] == k
}

proof fn lemma_filter_none<A>(s: Seq<A>, pred: spec_fn(A) -> bool)
    requires
        forall|i: int| 0 <= i < s.len() ==> !pred(#[trigger] s[i]),
    ensures
        s.filter(pred) == Seq::<A>::empty(),
    decreases s.len(),
{
    if s.len() == 0 {
        reveal(Seq::filter);
    } else {
        let d = s.drop_last();
        lemma_filter_none(d, pred);
        assert(d.push(s.last()) =~= s);
        d.lemma_filter_push(s.last(), pred);
    }
}

proof fn lemma_filter_single<A>(x: A, pred: spec_fn(A) -> bool)
    ensures
        seq![x].filter(pred) == if pred(x) { seq![x] } else { Seq::<A>::empty() },
{
    reveal(Seq::filter);
    assert(Seq::<A>::empty().push(x) =~= seq![x]);
    Seq::<A>::empty().lemma_filter_push(x, pred);
    assert(Seq::<A>::empty().filter(pred) =~= Seq::<A>::empty());
}

/// Inserting into a sorted list puts `x` between the elements with a key at
/// least its own and those with a smaller key.
proof fn lemma_insert_split(t: Seq<usize>, x: usize, keys: Seq<u32>) -> (p: int)
    requires
        sorted_desc(t, keys),
    ensures
        0 <= p <= t.len(),
        insert_by_key_desc(t, x, keys) == t.take(p) + seq![x] + t.skip(p),
        forall|q: int| 0 <= q < p ==> keys[#[trigger] t[q] as int] >= keys[x as int],
        forall|q: int| p <= q < t.len() ==> keys[#[trigger] t[q] as int] < keys[x as int],
    decreases t.len(),
{
    if t.len() == 0 {
        assert(t.take(0) + seq![x] + t.skip(0) =~= seq![x]);
        0
    } else if keys[t[0] as int] >= keys[x as int] {
        let r = t.drop_first();
        assert(sorted_desc(r, keys)) by {
            assert forall|i: int, j: int| 0 <= i < j < r.len() implies keys[#[trigger] r[i] as int] >= keys[#[trigger] r[j] as int] by {
                assert(r[i] == t[i + 1] && r[j] == t[j + 1]);
            }
        }
        let p0 = lemma_insert_split(r, x, keys);
        assert(seq![t[0]] + (r.take(p0) + seq![x] + r.skip(p0)) =~= t.take(p0 + 1) + seq![x] + t.skip(p0 + 1));
        assert forall|q: int| 0 <= q < p0 + 1 implies keys[#[trigger] t[q] as int] >= keys[x as int] by {
            if q > 0 {
                assert(t[q] == r[q - 1]);
            }
        }
        assert forall|q: int| p0 + 1 <= q < t.len() implies keys[#[trigger] t[q] as int] < keys[x as int] by {
            assert(t[q] == r[q - 1]);
        }
        p0 + 1
    } else {
        assert(t.take(0) + seq![x] + t.skip(0) =~= seq![x] + t);
        assert forall|q: int| 0 <= q < t.len() implies keys[#[trigger] t[q] as int] < keys[x as int] by {
            if q > 0 {
                assert(keys[t[0] as int] >= keys[t[q] as int]);
            }
        }
        0
    }
}

/// The stable sort orders by decreasing key, keeps every element with its
/// multiplicity, and keeps the input order among elements of equal key.
pub proof fn lemma_sort_by_key_desc(s: Seq<usize>, keys: Seq<u32>)
    ensures
        sorted_desc(sort_by_key_desc(s, keys), keys),
        sort_by_key_desc(s, keys).to_multiset() == s.to_multiset(),
        forall|k: u32| #[trigger] sort_by_key_desc(s, keys).filter(key_is(keys, k)) == s.filter(key_is(keys, k)),
    decreases s.len(),
{
    broadcast use vstd::seq_lib::group_to_multiset_ensures;
    broadcast use vstd::seq_lib::lemma_multiset_commutative;
    if s.len() == 0 {
    } else {
        let d = s.drop_last();
        let x = s.last();
        let t = sort_by_key_desc(d, keys);
        lemma_sort_by_key_desc(d, keys);
        let p = lemma_insert_split(t, x, keys);
        let a = t.take(p);
        let b = t.skip(p);
        let r = sort_by_key_desc(s, keys);
        assert(r == a + seq![x] + b);
        assert(t =~= a + b);
        assert(d.push(x) =~= s);
        // sorted
        assert forall|i: int, j: int| 0 <= i < j < r.len() implies keys[#[trigger] r[i] as int] >= keys[#[trigger] r[j] as int] by {
            if j < p {
                assert(r[i] == t[i] && r[j] == t[j]);
            } else if j == p {
                assert(r[i] == t[i]);
            } else if i < p {
                assert(r[i] == t[i] && r[j] == t[j - 1]);
            } else if i == p {
                assert(r[j] == t[j - 1]);
            } else {
                assert(r[i] == t[i - 1] && r[j] == t[j - 1]);
            }
        }
        // permutation
        assert((a + seq![x] + b).to_multiset() == (a + seq![x]).to_multiset().add(b.to_multiset()));
        assert((a + seq![x]).to_multiset() == a.to_multiset().add(seq![x].to_multiset()));
        assert((a + b).to_multiset() == a.to_multiset().add(b.to_multiset()));
        assert(seq![x] =~= Seq::<usize>::empty().push(x));
        assert(Seq::<usize>::empty().push(x).to_multiset() =~= Seq::<usize>::empty().to_multiset().insert(x));
        assert(r.to_multiset() =~= s.to_multiset());
        // stability
        assert forall|k: u32| #[trigger] r.filter(key_is(keys, k)) == s.filter(key_is(keys, k)) by {
            let pk = key_is(keys, k);
            Seq::filter_distributes_over_add(a + seq![x], b, pk);
            Seq::filter_distributes_over_add(a, seq![x], pk);
            Seq::filter_distributes_over_add(a, b, pk);
            lemma_filter_single(x, pk);
            d.lemma_filter_push(x, pk);
            if pk(x) {
                assert forall|i: int| 0 <= i < b.len() implies !pk(#[trigger] b[i]) by {
                    assert(b[i] == t[p + i]);
                }
                lemma_filter_none(b, pk);
                assert(a.filter(pk) + seq![x] + Seq::<usize>::empty() =~= (a.filter(pk) + Seq::<usize>::empty()).push(x));
                assert(a.filter(pk) + Seq::<usize>::empty() =~= a.filter(pk));
            } else {
                assert(a.filter(pk) + Seq::<usize>::empty() =~= a.filter(pk));
            }
        }
    }
}

/// The order code of a bit pattern orders non-negative numbers by their bits,
/// negative numbers by the reverse of their bits, every negative number below
/// every non-negative one, and gives both zeros the same code.
pub proof fn lemma_float_order_key(a: u32, b: u32)
    ensures
        a < b < 0x8000_0000u32 ==> spec_float_order_key(a) < spec_float_order_key(b),
        0x8000_0000u32 < a < b ==> spec_float_order_key(a) > spec_float_order_key(b),
        0x8000_0000u32 < a && b < 0x8000_0000u32 ==> spec_float_order_key(a) < spec_float_order_key(b),
        spec_float_order_key(0x8000_0000u32) == spec_float_order_key(0u32),
{
}

} // verus!
