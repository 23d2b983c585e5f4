//! Order statistics on slices of integers, sums and products of matrices,
//! and factorials of any size.

use ndarray::Array2;
use num::bigint::{BigInt, ToBigInt};
use std::collections::HashMap;
use vstd::prelude::*;

verus! {

/// The elements of `s` that are less than `pivot`, in order.
pub open spec fn below(s: Seq<i32>, pivot: i32) -> Seq<i32>
    decreases s.len(),
{
    if s.len() == 0 {
        seq![]
    } else if s.last() < pivot {
        below(s.drop_last(), pivot).push(s.last())
    } else {
        below(s.drop_last(), pivot)
    }
}

/// The elements of `s` that are not less than `pivot`, in order.
pub open spec fn not_below(s: Seq<i32>, pivot: i32) -> Seq<i32>
    decreases s.len(),
{
    if s.len() == 0 {
        seq![]
    } else if s.last() < pivot {
        not_below(s.drop_last(), pivot)
    } else {
        not_below(s.drop_last(), pivot).push(s.last())
    }
}

/// How many elements of `s` are less than `v`.
pub open spec fn count_less(s: Seq<i32>, v: i32) -> nat {
    below(s, v).len()
}

/// How many elements of `s` are at most `v`.
pub open spec fn count_at_most(s: Seq<i32>, v: i32) -> nat {
    (s.len() - not_below(s, v).len() + count_equal(s, v)) as nat
}

/// How many elements of `s` equal `v`.
pub open spec fn count_equal(s: Seq<i32>, v: i32) -> nat
    decreases s.len(),
{
    if s.len() == 0 {
        0
    } else {
        count_equal(s.drop_last(), v) + if s.last() == v {
            1nat
        } else {
            0nat
        }
    }
}

/// Whether `v` is what stands at index `k` once `s` is put in ascending
/// order: it occurs in `s`, at most `k` elements are smaller, and more than
/// `k` are no larger.
pub open spec fn is_kth_smallest(s: Seq<i32>, k: nat, v: i32) -> bool {
    &&& s.contains(v)
    &&& count_less(s, v) <= k < count_at_most(s, v)
}

/// The first element as the pivot, the smaller ones of the rest to its left
/// and the others to its right, each side in its old order. `None` for an
/// empty slice.
pub fn partition(data: &[i32]) -> (parts: Option<(Vec<i32>, i32, Vec<i32>)>)
    ensures
        parts is None <==> data@.len() == 0,
        parts is Some ==> {
            let (left, pivot, right) = parts->0;
            &&& pivot == data@[0]
            &&& left@ == below(data@.skip(1), pivot)
            &&& right@ == not_below(data@.skip(1), pivot)
        },
{
    if data.len() == 0 {
        return None;
    }
    let pivot = data[0];
    let mut left: Vec<i32> = Vec::new();
    let mut right: Vec<i32> = Vec::new();
    let mut i: usize = 1;
    proof {
        assert(data@.subrange(1, 1) =~= Seq::<i32>::empty());
    }
    while i < data.len()
        invariant
            1 <= i <= data.len(),
            pivot == data@[0],
            left@ == below(data@.subrange(1, i as int), pivot),
            right@ == not_below(data@.subrange(1, i as int), pivot),
        decreases data.len() - i,
    {
        proof {
            assert(data@.subrange(1, i + 1).drop_last() =~= data@.subrange(1, i as int));
        }
        let next = data[i];
        if next < pivot {
            left.push(next);
        } else {
            right.push(next);
        }
        i = i + 1;
    }
    proof {
        assert(data@.subrange(1, data@.len() as int) =~= data@.skip(1));
    }
    Some((left, pivot, right))
}

/// The element that stands at index `k` once `data` is put in ascending
/// order, or `None` where `data` has no such index.
pub fn select(data: &[i32], k: usize) -> (found: Option<i32>)
    ensures
        found is Some <==> k < data@.len(),
        found is Some ==> is_kth_smallest(data@, k as nat, found->0),
    decreases data@.len(),
{
    let part = partition(data);

    match part {
        None => None,
        Some((left, pivot, right)) => {
            let pivot_idx = left.len();
            proof {
                lemma_split_lengths(data@.skip(1), pivot);
                lemma_counts_around_pivot(data@);
            }
            if pivot_idx == k {
                proof {
                    assert(data@[0] == pivot);
                }
                Some(pivot)
            } else if pivot_idx > k {
                let found = select(left.as_slice(), k);
                proof {
                    lemma_kth_of_left(data@, k as nat, found->0);
                }
                found
            } else {
                let found = select(right.as_slice(), k - (pivot_idx + 1));
                proof {
                    if found is Some {
                        lemma_kth_of_right(data@, (k - (pivot_idx + 1)) as nat, found->0);
                    }
                }
                found
            }
        },
    }
}

/// The two values whose mean is the median of `data`: the two middle
/// elements in ascending order where the length is even, the middle element
/// twice where it is odd. `None` for an empty slice.
pub fn median_terms(data: &[i32]) -> (terms: Option<(i32, i32)>)
    ensures
        terms is Some <==> data@.len() > 0,
        terms is Some ==> {
            let (fst, snd) = terms->0;
            let half = (data@.len() / 2) as nat;
            &&& is_kth_smallest(data@, half, snd)
            &&& if data@.len() % 2 == 0 {
                is_kth_smallest(data@, (half - 1) as nat, fst)
            } else {
                fst == snd
            }
        },
{
    let size = data.len();
    if size == 0 {
        return None;
    }
    if size % 2 == 0 {
        let fst_med = select(data, (size / 2) - 1);
        let snd_med = select(data, size / 2);
        match (fst_med, snd_med) {
            (Some(fst), Some(snd)) => Some((fst, snd)),
            _ => None,
        }
    } else {
        match select(data, size / 2) {
            Some(x) => Some((x, x)),
            None => None,
        }
    }
}

/// Every element goes to exactly one side.
pub proof fn lemma_split_lengths(s: Seq<i32>, pivot: i32)
    ensures
        below(s, pivot).len() + not_below(s, pivot).len() == s.len(),
    decreases s.len(),
{
    if s.len() > 0 {
        lemma_split_lengths(s.drop_last(), pivot);
    }
}

/// No more elements equal `v` than are not below it.
pub proof fn lemma_equal_not_below(s: Seq<i32>, v: i32)
    ensures
        count_equal(s, v) <= not_below(s, v).len(),
    decreases s.len(),
{
    if s.len() > 0 {
        lemma_equal_not_below(s.drop_last(), v);
    }
}

/// The counts of a sequence, from those of all but its first element.
pub proof fn lemma_counts_cons(s: Seq<i32>, v: i32)
    requires
        s.len() > 0,
    ensures
        below(s, v).len() == below(s.skip(1), v).len() + if s[0] < v {
            1nat
        } else {
            0nat
        },
        not_below(s, v).len() == not_below(s.skip(1), v).len() + if s[0] < v {
            0nat
        } else {
            1nat
        },
        count_equal(s, v) == count_equal(s.skip(1), v) + if s[0] == v {
            1nat
        } else {
            0nat
        },
    decreases s.len(),
{
    if s.len() == 1 {
        assert(s.drop_last() =~= Seq::<i32>::empty());
        assert(s.skip(1) =~= Seq::<i32>::empty());
        assert(below(s.drop_last(), v).len() == 0);
        assert(not_below(s.drop_last(), v).len() == 0);
        assert(count_equal(s.drop_last(), v) == 0);
    } else {
        lemma_counts_cons(s.drop_last(), v);
        assert(s.drop_last().skip(1) =~= s.skip(1).drop_last());
        assert(s.skip(1).last() == s.last());
        assert(s.drop_last()[0] == s[0]);
    }
}

/// The pivot's index in sorted order is bounded by the size of the left side.
pub proof fn lemma_counts_around_pivot(s: Seq<i32>)
    requires
        s.len() > 0,
    ensures
        count_less(s, s[0]) == below(s.skip(1), s[0]).len(),
        count_at_most(s, s[0]) > below(s.skip(1), s[0]).len(),
        s.contains(s[0]),
{
    let p = s[0];
    lemma_counts_cons(s, p);
    lemma_split_lengths(s, p);
    lemma_split_lengths(s.skip(1), p);
    lemma_equal_not_below(s.skip(1), p);
}

/// What is kept of a side keeps its counts: below a bound `p`, counting
/// against a value `v <= p` sees the same smaller elements.
pub proof fn lemma_below_counts(s: Seq<i32>, p: i32, v: i32)
    requires
        v < p,
    ensures
        below(below(s, p), v).len() == below(s, v).len(),
        count_equal(below(s, p), v) == count_equal(s, v),
        not_below(below(s, p), v).len() + not_below(s, p).len() == not_below(s, v).len(),
    decreases s.len(),
{
    if s.len() > 0 {
        lemma_below_counts(s.drop_last(), p, v);
        if s.last() < p {
            assert(below(s, p).drop_last() =~= below(s.drop_last(), p));
        }
    }
}

/// Counting against a value `v >= p` within the side that is not below `p`.
pub proof fn lemma_not_below_counts(s: Seq<i32>, p: i32, v: i32)
    requires
        v >= p,
    ensures
        below(not_below(s, p), v).len() + below(s, p).len() == below(s, v).len(),
        count_equal(not_below(s, p), v) == count_equal(s, v),
        not_below(not_below(s, p), v).len() == not_below(s, v).len(),
    decreases s.len(),
{
    if s.len() > 0 {
        lemma_not_below_counts(s.drop_last(), p, v);
        if !(s.last() < p) {
            assert(not_below(s, p).drop_last() =~= not_below(s.drop_last(), p));
        }
    }
}

/// Whatever a side holds, the whole holds.
pub proof fn lemma_side_contains(s: Seq<i32>, p: i32, v: i32)
    ensures
        below(s, p).contains(v) ==> s.contains(v) && v < p,
        not_below(s, p).contains(v) ==> s.contains(v) && v >= p,
    decreases s.len(),
{
    if s.len() > 0 {
        lemma_side_contains(s.drop_last(), p, v);
        let last = s.last();
        assert(s[s.len() - 1] == last);
        if below(s, p).contains(v) {
            let i = choose|i: int| 0 <= i < below(s, p).len() && below(s, p)[i] == v;
            if last < p && i == below(s, p).len() - 1 {
            } else {
                assert(below(s.drop_last(), p)[i] == v);
                let j = choose|j: int| 0 <= j < s.drop_last().len() && s.drop_last()[j] == v;
                assert(s[j] == v);
            }
        }
        if not_below(s, p).contains(v) {
            let i = choose|i: int| 0 <= i < not_below(s, p).len() && not_below(s, p)[i] == v;
            if !(last < p) && i == not_below(s, p).len() - 1 {
            } else {
                assert(not_below(s.drop_last(), p)[i] == v);
                let j = choose|j: int| 0 <= j < s.drop_last().len() && s.drop_last()[j] == v;
                assert(s[j] == v);
            }
        }
    }
}

/// The `k`-th smallest of the left side is the `k`-th smallest of the whole.
pub proof fn lemma_kth_of_left(s: Seq<i32>, k: nat, v: i32)
    requires
        s.len() > 0,
        is_kth_smallest(below(s.skip(1), s[0]), k, v),
    ensures
        is_kth_smallest(s, k, v),
{
    let p = s[0];
    let tail = s.skip(1);
    let left = below(tail, p);
    lemma_side_contains(tail, p, v);
    let j = choose|j: int| 0 <= j < tail.len() && tail[j] == v;
    assert(s[j + 1] == v);
    lemma_below_counts(tail, p, v);
    lemma_counts_cons(s, v);
    lemma_split_lengths(left, v);
    lemma_split_lengths(tail, v);
    lemma_split_lengths(tail, p);
    lemma_split_lengths(s, v);
}

/// The `k`-th smallest of the right side stands in the whole behind the left
/// side and the pivot.
pub proof fn lemma_kth_of_right(s: Seq<i32>, k: nat, v: i32)
    requires
        s.len() > 0,
        is_kth_smallest(not_below(s.skip(1), s[0]), k, v),
    ensures
        is_kth_smallest(s, below(s.skip(1), s[0]).len() + 1 + k, v),
{
    let p = s[0];
    let tail = s.skip(1);
    let right = not_below(tail, p);
    lemma_side_contains(tail, p, v);
    let j = choose|j: int| 0 <= j < tail.len() && tail[j] == v;
    assert(s[j + 1] == v);
    lemma_not_below_counts(tail, p, v);
    lemma_counts_cons(s, v);
    lemma_split_lengths(right, v);
    lemma_split_lengths(tail, v);
    lemma_split_lengths(tail, p);
    lemma_split_lengths(s, v);
}

/// At most one value is the `k`-th smallest.
pub proof fn lemma_kth_smallest_unique(s: Seq<i32>, k: nat, v: i32, w: i32)
    requires
        is_kth_smallest(s, k, v),
        is_kth_smallest(s, k, w),
    ensures
        v == w,
{
    if v < w {
        lemma_at_most_then_less(s, v, w);
    } else if w < v {
        lemma_at_most_then_less(s, w, v);
    }
}

/// Whatever is at most `v` is less than any larger `w`.
pub proof fn lemma_at_most_then_less(s: Seq<i32>, v: i32, w: i32)
    requires
        v < w,
    ensures
        count_at_most(s, v) <= count_less(s, w),
    decreases s.len(),
{
    lemma_split_lengths(s, v);
    lemma_equal_not_below(s, v);
    if s.len() > 0 {
        lemma_at_most_then_less(s.drop_last(), v, w);
        lemma_split_lengths(s.drop_last(), v);
        lemma_equal_not_below(s.drop_last(), v);
    }
}

/// The sum of `s`.
pub open spec fn sum_of(s: Seq<i32>) -> int
    decreases s.len(),
{
    if s.len() == 0 {
        0
    } else {
        sum_of(s.drop_last()) + s.last()
    }
}

/// A sum of `n` numbers lies within `n` times the range of one.
pub proof fn lemma_sum_bounds(s: Seq<i32>)
    ensures
        s.len() * (i32::MIN as int) <= sum_of(s) <= s.len() * (i32::MAX as int),
    decreases s.len(),
{
    if s.len() > 0 {
        lemma_sum_bounds(s.drop_last());
        assert((s.len() - 1) * (i32::MIN as int) + (i32::MIN as int) == s.len() * (i32::MIN as int))
            by (nonlinear_arith);
        assert((s.len() - 1) * (i32::MAX as int) + (i32::MAX as int) == s.len() * (i32::MAX as int))
            by (nonlinear_arith);
    }
}

/// The sum of `data` and the number of its elements: the two numbers whose
/// quotient is the mean. `None` for an empty slice, which has none.
pub fn mean_terms(data: &[i32]) -> (terms: Option<(i128, usize)>)
    ensures
        match terms {
            Some((sum, count)) => data@.len() > 0 && sum == sum_of(data@) && count == data@.len(),
            None => data@.len() == 0,
        },
{
    let count = data.len();
    if count == 0 {
        return None;
    }
    let mut sum: i128 = 0;
    let mut i: usize = 0;
    proof {
        assert(data@.take(0) =~= Seq::<i32>::empty());
    }
    while i < count
        invariant
            i <= count == data@.len(),
            sum == sum_of(data@.take(i as int)),
        decreases count - i,
    {
        proof {
            assert(data@.take(i + 1).drop_last() =~= data@.take(i as int));
            lemma_sum_bounds(data@.take(i as int));
            assert(i * (i32::MIN as int) >= 0xFFFF_FFFF_FFFF_FFFF * (i32::MIN as int))
                by (nonlinear_arith)
                requires
                    0 <= i <= 0xFFFF_FFFF_FFFF_FFFF,
            ;
            assert(i * (i32::MAX as int) <= 0xFFFF_FFFF_FFFF_FFFF * (i32::MAX as int))
                by (nonlinear_arith)
                requires
                    0 <= i <= 0xFFFF_FFFF_FFFF_FFFF,
            ;
        }
        sum = sum + data[i] as i128;
        i = i + 1;
    }
    proof {
        assert(data@.take(count as int) =~= data@);
    }
    Some((sum, count))
}

/// How many elements of `data` equal `v`.
pub fn count_of(data: &[i32], v: i32) -> (count: usize)
    ensures
        count == count_equal(data@, v),
{
    let mut count: usize = 0;
    let mut i: usize = 0;
    proof {
        assert(data@.take(0) =~= Seq::<i32>::empty());
    }
    while i < data.len()
        invariant
            i <= data.len(),
            count <= i,
            count == count_equal(data@.take(i as int), v),
        decreases data.len() - i,
    {
        proof {
            assert(data@.take(i + 1).drop_last() =~= data@.take(i as int));
        }
        if data[i] == v {
            count = count + 1;
        }
        i = i + 1;
    }
    proof {
        assert(data@.take(data@.len() as int) =~= data@);
    }
    count
}

/// Whether `mode` is a mode of `s`: an element of `s` that occurs at least
/// as often as any other, or `None` for an empty `s`.
pub open spec fn is_mode_of(s: Seq<i32>, mode: Option<i32>) -> bool {
    match mode {
        None => s.len() == 0,
        Some(m) => s.contains(m) && forall|i: int|
            0 <= i < s.len() ==> count_equal(s, #[trigger] s[i]) <= count_equal(s, m),
    }
}

/// Whether `counts` tells of every number how often it occurs in `s`: the
/// numbers that occur are its keys, each with the number of its occurrences.
pub open spec fn counts_of(s: Seq<i32>, counts: Map<i32, usize>) -> bool {
    &&& forall|v: i32| #[trigger] counts.contains_key(v) <==> count_equal(s, v) > 0
    &&& forall|v: i32| counts.contains_key(v) ==> #[trigger] counts[v] == count_equal(s, v)
}

/// How often each number occurs in `data`.
pub fn frequencies(data: &[i32]) -> (freqs: HashMap<i32, usize>)
    ensures
        counts_of(data@, freqs@),
{
    broadcast use vstd::std_specs::hash::group_hash_axioms;

    let mut freqs: HashMap<i32, usize> = HashMap::new();
    let mut i: usize = 0;
    proof {
        assert(data@.take(0) =~= Seq::<i32>::empty());
    }
    while i < data.len()
        invariant
            i <= data.len(),
            counts_of(data@.take(i as int), freqs@),
        decreases data.len() - i,
    {
        let value = data[i];
        let seen: usize = match freqs.get(&value) {
            Some(count) => *count,
            None => 0,
        };
        proof {
            assert(data@.take(i + 1).drop_last() =~= data@.take(i as int));
            assert(freqs@.contains_key(value) ==> freqs@[value] == count_equal(
                data@.take(i as int),
                value,
            ));
            assert(seen == count_equal(data@.take(i as int), value));
            lemma_count_bound(data@.take(i as int), value);
        }
        let ghost before = freqs@;
        freqs.insert(value, seen + 1);
        proof {
            assert forall|v: i32| #[trigger]
                freqs@.contains_key(v) <==> count_equal(data@.take(i + 1), v) > 0 by {
                assert(before.contains_key(v) <==> count_equal(data@.take(i as int), v) > 0);
            }
            assert forall|v: i32| freqs@.contains_key(v) implies #[trigger] freqs@[v]
                == count_equal(data@.take(i + 1), v) by {
                assert(before.contains_key(v) <==> count_equal(data@.take(i as int), v) > 0);
                if before.contains_key(v) {
                    assert(before[v] == count_equal(data@.take(i as int), v));
                }
            }
        }
        i = i + 1;
    }
    proof {
        assert(data@.take(data@.len() as int) =~= data@);
    }
    freqs
}

/// Whether `m` is the mode of `s` that comes first: it stands at some place
/// of `s`, nothing occurs more often, and whatever stands before that place
/// occurs less often.
pub open spec fn is_first_mode_of(s: Seq<i32>, m: i32) -> bool {
    exists|j: int|
        {
            &&& 0 <= j < s.len() && #[trigger] s[j] == m
            &&& forall|i: int| 0 <= i < s.len() ==> count_equal(s, #[trigger] s[i]) <= count_equal(s, m)
            &&& forall|i: int| 0 <= i < j ==> count_equal(s, #[trigger] s[i]) < count_equal(s, m)
        }
}

/// The value that occurs most often in `data`, and of several such the one
/// that stands first; `None` for an empty slice.
pub fn mode(data: &[i32]) -> (found: Option<i32>)
    ensures
        is_mode_of(data@, found),
        found is Some ==> is_first_mode_of(data@, found->0),
{
    broadcast use vstd::std_specs::hash::group_hash_axioms;

    if data.len() == 0 {
        return None;
    }
    let freqs = frequencies(data);
    let mut best = data[0];
    let mut best_count: usize = 0;
    let ghost mut place: int = 0;
    let mut i: usize = 0;
    while i < data.len()
        invariant
            i <= data.len(),
            counts_of(data@, freqs@),
            0 <= place < data.len(),
            data@[place] == best,
            i == 0 ==> best_count == 0,
            i > 0 ==> place < i && best_count == count_equal(data@, best),
            forall|k: int| 0 <= k < i ==> count_equal(data@, #[trigger] data@[k]) <= best_count,
            forall|k: int| 0 <= k < place ==> count_equal(data@, #[trigger] data@[k]) < best_count,
        decreases data.len() - i,
    {
        let value = data[i];
        proof {
            lemma_occurs(data@, i as int);
            assert(freqs@.contains_key(value));
            assert(freqs@[value] == count_equal(data@, value));
        }
        let count: usize = match freqs.get(&value) {
            Some(count) => *count,
            None => 0,
        };
        if count > best_count {
            best = value;
            best_count = count;
            proof {
                place = i as int;
            }
        }
        i = i + 1;
    }
    proof {
        assert(data@[place] == best);
    }
    Some(best)
}

/// Nothing occurs more often than there are elements.
pub proof fn lemma_count_bound(s: Seq<i32>, v: i32)
    ensures
        count_equal(s, v) <= s.len(),
    decreases s.len(),
{
    if s.len() > 0 {
        lemma_count_bound(s.drop_last(), v);
    }
}

/// What stands in a sequence occurs in it at least once.
pub proof fn lemma_occurs(s: Seq<i32>, i: int)
    requires
        0 <= i < s.len(),
    ensures
        count_equal(s, s[i]) > 0,
    decreases s.len(),
{
    if i < s.len() - 1 {
        lemma_occurs(s.drop_last(), i);
    }
}

/// `num_bigint::BigInt`, an integer of any size.
#[verifier::external_type_specification]
#[verifier::external_body]
pub struct ExBigInt(BigInt);

/// The integer that a `BigInt` holds.
pub uninterp spec fn big_value(n: BigInt) -> int;

/// `ToBigInt::to_bigint` on an `i32`: always `Some`, holding the same integer.
#[verifier::external_body]
fn big_from_i32(n: i32) -> (big: Option<BigInt>)
    ensures
        big is Some,
        big_value(big->0) == n,
{
    n.to_bigint()
}

/// `MulAssign<i32>` of `BigInt`: the product, with no bound on its size.
#[verifier::external_body]
fn big_mul_assign(big: &mut BigInt, factor: i32)
    ensures
        big_value(*final(big)) == big_value(*old(big)) * factor,
{
    *big *= factor;
}

/// The product of the integers from 1 to `n`; 1 where there are none.
pub open spec fn product_up_to(n: int) -> int
    decreases n,
{
    if n <= 0 {
        1
    } else {
        product_up_to(n - 1) * n
    }
}

/// `x!`, however large; 1 for every `x` below 1.
pub fn factorial(x: i32) -> (f: BigInt)
    ensures
        big_value(f) == product_up_to(x as int),
{
    match big_from_i32(1) {
        Some(mut factorial) => {
            let mut i: i32 = 1;
            while i <= x
                invariant
                    1 <= i <= x + 1 || (x < 1 && i == 1),
                    big_value(factorial) == product_up_to(i - 1),
                decreases x - i + 1,
            {
                big_mul_assign(&mut factorial, i);
                if i == x {
                    return factorial;
                }
                i = i + 1;
            }
            factorial
        },
        None => unreached(),
    }
}

/// The largest number of rows or of columns of a matrix, and of the cells
/// of a product: what an array holds on every machine.
pub const MAX_SIDE: usize = 0x7FFF_FFFF;

/// A matrix of integers, its cells row after row.
#[derive(Debug, PartialEq, Eq)]
pub struct Matrix {
    pub rows: usize,
    pub cols: usize,
    pub cells: Vec<i32>,
}

impl Matrix {
    /// Whether there is one cell for each place, and neither side is longer
    /// than `MAX_SIDE`.
    pub open spec fn well_formed(self) -> bool {
        &&& self.cells@.len() == self.rows * self.cols
        &&& self.rows <= MAX_SIDE
        &&& self.cols <= MAX_SIDE
    }

    /// The cell in row `i` and column `j`.
    pub open spec fn at(self, i: int, j: int) -> int {
        self.cells@[i * self.cols + j] as int
    }

    /// Whether no cell is further from zero than `limit`.
    pub open spec fn within(self, limit: int) -> bool {
        forall|k: int| 0 <= k < self.cells@.len() ==> -limit <= #[trigger] self.cells@[k] <= limit
    }
}

/// Whether `a` and `b` can be added: they are of one shape, and no sum of
/// two cells leaves the range of a cell.
pub open spec fn can_add(a: Matrix, b: Matrix) -> bool {
    &&& a.well_formed() && b.well_formed()
    &&& a.rows == b.rows && a.cols == b.cols
    &&& forall|k: int|
        0 <= k < a.cells@.len() ==> i32::MIN <= #[trigger] a.cells@[k] + b.cells@[k] <= i32::MAX
}

/// Whether `a` and `b` can be multiplied: `a` has as many columns as `b`
/// has rows, and the cells are small enough for every sum of products,
/// taken in whatever order, to stay within the range of a cell.
pub open spec fn can_multiply(a: Matrix, b: Matrix) -> bool {
    &&& a.well_formed() && b.well_formed()
    &&& a.cols == b.rows
    &&& a.rows * b.cols <= MAX_SIDE
    &&& exists|la: int, lb: int|
        0 <= la && 0 <= lb && #[trigger] a.within(la) && #[trigger] b.within(lb) && a.cols * la * lb
            <= i32::MAX
}

/// The sum of the products of the first `n` cells of row `i` of `a` with
/// those of column `j` of `b`.
pub open spec fn dot_entry(a: Matrix, b: Matrix, i: int, j: int, n: nat) -> int
    decreases n,
{
    if n == 0 {
        0
    } else {
        dot_entry(a, b, i, j, (n - 1) as nat) + a.at(i, n - 1) * b.at(n - 1, j)
    }
}

/// `Array2::from_shape_vec` on both matrices and the `+` of two arrays: the
/// matrix of the sums, cell by cell.
#[verifier::external_body]
fn array_sum(a: &Matrix, b: &Matrix) -> (sum: Matrix)
    requires
        can_add(*a, *b),
    ensures
        sum.rows == a.rows && sum.cols == a.cols && sum.well_formed(),
        forall|k: int|
            0 <= k < sum.cells@.len() ==> #[trigger] sum.cells@[k] == a.cells@[k] + b.cells@[k],
{
    let x = Array2::from_shape_vec((a.rows, a.cols), a.cells.clone()).unwrap();
    let y = Array2::from_shape_vec((b.rows, b.cols), b.cells.clone()).unwrap();
    let z = &x + &y;
    Matrix { rows: a.rows, cols: a.cols, cells: z.iter().cloned().collect() }
}

/// `Array2::from_shape_vec` on both matrices and `Array2::dot`: the product,
/// each cell the sum of the products of a row of `a` with a column of `b`.
#[verifier::external_body]
fn array_dot(a: &Matrix, b: &Matrix) -> (product: Matrix)
    requires
        can_multiply(*a, *b),
    ensures
        product.rows == a.rows && product.cols == b.cols && product.well_formed(),
        forall|i: int, j: int|
            0 <= i < a.rows && 0 <= j < b.cols ==> #[trigger] product.at(i, j) == dot_entry(
                *a,
                *b,
                i,
                j,
                a.cols as nat,
            ),
{
    let x = Array2::from_shape_vec((a.rows, a.cols), a.cells.clone()).unwrap();
    let y = Array2::from_shape_vec((b.rows, b.cols), b.cells.clone()).unwrap();
    let z = x.dot(&y);
    Matrix { rows: a.rows, cols: b.cols, cells: z.iter().cloned().collect() }
}

/// The matrix with these `cells`, row after row, where there is one cell
/// for each place and neither side is longer than `MAX_SIDE`.
pub fn matrix(rows: usize, cols: usize, cells: Vec<i32>) -> (made: Option<Matrix>)
    ensures
        made is Some <==> cells@.len() == rows * cols && rows <= MAX_SIDE && cols <= MAX_SIDE,
        made is Some ==> made->0.rows == rows && made->0.cols == cols && made->0.cells@ == cells@,
        made is Some ==> made->0.well_formed(),
{
    let count = cells.len();
    match rows.checked_mul(cols) {
        Some(places) => {
            if places == count && rows <= MAX_SIDE && cols <= MAX_SIDE {
                Some(Matrix { rows, cols, cells })
            } else {
                None
            }
        },
        None => None,
    }
}

/// The distance of `cell` from zero.
pub open spec fn distance(cell: i32) -> int {
    if cell >= 0 {
        cell as int
    } else {
        -(cell as int)
    }
}

/// The largest distance of one of `cells` from zero; 0 where there are none.
pub open spec fn reach_of(cells: Seq<i32>) -> int
    decreases cells.len(),
{
    if cells.len() == 0 {
        0
    } else {
        let before = reach_of(cells.drop_last());
        if distance(cells.last()) > before {
            distance(cells.last())
        } else {
            before
        }
    }
}

/// No cell is further from zero than the reach.
pub proof fn lemma_reach_holds(cells: Seq<i32>)
    ensures
        0 <= reach_of(cells) <= 0x8000_0000,
        forall|k: int| 0 <= k < cells.len() ==> -reach_of(cells) <= #[trigger] cells[k] <= reach_of(cells),
    decreases cells.len(),
{
    if cells.len() > 0 {
        lemma_reach_holds(cells.drop_last());
        assert forall|k: int| 0 <= k < cells.len() implies -reach_of(cells) <= #[trigger] cells[k]
            <= reach_of(cells) by {
            if k < cells.len() - 1 {
                assert(cells.drop_last()[k] == cells[k]);
            }
        }
    }
}

/// The largest distance of a cell of `m` from zero.
pub fn reach(m: &Matrix) -> (limit: u32)
    ensures
        limit == reach_of(m.cells@),
{
    let mut limit: u32 = 0;
    let mut k: usize = 0;
    proof {
        assert(m.cells@.take(0) =~= Seq::<i32>::empty());
    }
    while k < m.cells.len()
        invariant
            k <= m.cells@.len(),
            limit == reach_of(m.cells@.take(k as int)),
        decreases m.cells@.len() - k,
    {
        proof {
            assert(m.cells@.take(k + 1).drop_last() =~= m.cells@.take(k as int));
            lemma_reach_holds(m.cells@.take(k as int));
        }
        let cell = m.cells[k];
        let far: u32 = if cell >= 0 {
            cell as u32
        } else if cell == i32::MIN {
            0x8000_0000
        } else {
            (-cell) as u32
        };
        if far > limit {
            limit = far;
        }
        k = k + 1;
    }
    proof {
        assert(m.cells@.take(m.cells@.len() as int) =~= m.cells@);
    }
    limit
}

/// Whether `a` and `b` can be multiplied for certain: `a` has as many
/// columns as `b` has rows, and a row of products of the largest cells would
/// still fit a cell.
pub open spec fn surely_multiplies(a: Matrix, b: Matrix) -> bool {
    &&& a.well_formed() && b.well_formed()
    &&& a.cols == b.rows
    &&& a.rows * b.cols <= MAX_SIDE
    &&& a.cols * reach_of(a.cells@) * reach_of(b.cells@) <= i32::MAX
}

/// The sum of two matrices; `None` where they differ in shape or a sum of
/// two cells does not fit a cell.
pub fn matrix_sum(a: &Matrix, b: &Matrix) -> (sum: Option<Matrix>)
    ensures
        sum is Some <==> can_add(*a, *b),
        sum is Some ==> {
            &&& sum->0.rows == a.rows && sum->0.cols == a.cols && sum->0.well_formed()
            &&& forall|k: int|
                0 <= k < sum->0.cells@.len() ==> #[trigger] sum->0.cells@[k] == a.cells@[k]
                    + b.cells@[k]
        },
{
    let count_a = a.cells.len();
    let count_b = b.cells.len();
    let shaped = match a.rows.checked_mul(a.cols) {
        Some(places) => places == count_a && places == count_b && a.rows == b.rows && a.cols
            == b.cols && a.rows <= MAX_SIDE && a.cols <= MAX_SIDE,
        None => false,
    };
    if !shaped {
        return None;
    }
    let mut k: usize = 0;
    while k < a.cells.len()
        invariant
            k <= a.cells@.len() == b.cells@.len(),
            forall|n: int|
                0 <= n < k ==> i32::MIN <= #[trigger] a.cells@[n] + b.cells@[n] <= i32::MAX,
        decreases a.cells@.len() - k,
    {
        if a.cells[k].checked_add(b.cells[k]).is_none() {
            proof {
                assert(!(i32::MIN <= a.cells@[k as int] + b.cells@[k as int] <= i32::MAX));
            }
            return None;
        }
        k = k + 1;
    }
    Some(array_sum(a, b))
}

/// The product of two matrices; `None` where `a` has not as many columns as
/// `b` has rows, or the cells are too large for the sums of products to fit
/// a cell for certain.
pub fn matrix_product(a: &Matrix, b: &Matrix) -> (product: Option<Matrix>)
    ensures
        product is Some <==> surely_multiplies(*a, *b),
        product is Some ==> {
            &&& product->0.rows == a.rows && product->0.cols == b.cols
            &&& product->0.well_formed()
            &&& forall|i: int, j: int|
                0 <= i < a.rows && 0 <= j < b.cols ==> #[trigger] product->0.at(i, j)
                    == dot_entry(*a, *b, i, j, a.cols as nat)
        },
{
    let count_a = a.cells.len();
    let count_b = b.cells.len();
    let shaped = match (a.rows.checked_mul(a.cols), b.rows.checked_mul(b.cols)) {
        (Some(pa), Some(pb)) => pa == count_a && pb == count_b && a.cols == b.rows && a.rows
            <= MAX_SIDE && a.cols <= MAX_SIDE && b.cols <= MAX_SIDE,
        _ => false,
    };
    let places = match a.rows.checked_mul(b.cols) {
        Some(places) => places <= MAX_SIDE,
        None => false,
    };
    if !shaped || !places {
        return None;
    }
    let la = reach(a);
    let lb = reach(b);
    proof {
        lemma_reach_holds(a.cells@);
        lemma_reach_holds(b.cells@);
        assert(la * lb <= 0x8000_0000 * 0x8000_0000) by (nonlinear_arith)
            requires
                0 <= la <= 0x8000_0000,
                0 <= lb <= 0x8000_0000,
        ;
    }
    let span: u128 = (la as u128) * (lb as u128);
    proof {
        assert(a.cols * span <= 0xFFFF_FFFF_FFFF_FFFF * (0x8000_0000 * 0x8000_0000))
            by (nonlinear_arith)
            requires
                0 <= a.cols <= 0xFFFF_FFFF_FFFF_FFFF,
                0 <= span <= 0x8000_0000 * 0x8000_0000,
        ;
    }
    let bound: u128 = (a.cols as u128) * span;
    proof {
        assert(a.cols * la * lb == bound) by (nonlinear_arith)
            requires
                bound == a.cols * span,
                span == la * lb,
        ;
    }
    if bound > 0x7FFF_FFFF {
        return None;
    }
    proof {
        assert(a.within(la as int) && b.within(lb as int));
    }
    Some(array_dot(a, b))
}

/// The sum and the product that the demonstration shows: the sum of
///
/// ```text
/// 1 2 3       6 5 4
/// 4 5 6  and  3 2 1
/// ```
///
/// and the product of the first of these with
///
/// ```text
/// 6 3
/// 5 2
/// 4 1
/// ```
pub fn basics() -> (shown: Option<(Matrix, Matrix)>)
    ensures
        shown is Some,
        ({
            let (sum, product) = shown->0;
            &&& sum.rows == 2 && sum.cols == 3 && sum.cells@ == seq![7i32, 7, 7, 7, 7, 7]
            &&& product.rows == 2 && product.cols == 2 && product.cells@ == seq![
                28i32,
                10,
                73,
                28,
            ]
        }),
{
    let a = Matrix { rows: 2, cols: 3, cells: vec![1, 2, 3, 4, 5, 6] };
    let b = Matrix { rows: 2, cols: 3, cells: vec![6, 5, 4, 3, 2, 1] };
    let c = Matrix { rows: 3, cols: 2, cells: vec![6, 3, 5, 2, 4, 1] };
    proof {
        assert(a.cells@.len() == 6 && b.cells@.len() == 6 && c.cells@.len() == 6);
        assert(a.rows * a.cols == 6 && b.rows * b.cols == 6 && c.rows * c.cols == 6 && a.rows
            * c.cols == 4) by (nonlinear_arith)
            requires
                a.rows == 2 && a.cols == 3,
                b.rows == 2 && b.cols == 3,
                c.rows == 3 && c.cols == 2,
        ;
        lemma_reach_six(a.cells@);
        lemma_reach_six(c.cells@);
        assert(a.cols * reach_of(a.cells@) * reach_of(c.cells@) <= 3 * 6 * 6) by (nonlinear_arith)
            requires
                a.cols == 3,
                0 <= reach_of(a.cells@) <= 6,
                0 <= reach_of(c.cells@) <= 6,
        ;
    }
    let sum = match matrix_sum(&a, &b) {
        Some(sum) => sum,
        None => {
            return None;
        },
    };
    let product = match matrix_product(&a, &c) {
        Some(product) => product,
        None => {
            return None;
        },
    };
    proof {
        assert(sum.cells@ =~= seq![7i32, 7, 7, 7, 7, 7]);
        reveal_with_fuel(dot_entry, 4);
        assert(a.at(0, 0) == 1 && a.at(0, 1) == 2 && a.at(0, 2) == 3);
        assert(a.at(1, 0) == 4 && a.at(1, 1) == 5 && a.at(1, 2) == 6);
        assert(c.at(0, 0) == 6 && c.at(1, 0) == 5 && c.at(2, 0) == 4);
        assert(c.at(0, 1) == 3 && c.at(1, 1) == 2 && c.at(2, 1) == 1);
        assert(dot_entry(a, c, 0, 0, 3) == 28);
        assert(dot_entry(a, c, 0, 1, 3) == 10);
        assert(dot_entry(a, c, 1, 0, 3) == 73);
        assert(dot_entry(a, c, 1, 1, 3) == 28);
        assert(product.at(0, 0) == 28);
        assert(product.at(0, 1) == 10);
        assert(product.at(1, 0) == 73);
        assert(product.at(1, 1) == 28);
        assert(product.cells@.len() == 4) by (nonlinear_arith)
            requires
                product.cells@.len() == product.rows * product.cols,
                product.rows == 2,
                product.cols == 2,
        ;
        assert(product.cells@ =~= seq![28i32, 10, 73, 28]);
    }
    Some((sum, product))
}

/// Six cells between 0 and 6 reach no further than 6.
pub proof fn lemma_reach_six(cells: Seq<i32>)
    requires
        cells.len() == 6,
        forall|k: int| 0 <= k < 6 ==> 0 <= #[trigger] cells[k] <= 6,
    ensures
        0 <= reach_of(cells) <= 6,
{
    lemma_reach_bounded(cells, 6);
}

/// Cells within a limit reach no further than the limit.
pub proof fn lemma_reach_bounded(cells: Seq<i32>, limit: int)
    requires
        limit >= 0,
        forall|k: int| 0 <= k < cells.len() ==> -limit <= #[trigger] cells[k] <= limit,
    ensures
        0 <= reach_of(cells) <= limit,
    decreases cells.len(),
{
    if cells.len() > 0 {
        assert forall|k: int| 0 <= k < cells.drop_last().len() implies -limit
            <= #[trigger] cells.drop_last()[k] <= limit by {
            assert(cells.drop_last()[k] == cells[k]);
        }
        lemma_reach_bounded(cells.drop_last(), limit);
        assert(-limit <= cells[cells.len() - 1] <= limit);
    }
}

} // verus!
