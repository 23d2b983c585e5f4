//! The largest element of a slice, found by halving the slice and searching
//! both halves at once, and the reduction of ages to a sum and a count.

use vstd::prelude::*;

verus! {

/// Slices up to this length are searched directly.
pub const THRESHOLD: usize = 2;

/// Whether `max` is the largest element of `s`: `None` for an empty `s`,
/// and otherwise an element of `s` that none exceeds.
pub open spec fn is_max_of(s: Seq<i32>, max: Option<i32>) -> bool {
    match max {
        None => s.len() == 0,
        Some(m) => s.contains(m) && forall|i: int| 0 <= i < s.len() ==> s[i] <= m,
    }
}

/// The larger of two results, where no result is less than any.
pub open spec fn larger(a: Option<i32>, b: Option<i32>) -> Option<i32> {
    match (a, b) {
        (None, _) => b,
        (_, None) => a,
        (Some(x), Some(y)) => if x >= y {
            a
        } else {
            b
        },
    }
}

/// `crossbeam::scope` with two threads from `Scope::spawn`, one for each
/// slice, and `ScopedJoinHandle::join` on both: each thread runs `find_max`
/// on its slice, and the two results come back as the threads returned them.
#[verifier::external_body]
fn find_max_of_both(left: &[i32], right: &[i32]) -> (found: (Option<i32>, Option<i32>))
    ensures
        is_max_of(left@, found.0),
        is_max_of(right@, found.1),
{
    crossbeam::scope(|s| {
        let thread_l = s.spawn(|_| find_max(left));
        let thread_r = s.spawn(|_| find_max(right));
        (thread_l.join().unwrap(), thread_r.join().unwrap())
    }).unwrap()
}

/// The larger of two results.
pub fn max_of_two(a: Option<i32>, b: Option<i32>) -> (max: Option<i32>)
    ensures
        max == larger(a, b),
{
    match (a, b) {
        (None, _) => b,
        (_, None) => a,
        (Some(x), Some(y)) => if x >= y {
            a
        } else {
            b
        },
    }
}

/// The largest element of `arr`, `None` where it is empty.
///
/// A slice longer than `THRESHOLD` is split in the middle, and its halves are
/// searched by two threads.
pub fn find_max(arr: &[i32]) -> (max: Option<i32>)
    ensures
        is_max_of(arr@, max),
{
    if arr.len() <= THRESHOLD {
        let mut max: Option<i32> = None;
        let mut i: usize = 0;
        while i < arr.len()
            invariant
                i <= arr.len(),
                is_max_of(arr@.take(i as int), max),
            decreases arr.len() - i,
        {
            proof {
                lemma_max_joined(arr@.take(i as int), seq![arr@[i as int]], max, Some(arr@[i as int]));
                assert(seq![arr@[i as int]][0] == arr@[i as int]);
                assert(arr@.take(i as int) + seq![arr@[i as int]] =~= arr@.take(i + 1));
            }
            max = max_of_two(max, Some(arr[i]));
            i = i + 1;
        }
        proof {
            assert(arr@.take(arr.len() as int) =~= arr@);
        }
        return max;
    }
    let mid = arr.len() / 2;
    let left = vstd::slice::slice_subrange(arr, 0, mid);
    let right = vstd::slice::slice_subrange(arr, mid, arr.len());
    let (max_l, max_r) = find_max_of_both(left, right);
    proof {
        lemma_max_joined(left@, right@, max_l, max_r);
        assert(left@ + right@ =~= arr@);
    }
    max_of_two(max_l, max_r)
}

/// The largest of 1, 25, -4, 10 and 26.
pub fn short_lived_threads() -> (max: Option<i32>)
    ensures
        max == Some(26i32),
{
    let arr: [i32; 5] = [1, 25, -4, 10, 26];
    let max = find_max(arr.as_slice());
    proof {
        assert(arr@[4] == 26);
        assert(arr@[0] == 1 && arr@[1] == 25 && arr@[2] == -4 && arr@[3] == 10);
        let m = max->0;
        let i = choose|i: int| 0 <= i < arr@.len() && arr@[i] == m;
        assert(arr@[4] <= m);
    }
    max
}

/// The largest element of two sequences joined is the larger of their
/// largest elements.
pub proof fn lemma_max_joined(a: Seq<i32>, b: Seq<i32>, max_a: Option<i32>, max_b: Option<i32>)
    requires
        is_max_of(a, max_a),
        is_max_of(b, max_b),
    ensures
        is_max_of(a + b, larger(max_a, max_b)),
{
    let all = a + b;
    match larger(max_a, max_b) {
        None => {},
        Some(m) => {
            if max_a == Some(m) {
                let i = choose|i: int| 0 <= i < a.len() && a[i] == m;
                assert(all[i] == m);
            } else {
                let i = choose|i: int| 0 <= i < b.len() && b[i] == m;
                assert(all[a.len() + i] == m);
            }
            assert forall|i: int| 0 <= i < all.len() implies all[i] <= m by {
                if i < a.len() {
                    assert(all[i] == a[i]);
                } else {
                    assert(all[i] == b[i - a.len()]);
                }
            }
        },
    }
}

/// A sequence has at most one largest element.
pub proof fn lemma_max_unique(s: Seq<i32>, m1: Option<i32>, m2: Option<i32>)
    requires
        is_max_of(s, m1),
        is_max_of(s, m2),
    ensures
        m1 == m2,
{
    match (m1, m2) {
        (Some(x), Some(y)) => {
            let i = choose|i: int| 0 <= i < s.len() && s[i] == x;
            let j = choose|j: int| 0 <= j < s.len() && s[j] == y;
            assert(s[i] <= y);
            assert(s[j] <= x);
        },
        (Some(x), None) => {
            let i = choose|i: int| 0 <= i < s.len() && s[i] == x;
        },
        (None, Some(y)) => {
            let j = choose|j: int| 0 <= j < s.len() && s[j] == y;
        },
        (None, None) => {},
    }
}

/// The sum of the ages above `limit`.
pub open spec fn sum_over(ages: Seq<u32>, limit: u32) -> nat
    decreases ages.len(),
{
    if ages.len() == 0 {
        0
    } else {
        sum_over(ages.drop_last(), limit) + if ages.last() > limit {
            ages.last() as nat
        } else {
            0nat
        }
    }
}

/// How many ages are above `limit`.
pub open spec fn count_over(ages: Seq<u32>, limit: u32) -> nat
    decreases ages.len(),
{
    if ages.len() == 0 {
        0
    } else {
        count_over(ages.drop_last(), limit) + if ages.last() > limit {
            1nat
        } else {
            0nat
        }
    }
}

/// The sum of the ages above `limit` and their number: the two numbers
/// whose quotient is the average age of those above the limit.
pub fn terms_over(ages: &[u32], limit: u32) -> (terms: (u128, usize))
    ensures
        terms == (sum_over(ages@, limit) as u128, count_over(ages@, limit) as usize),
        sum_over(ages@, limit) <= ages@.len() * u32::MAX,
        count_over(ages@, limit) <= ages@.len(),
{
    let mut sum: u128 = 0;
    let mut count: usize = 0;
    let mut i: usize = 0;
    proof {
        assert(ages@.take(0) =~= Seq::<u32>::empty());
        assert(0 * u32::MAX == 0) by (nonlinear_arith);
    }
    while i < ages.len()
        invariant
            i <= ages@.len(),
            sum == sum_over(ages@.take(i as int), limit),
            count == count_over(ages@.take(i as int), limit),
            sum <= i * u32::MAX,
            count <= i,
        decreases ages@.len() - i,
    {
        proof {
            assert(ages@.take(i + 1).drop_last() =~= ages@.take(i as int));
            assert(i * u32::MAX + u32::MAX == (i + 1) * u32::MAX) by (nonlinear_arith);
            assert((i + 1) * u32::MAX <= 0x1_0000_0000_0000_0000 * u32::MAX) by (nonlinear_arith)
                requires
                    i + 1 <= 0x1_0000_0000_0000_0000,
            ;
        }
        if ages[i] > limit {
            sum = sum + ages[i] as u128;
            count = count + 1;
        }
        i = i + 1;
    }
    proof {
        assert(ages@.take(ages@.len() as int) =~= ages@);
    }
    (sum, count)
}

} // verus!
