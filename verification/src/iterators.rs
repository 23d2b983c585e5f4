//! What the adaptors of an iteration give, as sequences: taking, skipping,
//! stepping, chaining, cycling, reversing, mapping, pairing and filtering.

use crate::numerals::{decimal, push_decimal};
use crate::string_manip::{chars_of, string_of};
use vstd::prelude::*;

verus! {

/// Whether `s` counts from `lo` to `hi`, both included; it is empty where
/// `lo > hi`.
pub open spec fn counts(s: Seq<i32>, lo: int, hi: int) -> bool {
    &&& s.len() == if lo <= hi {
        hi - lo + 1
    } else {
        0
    }
    &&& forall|k: int| 0 <= k < s.len() ==> s[k] == lo + k
}

/// Every `step`-th element of `s`, the first one included.
pub open spec fn every(s: Seq<i32>, step: nat) -> Seq<i32>
    recommends
        step > 0,
{
    Seq::new(((s.len() + step - 1) / step as int) as nat, |i: int| s[i * step])
}

/// The sum of `s`.
pub open spec fn total(s: Seq<i32>) -> int
    decreases s.len(),
{
    if s.len() == 0 {
        0
    } else {
        total(s.drop_last()) + s.last()
    }
}

/// The elements of `s` that `keep` holds of, in order.
pub open spec fn kept(s: Seq<i32>, keep: spec_fn(i32) -> bool) -> Seq<i32>
    decreases s.len(),
{
    if s.len() == 0 {
        seq![]
    } else if keep(s.last()) {
        kept(s.drop_last(), keep).push(s.last())
    } else {
        kept(s.drop_last(), keep)
    }
}

/// How many elements at the start of `s` are less than `bound`.
pub open spec fn run_below(s: Seq<i32>, bound: i32) -> nat
    decreases s.len(),
{
    if s.len() > 0 && s[0] < bound {
        1 + run_below(s.drop_first(), bound)
    } else {
        0
    }
}

/// The numbers from `lo` to `hi`, both included.
pub fn range_inclusive(lo: i32, hi: i32) -> (v: Vec<i32>)
    ensures
        counts(v@, lo as int, hi as int),
{
    let mut v: Vec<i32> = Vec::new();
    if lo > hi {
        return v;
    }
    let mut i: i32 = lo;
    loop
        invariant_except_break
            v@.len() == i - lo,
        invariant
            lo <= i <= hi,
            forall|k: int| 0 <= k < v@.len() ==> v@[k] == lo + k,
        ensures
            v@.len() == hi - lo + 1,
            forall|k: int| 0 <= k < v@.len() ==> v@[k] == lo + k,
        decreases hi - i,
    {
        v.push(i);
        if i == hi {
            break ;
        }
        i = i + 1;
    }
    v
}

/// The first `n` elements of `v`, or all where there are fewer.
pub fn take(v: &Vec<i32>, n: usize) -> (taken: Vec<i32>)
    ensures
        taken@ == v@.take(if n <= v@.len() { n as int } else { v@.len() as int }),
{
    let mut taken: Vec<i32> = Vec::new();
    let mut i: usize = 0;
    while i < n && i < v.len()
        invariant
            i <= n,
            i <= v.len(),
            taken@ == v@.take(i as int),
        decreases v.len() - i,
    {
        taken.push(v[i]);
        proof {
            assert(taken@ =~= v@.take(i + 1));
        }
        i = i + 1;
    }
    taken
}

/// `v` without its first `n` elements; nothing where there are fewer.
pub fn skip(v: &Vec<i32>, n: usize) -> (rest: Vec<i32>)
    ensures
        rest@ == v@.skip(if n <= v@.len() { n as int } else { v@.len() as int }),
{
    let from = if n <= v.len() {
        n
    } else {
        v.len()
    };
    let mut rest: Vec<i32> = Vec::new();
    let mut i: usize = from;
    while i < v.len()
        invariant
            from <= i <= v.len(),
            rest@ == v@.subrange(from as int, i as int),
        decreases v.len() - i,
    {
        rest.push(v[i]);
        proof {
            assert(rest@ =~= v@.subrange(from as int, i + 1));
        }
        i = i + 1;
    }
    proof {
        assert(v@.subrange(from as int, v@.len() as int) =~= v@.skip(from as int));
    }
    rest
}

/// Every `step`-th element of `v`, the first one included.
pub fn step_by(v: &Vec<i32>, step: usize) -> (picked: Vec<i32>)
    requires
        step > 0,
    ensures
        picked@ == every(v@, step as nat),
{
    let mut picked: Vec<i32> = Vec::new();
    let mut i: usize = 0;
    let n = v.len();
    proof {
        assert(0 * step == 0) by (nonlinear_arith);
    }
    while i < n
        invariant
            n == v.len(),
            step > 0,
            i == picked@.len() * step || (i >= n && picked@.len() * step >= n),
            picked@.len() == 0 || (picked@.len() - 1) * step < n,
            forall|k: int| 0 <= k < picked@.len() ==> picked@[k] == v@[k * step],
        decreases n - i,
    {
        proof {
            assert(picked@.len() * step + step == (picked@.len() + 1) * step)
                by (nonlinear_arith);
        }
        picked.push(v[i]);
        if n - i <= step {
            i = n;
        } else {
            i = i + step;
        }
    }
    proof {
        let count = picked@.len() as int;
        let s = step as int;
        assert(count == (n + s - 1) / s) by (nonlinear_arith)
            requires
                s > 0,
                count >= 0,
                n >= 0,
                count * s >= n,
                count == 0 || (count - 1) * s < n,
        ;
        assert(picked@ =~= every(v@, step as nat));
    }
    picked
}

/// The elements of `a`, then those of `b`.
pub fn chain(a: &Vec<i32>, b: &Vec<i32>) -> (joined: Vec<i32>)
    ensures
        joined@ == a@ + b@,
{
    let mut joined: Vec<i32> = Vec::new();
    let mut i: usize = 0;
    while i < a.len()
        invariant
            i <= a.len(),
            joined@ == a@.take(i as int),
        decreases a.len() - i,
    {
        joined.push(a[i]);
        proof {
            assert(joined@ =~= a@.take(i + 1));
        }
        i = i + 1;
    }
    let mut j: usize = 0;
    proof {
        assert(a@.take(a@.len() as int) =~= a@);
        assert(joined@ =~= a@ + b@.take(0));
    }
    while j < b.len()
        invariant
            j <= b.len(),
            joined@ == a@ + b@.take(j as int),
        decreases b.len() - j,
    {
        joined.push(b[j]);
        proof {
            assert(joined@ =~= a@ + b@.take(j + 1));
        }
        j = j + 1;
    }
    proof {
        assert(b@.take(b@.len() as int) =~= b@);
    }
    joined
}

/// The elements of `v` from the last to the first.
pub fn rev(v: &Vec<i32>) -> (turned: Vec<i32>)
    ensures
        turned@ == v@.reverse(),
{
    let mut turned: Vec<i32> = Vec::new();
    let mut i: usize = v.len();
    while i > 0
        invariant
            i <= v.len(),
            turned@.len() == v.len() - i,
            forall|k: int| 0 <= k < turned@.len() ==> turned@[k] == v@[v@.len() - 1 - k],
        decreases i,
    {
        i = i - 1;
        turned.push(v[i]);
    }
    proof {
        assert(turned@ =~= v@.reverse());
    }
    turned
}

/// The elements of `v` over and over, as long as their sum stays at most
/// `limit`: what a walk round and round `v` passes before the sum of all it
/// met exceeds `limit`.
///
/// The elements must not be negative, and their sum must be positive: the
/// walk would not end otherwise.
pub fn cycle_while_sum_at_most(v: &Vec<i32>, limit: i32) -> (walked: Vec<i32>)
    requires
        forall|k: int| 0 <= k < v@.len() ==> v@[k] >= 0,
        total(v@) > 0,
    ensures
        total(walked@) <= limit || walked@.len() == 0,
        forall|k: int| 0 <= k < walked@.len() ==> walked@[k] == v@[k % (v@.len() as int)],
        total(walked@) + v@[walked@.len() as int % (v@.len() as int)] > limit,
{
    let n = v.len();
    proof {
        if n == 0 {
            assert(total(v@) == 0);
        }
    }
    let mut walked: Vec<i32> = Vec::new();
    if limit < 0 {
        return walked;
    }
    let mut sum: i32 = 0;
    let mut idx: usize = 0;
    let mut round_start: i32 = 0;
    loop
        invariant
            n == v.len(),
            n > 0,
            limit >= 0,
            idx < n,
            0 <= round_start <= sum <= limit,
            sum == total(walked@),
            sum == round_start + total(v@.take(idx as int)),
            walked@.len() as int % (n as int) == idx,
            forall|k: int| 0 <= k < v@.len() ==> v@[k] >= 0,
            total(v@) > 0,
            forall|k: int| 0 <= k < walked@.len() ==> walked@[k] == v@[k % (n as int)],
        ensures
            total(walked@) <= limit,
            forall|k: int| 0 <= k < walked@.len() ==> walked@[k] == v@[k % (n as int)],
            total(walked@) + v@[walked@.len() as int % (n as int)] > limit,
        decreases limit - round_start, n - idx,
    {
        let i = v[idx];
        if i > limit - sum {
            break ;
        }
        let ghost before = walked@;
        proof {
            assert(v@.take(idx + 1).drop_last() =~= v@.take(idx as int));
            lemma_mod_step(before.len() as int, n as int);
        }
        sum = sum + i;
        walked.push(i);
        proof {
            assert(walked@.drop_last() =~= before);
        }
        if idx + 1 == n {
            proof {
                assert(v@.take(n as int) =~= v@);
            }
            idx = 0;
            round_start = sum;
            proof {
                assert(v@.take(0) =~= Seq::<i32>::empty());
            }
        } else {
            idx = idx + 1;
        }
    }
    walked
}

/// One step on round a cycle of `n`.
pub proof fn lemma_mod_step(k: int, n: int)
    requires
        k >= 0,
        n > 0,
    ensures
        (k + 1) % n == if k % n + 1 == n {
            0
        } else {
            k % n + 1
        },
{
    assert((k + 1) % n == if k % n + 1 == n {
        0
    } else {
        k % n + 1
    }) by (nonlinear_arith)
        requires
            k >= 0,
            n > 0,
    ;
}

/// The squares of the numbers from 0 to `up`; none where `up` is negative.
pub fn squares(up: i32) -> (v: Vec<i32>)
    requires
        up <= 46340,
    ensures
        v@.len() == if up < 0 {
            0
        } else {
            up + 1
        },
        forall|k: int| 0 <= k <= up ==> v@[k] == k * k,
{
    let mut v: Vec<i32> = Vec::new();
    let mut x: i32 = 0;
    while x <= up
        invariant
            0 <= x,
            up < 0 ==> x == 0,
            up >= 0 ==> x <= up + 1,
            up <= 46340,
            v@.len() == x,
            forall|k: int| 0 <= k < x ==> v@[k] == k * k,
        decreases up + 1 - x,
    {
        proof {
            assert(x * x <= 46340 * 46340) by (nonlinear_arith)
                requires
                    0 <= x <= 46340,
            ;
        }
        v.push(x * x);
        x = x + 1;
    }
    v
}

/// The label of `x`: `i=` and the number.
pub open spec fn label_of(x: nat) -> Seq<char> {
    "i="@ + decimal(x)
}

/// The labels of the numbers from 0 to `up`.
pub fn labels(up: u32) -> (v: Vec<String>)
    ensures
        v@.len() == up + 1,
        forall|k: int| 0 <= k <= up ==> v@[k]@ == label_of(k as nat),
{
    let mut v: Vec<String> = Vec::new();
    let mut x: u32 = 0;
    loop
        invariant_except_break
            v@.len() == x,
        invariant
            x <= up,
            forall|k: int| 0 <= k < v@.len() ==> v@[k]@ == label_of(k as nat),
        ensures
            v@.len() == up + 1,
            forall|k: int| 0 <= k <= up ==> v@[k]@ == label_of(k as nat),
        decreases up - x,
    {
        let mut text = chars_of("i=");
        push_decimal(&mut text, x as u64);
        v.push(string_of(&text));
        if x == up {
            break ;
        }
        x = x + 1;
    }
    v
}

/// Each element of `v` with its index, as `(index, element)`.
pub fn enumerate(v: &Vec<i32>) -> (numbered: Vec<(usize, i32)>)
    ensures
        numbered@.len() == v@.len(),
        forall|k: int| 0 <= k < v@.len() ==> numbered@[k] == (k as usize, v@[k]),
{
    let mut numbered: Vec<(usize, i32)> = Vec::new();
    let mut i: usize = 0;
    while i < v.len()
        invariant
            i <= v.len(),
            numbered@.len() == i,
            forall|k: int| 0 <= k < i ==> numbered@[k] == (k as usize, v@[k]),
        decreases v.len() - i,
    {
        numbered.push((i, v[i]));
        i = i + 1;
    }
    numbered
}

/// The elements of `a` and `b` in pairs, as many as the shorter has.
pub fn zip(a: &Vec<i32>, b: &Vec<i32>) -> (pairs: Vec<(i32, i32)>)
    ensures
        pairs@.len() == if a@.len() <= b@.len() { a@.len() } else { b@.len() },
        forall|k: int| 0 <= k < pairs@.len() ==> pairs@[k] == (a@[k], b@[k]),
{
    let mut pairs: Vec<(i32, i32)> = Vec::new();
    let mut i: usize = 0;
    while i < a.len() && i < b.len()
        invariant
            i <= a.len(),
            i <= b.len(),
            pairs@.len() == i,
            forall|k: int| 0 <= k < i ==> pairs@[k] == (a@[k], b@[k]),
        decreases a.len() - i,
    {
        pairs.push((a[i], b[i]));
        i = i + 1;
    }
    pairs
}

/// The elements of `v` that `divisor` divides.
pub fn filter_multiples(v: &Vec<i32>, divisor: i32) -> (multiples: Vec<i32>)
    requires
        divisor > 0,
    ensures
        multiples@ == kept(v@, |x: i32| x as int % divisor as int == 0),
{
    let mut multiples: Vec<i32> = Vec::new();
    let mut i: usize = 0;
    let ghost keep = |x: i32| x as int % divisor as int == 0;
    proof {
        assert(v@.take(0) =~= Seq::<i32>::empty());
    }
    while i < v.len()
        invariant
            i <= v.len(),
            divisor > 0,
            keep == (|x: i32| x as int % divisor as int == 0),
            multiples@ == kept(v@.take(i as int), keep),
        decreases v.len() - i,
    {
        proof {
            assert(v@.take(i + 1).drop_last() =~= v@.take(i as int));
        }
        let x = v[i];
        if is_multiple(x, divisor) {
            multiples.push(x);
        }
        i = i + 1;
    }
    proof {
        assert(v@.take(v@.len() as int) =~= v@);
    }
    multiples
}

/// Whether `divisor` divides `x`.
pub fn is_multiple(x: i32, divisor: i32) -> (divides: bool)
    requires
        divisor > 0,
    ensures
        divides == (x as int % divisor as int == 0),
{
    if x >= 0 {
        x % divisor == 0
    } else if x == i32::MIN {
        let rest = (x + divisor) % divisor;
        proof {
            vstd::arithmetic::div_mod::lemma_mod_add_multiples_vanish(
                x as int,
                divisor as int,
            );
            lemma_negated_multiple(-(x + divisor), divisor as int);
        }
        rest == 0
    } else {
        proof {
            lemma_negated_multiple(-x, divisor as int);
        }
        (-x) % divisor == 0
    }
}

/// A number is a multiple of `d` exactly where its negation is.
pub proof fn lemma_negated_multiple(x: int, d: int)
    requires
        d > 0,
    ensures
        (x % d == 0) == ((-x) % d == 0),
{
    if x % d == 0 {
        vstd::arithmetic::div_mod::lemma_fundamental_div_mod(x, d);
        let q = x / d;
        assert(-x == (-q) * d) by (nonlinear_arith)
            requires
                x == d * q + 0,
        ;
        vstd::arithmetic::div_mod::lemma_mod_multiples_basic(-q, d);
    }
    if (-x) % d == 0 {
        vstd::arithmetic::div_mod::lemma_fundamental_div_mod(-x, d);
        let q = (-x) / d;
        assert(x == (-q) * d) by (nonlinear_arith)
            requires
                -x == d * q + 0,
        ;
        vstd::arithmetic::div_mod::lemma_mod_multiples_basic(-q, d);
    }
}

/// The elements at the start of `v` that are less than `bound`.
pub fn take_while_below(v: &Vec<i32>, bound: i32) -> (taken: Vec<i32>)
    ensures
        taken@ == v@.take(run_below(v@, bound) as int),
{
    let mut taken: Vec<i32> = Vec::new();
    let mut i: usize = 0;
    proof {
        assert(v@.skip(0) =~= v@);
    }
    while i < v.len() && v[i] < bound
        invariant
            i <= v.len(),
            taken@ == v@.take(i as int),
            run_below(v@, bound) == i + run_below(v@.skip(i as int), bound),
        decreases v.len() - i,
    {
        taken.push(v[i]);
        proof {
            assert(v@.skip(i as int).drop_first() =~= v@.skip(i + 1));
            assert(taken@ =~= v@.take(i + 1));
        }
        i = i + 1;
    }
    taken
}

/// `v` without the elements at its start that are less than `bound`.
pub fn skip_while_below(v: &Vec<i32>, bound: i32) -> (rest: Vec<i32>)
    ensures
        rest@ == v@.skip(run_below(v@, bound) as int),
{
    let mut i: usize = 0;
    proof {
        assert(v@.skip(0) =~= v@);
    }
    while i < v.len() && v[i] < bound
        invariant
            i <= v.len(),
            run_below(v@, bound) == i + run_below(v@.skip(i as int), bound),
        decreases v.len() - i,
    {
        proof {
            assert(v@.skip(i as int).drop_first() =~= v@.skip(i + 1));
        }
        i = i + 1;
    }
    skip(v, i)
}

/// The rows of the first demonstration, all made of the numbers 0 to 10:
/// the numbers themselves, the first four, all but the first four, every
/// second, the numbers followed by 25 to 29, the numbers over and over while
/// their sum stays at most 100, and the numbers from the last to the first.
pub fn it_transforms_iteration_process() -> (rows: Vec<Vec<i32>>)
    ensures
        rows@.len() == 7,
        counts(rows@[0]@, 0, 10),
        rows@[1]@ == rows@[0]@.take(4),
        rows@[2]@ == rows@[0]@.skip(4),
        rows@[3]@ == every(rows@[0]@, 2),
        rows@[4]@.take(11) == rows@[0]@,
        counts(rows@[4]@.skip(11), 25, 29),
        total(rows@[5]@) <= 100,
        forall|k: int| 0 <= k < rows@[5]@.len() ==> rows@[5]@[k] == k % 11,
        total(rows@[5]@) + rows@[5]@.len() % 11 > 100,
        rows@[6]@ == rows@[0]@.reverse(),
{
    let ints_0_10 = range_inclusive(0, 10);
    proof {
        lemma_total_of_count(ints_0_10@);
    }
    let taken = take(&ints_0_10, 4);
    let skipped = skip(&ints_0_10, 4);
    let stepped = step_by(&ints_0_10, 2);
    let tail = range_inclusive(25, 29);
    let chained = chain(&ints_0_10, &tail);
    proof {
        assert(chained@.take(11) =~= ints_0_10@);
        assert(chained@.skip(11) =~= tail@);
    }
    let cycled = cycle_while_sum_at_most(&ints_0_10, 100);
    let reversed = rev(&ints_0_10);
    let mut rows: Vec<Vec<i32>> = Vec::new();
    rows.push(ints_0_10);
    rows.push(taken);
    rows.push(skipped);
    rows.push(stepped);
    rows.push(chained);
    rows.push(cycled);
    rows.push(reversed);
    rows
}

/// The numbers 0, 1, 2 and so on add up to more than nothing once there are
/// two of them.
pub proof fn lemma_total_of_count(s: Seq<i32>)
    requires
        forall|k: int| 0 <= k < s.len() ==> s[k] == k,
    ensures
        total(s) >= 0,
        s.len() >= 2 ==> total(s) > 0,
    decreases s.len(),
{
    if s.len() > 0 {
        lemma_total_of_count(s.drop_last());
    }
}

/// What the second demonstration makes of the numbers 0 to 10.
#[derive(Debug)]
pub struct Transforms {
    /// The square of each.
    pub squares: Vec<i32>,
    /// The label of each.
    pub labels: Vec<String>,
    /// The numbers from 10 down, each with its place in that order.
    pub reversed: Vec<(usize, i32)>,
    /// Each of the first five with one of 50 to 54.
    pub zipped: Vec<(i32, i32)>,
}

/// The second demonstration: squares, labels, the reversed numbers with
/// their places, and pairs with 50 to 54.
pub fn it_transforms() -> (made: Transforms)
    ensures
        made.squares@.len() == 11,
        forall|k: int| 0 <= k <= 10 ==> made.squares@[k] == k * k,
        made.labels@.len() == 11,
        forall|k: int| 0 <= k <= 10 ==> made.labels@[k]@ == label_of(k as nat),
        made.reversed@.len() == 11,
        forall|k: int| 0 <= k <= 10 ==> made.reversed@[k] == (k as usize, (10 - k) as i32),
        made.zipped@.len() == 5,
        forall|k: int| 0 <= k < 5 ==> made.zipped@[k] == (k as i32, (50 + k) as i32),
{
    let up: i32 = 10;
    let numbers = range_inclusive(0, up);
    let fifties = range_inclusive(50, 54);
    let down = rev(&numbers);
    proof {
        assert(forall|k: int| 0 <= k <= 10 ==> down@[k] == numbers@[10 - k]);
    }
    Transforms {
        squares: squares(up),
        labels: labels(10),
        reversed: enumerate(&down),
        zipped: zip(&numbers, &fifties),
    }
}

/// The rows of the third demonstration, all made of the numbers 0 to 10:
/// the multiples of three, the numbers before the first that is not below
/// three, and the numbers from that one on.
pub fn it_filter() -> (rows: Vec<Vec<i32>>)
    ensures
        rows@.len() == 3,
        rows@[0]@ == seq![0i32, 3, 6, 9],
        counts(rows@[1]@, 0, 2),
        counts(rows@[2]@, 3, 10),
{
    let numbers = range_inclusive(0, 10);
    let multiples = filter_multiples(&numbers, 3);
    let below = take_while_below(&numbers, 3);
    let from = skip_while_below(&numbers, 3);
    proof {
        let keep = |x: i32| x as int % 3int == 0;
        let s = numbers@;
        assert(s.take(0) =~= Seq::<i32>::empty());
        assert(s.take(1).drop_last() =~= s.take(0));
        assert(s.take(2).drop_last() =~= s.take(1));
        assert(s.take(3).drop_last() =~= s.take(2));
        assert(s.take(4).drop_last() =~= s.take(3));
        assert(s.take(5).drop_last() =~= s.take(4));
        assert(s.take(6).drop_last() =~= s.take(5));
        assert(s.take(7).drop_last() =~= s.take(6));
        assert(s.take(8).drop_last() =~= s.take(7));
        assert(s.take(9).drop_last() =~= s.take(8));
        assert(s.take(10).drop_last() =~= s.take(9));
        assert(s.take(11).drop_last() =~= s.take(10));
        assert(s.take(11) =~= s);
        assert(kept(s.take(0), keep) =~= Seq::<i32>::empty());
        assert(kept(s.take(1), keep) =~= seq![0i32]);
        assert(kept(s.take(2), keep) =~= seq![0i32]);
        assert(kept(s.take(3), keep) =~= seq![0i32]);
        assert(kept(s.take(4), keep) =~= seq![0i32, 3]);
        assert(kept(s.take(5), keep) =~= seq![0i32, 3]);
        assert(kept(s.take(6), keep) =~= seq![0i32, 3]);
        assert(kept(s.take(7), keep) =~= seq![0i32, 3, 6]);
        assert(kept(s.take(8), keep) =~= seq![0i32, 3, 6]);
        assert(kept(s.take(9), keep) =~= seq![0i32, 3, 6]);
        assert(kept(s.take(10), keep) =~= seq![0i32, 3, 6, 9]);
        assert(kept(s.take(11), keep) =~= seq![0i32, 3, 6, 9]);
        assert(s.skip(1) =~= s.drop_first());
        assert(s.skip(2) =~= s.skip(1).drop_first());
        assert(s.skip(3) =~= s.skip(2).drop_first());
        assert(run_below(s.skip(3), 3) == 0);
        assert(run_below(s.skip(2), 3) == 1);
        assert(run_below(s.skip(1), 3) == 2);
        assert(run_below(s, 3) == 3);
    }
    let mut rows: Vec<Vec<i32>> = Vec::new();
    rows.push(multiples);
    rows.push(below);
    rows.push(from);
    rows
}

/// The numbers of the range `1..6` and those of the range `1..=6`.
pub fn ranges() -> (rows: (Vec<i32>, Vec<i32>))
    ensures
        counts(rows.0@, 1, 5),
        counts(rows.1@, 1, 6),
{
    (range_inclusive(1, 5), range_inclusive(1, 6))
}

/// What an iterator over three colours gives in four steps: each colour,
/// then nothing.
pub fn basic_usage() -> (steps: Vec<Option<&'static str>>)
    ensures
        steps@.len() == 4,
        steps@[0] is Some && steps@[0]->0@ == "Red"@,
        steps@[1] is Some && steps@[1]->0@ == "Yellow"@,
        steps@[2] is Some && steps@[2]->0@ == "Green"@,
        steps@[3] is None,
{
    let mut colors: Vec<&'static str> = Vec::new();
    colors.push("Red");
    colors.push("Yellow");
    colors.push("Green");
    let mut steps: Vec<Option<&'static str>> = Vec::new();
    let mut next: usize = 0;
    while steps.len() < 4
        invariant
            colors@.len() == 3,
            colors@[0]@ == "Red"@,
            colors@[1]@ == "Yellow"@,
            colors@[2]@ == "Green"@,
            steps@.len() <= 4,
            next == if steps@.len() <= 3 { steps@.len() } else { 3 },
            forall|k: int| 0 <= k < steps@.len() && k < 3 ==> (#[trigger] steps@[k]) == Some(colors@[k]),
            steps@.len() == 4 ==> steps@[3] is None,
        decreases 4 - steps@.len(),
    {
        if next < colors.len() {
            steps.push(Some(colors[next]));
            next = next + 1;
        } else {
            steps.push(None);
        }
    }
    steps
}

} // verus!
