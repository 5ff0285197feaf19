//! Exact integer statistics: sums, a verified sort, and an integer
//! square root.  All statistics of the pipeline are computed in
//! 128-bit arithmetic over the fixed-point sample values, so every
//! threshold comparison is exact.

use vstd::prelude::*;
use vstd::multiset::Multiset;
use crate::types::MAX_ABS_VALUE;

verus! {

/// Sum of a value sequence.
pub open spec fn sum_seq(s: Seq<i64>) -> int
    decreases s.len(),
{
    if s.len() == 0 {
        0
    } else {
        sum_seq(s.drop_last()) + s.last()
    }
}

/// Sum of the squares of a value sequence.
pub open spec fn sum_sq_seq(s: Seq<i64>) -> int
    decreases s.len(),
{
    if s.len() == 0 {
        0
    } else {
        sum_sq_seq(s.drop_last()) + s.last() * s.last()
    }
}

/// All values of a sequence within the fixed-point bound.
pub open spec fn bounded_values(s: Seq<i64>) -> bool {
    forall|i: int| 0 <= i < s.len() ==> -MAX_ABS_VALUE <= #[trigger] s[i] <= MAX_ABS_VALUE
}

/// Sum of `values[lo..hi]`, exact in 128-bit arithmetic.
pub fn sum_range(values: &Vec<i64>, lo: usize, hi: usize) -> (r: i128)
    requires
        lo <= hi <= values@.len(),
        bounded_values(values@),
    ensures
        r == sum_seq(values@.subrange(lo as int, hi as int)),
        -(MAX_ABS_VALUE as int) * (hi - lo) <= r <= (MAX_ABS_VALUE as int) * (hi - lo),
{
    let mut acc: i128 = 0;
    let mut i: usize = lo;
    proof {
        assert(values@.subrange(lo as int, lo as int) =~= Seq::<i64>::empty());
    }
    while i < hi
        invariant
            lo <= i <= hi <= values@.len(),
            bounded_values(values@),
            acc == sum_seq(values@.subrange(lo as int, i as int)),
            -(MAX_ABS_VALUE as int) * (i - lo) <= acc <= (MAX_ABS_VALUE as int) * (i - lo),
        decreases hi - i,
    {
        proof {
            assert(values@.subrange(lo as int, i + 1int).drop_last() =~= values@.subrange(
                lo as int,
                i as int,
            ));
            assert(values@.subrange(lo as int, i + 1int).last() == values@[i as int]);
            assert(-MAX_ABS_VALUE <= values@[i as int] <= MAX_ABS_VALUE);
            let n = i + 1 - lo;
            assert(0 < n <= 18446744073709551616);
            assert((MAX_ABS_VALUE as int) * n == (MAX_ABS_VALUE as int) * (n - 1)
                + MAX_ABS_VALUE && -(MAX_ABS_VALUE as int) * n == -(MAX_ABS_VALUE as int) * (n
                - 1) - MAX_ABS_VALUE && (MAX_ABS_VALUE as int) * n
                <= 18446744073709551616000000000 && -(MAX_ABS_VALUE as int) * n
                >= -18446744073709551616000000000) by (nonlinear_arith)
                requires
                    0 < n <= 18446744073709551616,
                    MAX_ABS_VALUE == 1000000000,
            {
            }
        }
        acc = acc + values[i] as i128;
        i += 1;
    }
    acc
}

/// Sum of the squares of `values[lo..hi]`, exact in 128-bit arithmetic.
pub fn sum_sq_range(values: &Vec<i64>, lo: usize, hi: usize) -> (r: i128)
    requires
        lo <= hi <= values@.len(),
        bounded_values(values@),
    ensures
        r == sum_sq_seq(values@.subrange(lo as int, hi as int)),
        0 <= r <= (MAX_ABS_VALUE as int) * (MAX_ABS_VALUE as int) * (hi - lo),
{
    let ghost b2 = (MAX_ABS_VALUE as int) * (MAX_ABS_VALUE as int);
    let mut acc: i128 = 0;
    let mut i: usize = lo;
    proof {
        assert(values@.subrange(lo as int, lo as int) =~= Seq::<i64>::empty());
    }
    while i < hi
        invariant
            lo <= i <= hi <= values@.len(),
            bounded_values(values@),
            b2 == (MAX_ABS_VALUE as int) * (MAX_ABS_VALUE as int),
            acc == sum_sq_seq(values@.subrange(lo as int, i as int)),
            0 <= acc <= b2 * (i - lo),
        decreases hi - i,
    {
        proof {
            assert(values@.subrange(lo as int, i + 1int).drop_last() =~= values@.subrange(
                lo as int,
                i as int,
            ));
            assert(values@.subrange(lo as int, i + 1int).last() == values@[i as int]);
            assert(-MAX_ABS_VALUE <= values@[i as int] <= MAX_ABS_VALUE);
            let v = values@[i as int] as int;
            let n = i + 1 - lo;
            assert(0 < n <= 18446744073709551616);
            assert(0 <= v * v <= b2 && b2 * n == b2 * (n - 1) + b2 && b2 * n
                <= 18446744073709551616000000000000000000) by (nonlinear_arith)
                requires
                    -MAX_ABS_VALUE <= v <= MAX_ABS_VALUE,
                    MAX_ABS_VALUE == 1000000000,
                    b2 == (MAX_ABS_VALUE as int) * (MAX_ABS_VALUE as int),
                    0 < n <= 18446744073709551616,
            {
            }
        }
        let v = values[i] as i128;
        acc = acc + v * v;
        i += 1;
    }
    acc
}

/// Where a value lands in an ascending sequence: before the first
/// strictly larger element.
pub open spec fn insert_sorted(s: Seq<i64>, v: i64) -> Seq<i64>
    decreases s.len(),
{
    if s.len() == 0 {
        seq![v]
    } else if s[0] <= v {
        seq![s[0]] + insert_sorted(s.drop_first(), v)
    } else {
        seq![v] + s
    }
}

/// The ascending ordering of a value sequence, by repeated insertion.
pub open spec fn sort_spec(s: Seq<i64>) -> Seq<i64>
    decreases s.len(),
{
    if s.len() == 0 {
        Seq::empty()
    } else {
        insert_sorted(sort_spec(s.drop_last()), s.last())
    }
}

pub open spec fn sorted_asc(s: Seq<i64>) -> bool {
    forall|i: int, j: int| 0 <= i <= j < s.len() ==> s[i] <= s[j]
}

proof fn lemma_insert_sorted_props(s: Seq<i64>, v: i64)
    requires
        sorted_asc(s),
    ensures
        sorted_asc(insert_sorted(s, v)),
        insert_sorted(s, v).to_multiset() == s.to_multiset().insert(v),
        insert_sorted(s, v).len() == s.len() + 1,
    decreases s.len(),
{
    broadcast use vstd::seq_lib::group_to_multiset_ensures;

    if s.len() == 0 {
        assert(insert_sorted(s, v) =~= Seq::empty().push(v));
        assert(Seq::<i64>::empty().push(v).to_multiset() =~= Seq::<i64>::empty().to_multiset().insert(v));
    } else if s[0] <= v {
        let rest = s.drop_first();
        assert(sorted_asc(rest)) by {
            assert(forall|i: int, j: int|
                0 <= i <= j < rest.len() ==> rest[i] == s[i + 1] && rest[j] == s[j + 1]);
        }
        lemma_insert_sorted_props(rest, v);
        let inner = insert_sorted(rest, v);
        let out = insert_sorted(s, v);
        assert(out =~= seq![s[0]] + inner);
        // every element of the inserted tail is at least s[0]
        assert forall|k: int| 0 <= k < inner.len() implies s[0] <= inner[k] by {
            assert(inner.to_multiset().count(inner[k]) > 0);
            if inner[k] == v {
            } else {
                assert(rest.to_multiset().count(inner[k]) > 0);
                assert(rest.contains(inner[k]));
            }
        }
        assert(sorted_asc(out)) by {
            assert(forall|i: int| 1 <= i < out.len() ==> out[i] == inner[i - 1]);
        }
        assert(out.to_multiset() =~= s.to_multiset().insert(v)) by {
            assert(s =~= seq![s[0]] + rest);
            vstd::seq_lib::lemma_multiset_commutative(seq![s[0]], rest);
            vstd::seq_lib::lemma_multiset_commutative(seq![s[0]], inner);
        }
    } else {
        let out = insert_sorted(s, v);
        assert(out =~= seq![v] + s);
        assert(sorted_asc(out)) by {
            assert(forall|i: int| 1 <= i < out.len() ==> out[i] == s[i - 1]);
            assert(forall|i: int| 1 <= i < out.len() ==> v <= out[i]);
        }
        vstd::seq_lib::lemma_multiset_commutative(seq![v], s);
        assert(seq![v].to_multiset() =~= Multiset::<i64>::empty().insert(v));
        assert(out.to_multiset() =~= s.to_multiset().insert(v));
    }
}

/// The ordering the sort produces is ascending and keeps exactly the
/// input values.
pub proof fn lemma_sort_spec_props(s: Seq<i64>)
    ensures
        sorted_asc(sort_spec(s)),
        sort_spec(s).to_multiset() == s.to_multiset(),
        sort_spec(s).len() == s.len(),
    decreases s.len(),
{
    broadcast use vstd::seq_lib::group_to_multiset_ensures;

    if s.len() == 0 {
        assert(sort_spec(s) =~= Seq::<i64>::empty());
    } else {
        lemma_sort_spec_props(s.drop_last());
        lemma_insert_sorted_props(sort_spec(s.drop_last()), s.last());
        assert(s =~= s.drop_last().push(s.last()));
        assert(s.drop_last().push(s.last()).to_multiset() =~= s.drop_last().to_multiset().insert(
            s.last(),
        ));
    }
}

/// A prefix whose elements are all at most `v` passes the insertion
/// point through unchanged.
proof fn lemma_insert_sorted_skip(s: Seq<i64>, v: i64, j: int)
    requires
        0 <= j <= s.len(),
        forall|k: int| 0 <= k < j ==> s[k] <= v,
    ensures
        insert_sorted(s, v) == s.take(j) + insert_sorted(s.skip(j), v),
    decreases j,
{
    if j == 0 {
        assert(s.take(0int) =~= Seq::<i64>::empty());
        assert(s.skip(0int) =~= s);
        assert(insert_sorted(s, v) =~= Seq::<i64>::empty() + insert_sorted(s, v));
    } else {
        assert(s.len() > 0 && s[0] <= v);
        let rest = s.drop_first();
        lemma_insert_sorted_skip(rest, v, j - 1);
        assert(rest.skip(j - 1) =~= s.skip(j));
        assert(s.take(j) =~= seq![s[0]] + rest.take(j - 1));
        assert(insert_sorted(s, v) =~= seq![s[0]] + (rest.take(j - 1) + insert_sorted(
            rest.skip(j - 1),
            v,
        )));
        assert(seq![s[0]] + (rest.take(j - 1) + insert_sorted(rest.skip(j - 1), v)) =~= (seq![s[0]]
            + rest.take(j - 1)) + insert_sorted(rest.skip(j - 1), v));
    }
}

/// Sort the values ascending.
pub fn sort_values(values: &Vec<i64>) -> (out: Vec<i64>)
    ensures
        out@ == sort_spec(values@),
{
    let mut out: Vec<i64> = Vec::new();
    let mut i: usize = 0;
    proof {
        assert(values@.subrange(0, 0int) =~= Seq::<i64>::empty());
    }
    while i < values.len()
        invariant
            0 <= i <= values@.len(),
            out@ == sort_spec(values@.subrange(0, i as int)),
        decreases values@.len() - i,
    {
        let v = values[i];
        let mut j: usize = 0;
        while j < out.len() && out[j] <= v
            invariant
                0 <= j <= out@.len(),
                forall|k: int| 0 <= k < j ==> out@[k] <= v,
            decreases out@.len() - j,
        {
            j += 1;
        }
        proof {
            lemma_insert_sorted_skip(out@, v, j as int);
            if j < out@.len() {
                assert(out@.skip(j as int)[0] == out@[j as int]);
                assert(insert_sorted(out@.skip(j as int), v) =~= seq![v] + out@.skip(j as int));
            } else {
                assert(out@.skip(j as int) =~= Seq::<i64>::empty());
                assert(insert_sorted(out@.skip(j as int), v) =~= seq![v]);
                assert(seq![v] =~= seq![v] + out@.skip(j as int));
            }
            assert(insert_sorted(out@, v) =~= out@.take(j as int) + seq![v] + out@.skip(j as int));
            assert(values@.subrange(0, i + 1int).drop_last() =~= values@.subrange(0, i as int));
            assert(values@.subrange(0, i + 1int).last() == values@[i as int]);
        }
        let ghost out_before = out@;
        out.insert(j, v);
        proof {
            assert(out@ =~= out_before.take(j as int) + seq![v] + out_before.skip(j as int));
        }
        i += 1;
    }
    proof {
        assert(values@.subrange(0, values@.len() as int) =~= values@);
    }
    out
}

/// Whether `r` is the rounded-down square root of `x`.
pub open spec fn is_sqrt_floor(x: int, r: int) -> bool {
    0 <= r && r * r <= x && x < (r + 1) * (r + 1)
}

/// The rounded-down square root of a non-negative integer.
pub open spec fn sqrt_floor(x: int) -> int {
    choose|r: int| is_sqrt_floor(x, r)
}

/// The rounded-down square root is unique, so any witness names it.
pub proof fn lemma_sqrt_floor_unique(x: int, r: int)
    requires
        is_sqrt_floor(x, r),
    ensures
        sqrt_floor(x) == r,
{
    assert(is_sqrt_floor(x, sqrt_floor(x)));
    let r2 = sqrt_floor(x);
    assert(r == r2) by (nonlinear_arith)
        requires
            0 <= r,
            r * r <= x,
            x < (r + 1) * (r + 1),
            0 <= r2,
            r2 * r2 <= x,
            x < (r2 + 1) * (r2 + 1),
    {
    }
}

/// The integer square root: the largest `r` with `r * r <= x`.
pub fn isqrt_u128(x: u128) -> (r: u64)
    ensures
        (r as int) * (r as int) <= x,
        x < (r + 1int) * (r + 1int),
        r == sqrt_floor(x as int),
{
    if x == 0 {
        proof {
            lemma_sqrt_floor_unique(0, 0);
        }
        return 0;
    }
    let mut lo: u128 = 0;
    let mut hi: u128 = 18446744073709551616u128;
    proof {
        assert((hi as int) * (hi as int) > u128::MAX) by (nonlinear_arith)
            requires
                hi == 18446744073709551616u128,
        {
        }
    }
    while lo + 1 < hi
        invariant
            0 <= lo < hi <= 18446744073709551616u128,
            (lo as int) * (lo as int) <= x,
            x < (hi as int) * (hi as int),
        decreases hi - lo,
    {
        let mid: u128 = lo + (hi - lo) / 2;
        proof {
            assert(lo < mid < hi);
            assert((mid as int) * (mid as int) < u128::MAX) by (nonlinear_arith)
                requires
                    0 <= mid < 18446744073709551616u128,
            {
            }
        }
        if mid * mid <= x {
            lo = mid;
        } else {
            hi = mid;
        }
    }
    proof {
        lemma_sqrt_floor_unique(x as int, lo as int);
    }
    lo as u64
}

} // verus!
