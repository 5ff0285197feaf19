//! Stage 2: outlier removal over the base-filtered population, by the
//! interquartile-range or the z-score method.
//!
//! Both rules are stated and computed exactly over the fixed-point
//! integers.  The z-score rule `|v - mean| / stddev <= 3` is multiplied
//! through by `n * n` to become `(n*v - s)^2 <= 9 * (n*q - s^2)` over
//! the sum `s` and the sum of squares `q`; when the standard deviation
//! is zero both sides are zero and no sample is rejected.  The
//! quartile bounds `[Q1 - 1.5*IQR, Q3 + 1.5*IQR]` are multiplied
//! through by 8: with `a = 4*Q1` and `b = 4*Q3` integral, a value is
//! kept when `5*a - 3*b <= 8*v <= 5*b - 3*a`.

use vstd::prelude::*;
use crate::mathx::{
    bounded_values, sort_spec, sort_values, sum_range, sum_seq, sum_sq_range, sum_sq_seq,
    lemma_sort_spec_props, sorted_asc,
};
use crate::strutil::str_eq_str;
use crate::types::{
    valid_samples, OutlierMethod, TelemetryData, MAX_ABS_VALUE, MAX_STAT_LEN,
    outlier_method_of_tag,
};

verus! {

/// The value column of a sample sequence.
pub open spec fn values_of(s: Seq<TelemetryData>) -> Seq<i64> {
    s.map_values(|d: TelemetryData| d.value)
}

pub fn extract_values(data: &Vec<TelemetryData>) -> (out: Vec<i64>)
    ensures
        out@ == values_of(data@),
{
    let mut out: Vec<i64> = Vec::new();
    let mut i: usize = 0;
    while i < data.len()
        invariant
            0 <= i <= data@.len(),
            out@ == values_of(data@.subrange(0, i as int)),
        decreases data@.len() - i,
    {
        proof {
            assert(data@.subrange(0, i + 1int) =~= data@.subrange(0, i as int).push(
                data@[i as int],
            ));
            assert(values_of(data@.subrange(0, i as int).push(data@[i as int])) =~= values_of(
                data@.subrange(0, i as int),
            ).push(data@[i as int].value));
        }
        out.push(data[i].value);
        i += 1;
    }
    proof {
        assert(data@.subrange(0, data@.len() as int) =~= data@);
    }
    out
}

/// Whether the z-score rule keeps value `v` against the population
/// `values`: `(n*v - s)^2 <= 9 * (n*q - s^2)`, the exact integer form
/// of `|v - mean| <= 3 * stddev`.
pub open spec fn zscore_keep(values: Seq<i64>, v: i64) -> bool {
    let n = values.len() as int;
    let s = sum_seq(values);
    let q = sum_sq_seq(values);
    (n * v - s) * (n * v - s) <= 9 * (n * q - s * s)
}

/// Four times the linearly-interpolated quartile of an ascending
/// sequence, at fraction `mult / 4` of the way through.
pub open spec fn quartile4(sorted: Seq<i64>, mult: int) -> int
    recommends
        1 <= sorted.len(),
        mult == 1 || mult == 3,
{
    let t = mult * (sorted.len() - 1);
    let lo = t / 4;
    let rem = t % 4;
    if rem == 0 {
        4 * sorted[lo]
    } else {
        4 * sorted[lo] + rem * (sorted[lo + 1] - sorted[lo])
    }
}

/// Whether the interquartile rule keeps value `v` against the
/// population `values`: within `[Q1 - 1.5*IQR, Q3 + 1.5*IQR]`
/// inclusive, stated over the integral `a = 4*Q1` and `b = 4*Q3`.
pub open spec fn iqr_keep(values: Seq<i64>, v: i64) -> bool {
    let sorted = sort_spec(values);
    let a = quartile4(sorted, 1);
    let b = quartile4(sorted, 3);
    5 * a - 3 * b <= 8 * v && 8 * v <= 5 * b - 3 * a
}

/// Which samples the selected outlier method keeps.
pub open spec fn outlier_keep(method: OutlierMethod, values: Seq<i64>, v: i64) -> bool {
    match method {
        OutlierMethod::Iqr => iqr_keep(values, v),
        OutlierMethod::Zscore => zscore_keep(values, v),
    }
}

/// The method a query's textual tag selects.
pub fn select_outlier_method(tag: &String) -> (m: OutlierMethod)
    ensures
        m == outlier_method_of_tag(tag@),
{
    if str_eq_str(tag.as_str(), "zscore") {
        OutlierMethod::Zscore
    } else {
        OutlierMethod::Iqr
    }
}

/// A sorted permutation of bounded values is bounded.
proof fn lemma_sorted_bounded(values: Seq<i64>)
    requires
        bounded_values(values),
    ensures
        bounded_values(sort_spec(values)),
{
    broadcast use vstd::seq_lib::group_to_multiset_ensures;

    lemma_sort_spec_props(values);
    let sorted = sort_spec(values);
    assert forall|i: int| 0 <= i < sorted.len() implies -MAX_ABS_VALUE <= #[trigger] sorted[i]
        <= MAX_ABS_VALUE by {
        assert(sorted.contains(sorted[i]));
        assert(sorted.to_multiset().count(sorted[i]) > 0);
        assert(values.to_multiset().count(sorted[i]) > 0);
        assert(values.contains(sorted[i]));
        let j = choose|j: int| 0 <= j < values.len() && values[j] == sorted[i];
        assert(-MAX_ABS_VALUE <= values[j] <= MAX_ABS_VALUE);
    }
}

/// Remove outliers by the z-score rule: keep exactly the samples whose
/// value the rule admits against the whole input population.
pub fn zscore_filter(data: &Vec<TelemetryData>) -> (out: Vec<TelemetryData>)
    requires
        valid_samples(data@),
        data@.len() <= MAX_STAT_LEN,
    ensures
        out@ == data@.filter(|d: TelemetryData| zscore_keep(values_of(data@), d.value)),
{
    let ghost pred = |d: TelemetryData| zscore_keep(values_of(data@), d.value);
    let values = extract_values(data);
    proof {
        assert(bounded_values(values@));
    }
    let n = data.len();
    let s: i128 = sum_range(&values, 0, n);
    let q: i128 = sum_sq_range(&values, 0, n);
    proof {
        assert(values@.subrange(0, n as int) =~= values@);
        assert(-1000000000000000 <= s <= 1000000000000000 && 0 <= q
            <= 1000000000000000000000000) by (nonlinear_arith)
            requires
                -(MAX_ABS_VALUE as int) * (n as int) <= s <= (MAX_ABS_VALUE as int) * (n as int),
                0 <= q <= (MAX_ABS_VALUE as int) * (MAX_ABS_VALUE as int) * (n as int),
                0 <= n <= MAX_STAT_LEN,
                MAX_STAT_LEN == 1000000,
                MAX_ABS_VALUE == 1000000000,
        {
        }
    }
    let mut out: Vec<TelemetryData> = Vec::new();
    let mut i: usize = 0;
    proof {
        assert(data@.subrange(0, 0int) =~= Seq::<TelemetryData>::empty());
        assert(Seq::<TelemetryData>::empty().filter(pred) =~= Seq::<TelemetryData>::empty());
    }
    while i < data.len()
        invariant
            0 <= i <= data@.len(),
            data@.len() == n,
            valid_samples(data@),
            n <= MAX_STAT_LEN,
            -1000000000000000 <= s <= 1000000000000000,
            0 <= q <= 1000000000000000000000000,
            s == sum_seq(values_of(data@)),
            q == sum_sq_seq(values_of(data@)),
            pred == (|d: TelemetryData| zscore_keep(values_of(data@), d.value)),
            out@ == data@.subrange(0, i as int).filter(pred),
        decreases data@.len() - i,
    {
        let v = data[i].value;
        proof {
            assert(-MAX_ABS_VALUE <= v <= MAX_ABS_VALUE);
            assert(-2000000000000000 <= (n as int) * (v as int) - s <= 2000000000000000
                && (n as int) * q <= 1000000000000000000000000000000 && 0 <= (n as int) * q)
                by (nonlinear_arith)
                requires
                    0 <= n <= 1000000,
                    -1000000000 <= v <= 1000000000,
                    -1000000000000000 <= s <= 1000000000000000,
                    0 <= q <= 1000000000000000000000000,
            {
            }
        }
        let lhs0: i128 = (n as i128) * (v as i128) - s;
        proof {
            assert(0 <= lhs0 * lhs0 <= 4000000000000000000000000000000 && 0 <= s * s
                <= 1000000000000000000000000000000) by (nonlinear_arith)
                requires
                    -2000000000000000 <= lhs0 <= 2000000000000000,
                    -1000000000000000 <= s <= 1000000000000000,
            {
            }
        }
        let lhs: i128 = lhs0 * lhs0;
        let rhs: i128 = 9 * ((n as i128) * q - s * s);
        let keep = lhs <= rhs;
        proof {
            assert(keep == zscore_keep(values_of(data@), data@[i as int].value));
            assert(data@.subrange(0, i + 1int) =~= data@.subrange(0, i as int).push(
                data@[i as int],
            ));
            data@.subrange(0, i as int).lemma_filter_push(data@[i as int], pred);
        }
        if keep {
            out.push(data[i].clone());
        }
        i += 1;
    }
    proof {
        assert(data@.subrange(0, data@.len() as int) =~= data@);
    }
    out
}

/// Remove outliers by the interquartile rule: keep exactly the samples
/// whose value lies within the whisker bounds of the whole input
/// population.
pub fn iqr_filter(data: &Vec<TelemetryData>) -> (out: Vec<TelemetryData>)
    requires
        valid_samples(data@),
        data@.len() <= MAX_STAT_LEN,
    ensures
        out@ == data@.filter(|d: TelemetryData| iqr_keep(values_of(data@), d.value)),
{
    let ghost pred = |d: TelemetryData| iqr_keep(values_of(data@), d.value);
    if data.len() == 0 {
        let empty: Vec<TelemetryData> = Vec::new();
        proof {
            assert(data@ =~= Seq::<TelemetryData>::empty());
            assert(data@.filter(pred) =~= Seq::<TelemetryData>::empty());
        }
        return empty;
    }
    let values = extract_values(data);
    proof {
        assert(bounded_values(values@));
        lemma_sorted_bounded(values@);
        lemma_sort_spec_props(values@);
    }
    let sorted = sort_values(&values);
    let n = sorted.len();
    proof {
        assert(n == data@.len());
        assert(1 <= n <= MAX_STAT_LEN);
        assert(sorted_asc(sorted@));
    }
    let a: i128 = quartile4_exec(&sorted, 1);
    let b: i128 = quartile4_exec(&sorted, 3);
    let lo_bound: i128 = 5 * a - 3 * b;
    let hi_bound: i128 = 5 * b - 3 * a;
    let mut out: Vec<TelemetryData> = Vec::new();
    let mut i: usize = 0;
    proof {
        assert(data@.subrange(0, 0int) =~= Seq::<TelemetryData>::empty());
        assert(Seq::<TelemetryData>::empty().filter(pred) =~= Seq::<TelemetryData>::empty());
    }
    while i < data.len()
        invariant
            0 <= i <= data@.len(),
            valid_samples(data@),
            a == quartile4(sort_spec(values_of(data@)), 1),
            b == quartile4(sort_spec(values_of(data@)), 3),
            -10000000000 <= a <= 10000000000,
            -10000000000 <= b <= 10000000000,
            lo_bound == 5 * a - 3 * b,
            hi_bound == 5 * b - 3 * a,
            pred == (|d: TelemetryData| iqr_keep(values_of(data@), d.value)),
            out@ == data@.subrange(0, i as int).filter(pred),
        decreases data@.len() - i,
    {
        let v = data[i].value;
        let keep = lo_bound <= 8 * (v as i128) && 8 * (v as i128) <= hi_bound;
        proof {
            assert(keep == iqr_keep(values_of(data@), data@[i as int].value));
            assert(data@.subrange(0, i + 1int) =~= data@.subrange(0, i as int).push(
                data@[i as int],
            ));
            data@.subrange(0, i as int).lemma_filter_push(data@[i as int], pred);
        }
        if keep {
            out.push(data[i].clone());
        }
        i += 1;
    }
    proof {
        assert(data@.subrange(0, data@.len() as int) =~= data@);
    }
    out
}

/// Four times the interpolated quartile of the ascending value vector.
fn quartile4_exec(sorted: &Vec<i64>, mult: usize) -> (r: i128)
    requires
        1 <= sorted@.len() <= MAX_STAT_LEN,
        bounded_values(sorted@),
        mult == 1 || mult == 3,
    ensures
        r == quartile4(sorted@, mult as int),
        -10000000000 <= r <= 10000000000,
{
    let n = sorted.len();
    let t: usize = mult * (n - 1);
    let lo: usize = t / 4;
    let rem: usize = t % 4;
    proof {
        vstd::arithmetic::div_mod::lemma_fundamental_div_mod(t as int, 4int);
        vstd::arithmetic::div_mod::lemma_mod_division_less_than_divisor(t as int, 4int);
        assert(4 * (lo as int) + rem == t);
        assert(lo < n);
        if rem > 0 {
            assert(lo + 1 < n);
        }
    }
    if rem == 0 {
        let x = sorted[lo];
        proof {
            assert(-MAX_ABS_VALUE <= x <= MAX_ABS_VALUE);
        }
        4 * (x as i128)
    } else {
        let x = sorted[lo];
        let y = sorted[lo + 1];
        proof {
            assert(-MAX_ABS_VALUE <= x <= MAX_ABS_VALUE);
            assert(-MAX_ABS_VALUE <= y <= MAX_ABS_VALUE);
            assert(-6000000000 <= (rem as int) * ((y as int) - (x as int)) <= 6000000000)
                by (nonlinear_arith)
                requires
                    0 <= rem <= 3,
                    -1000000000 <= x <= 1000000000,
                    -1000000000 <= y <= 1000000000,
            {
            }
        }
        4 * (x as i128) + (rem as i128) * ((y as i128) - (x as i128))
    }
}

/// Dispatch on the selected method.
pub fn remove_outlier_samples(data: &Vec<TelemetryData>, method: OutlierMethod) -> (out: Vec<
    TelemetryData,
>)
    requires
        valid_samples(data@),
        data@.len() <= MAX_STAT_LEN,
    ensures
        out@ == data@.filter(
            |d: TelemetryData| outlier_keep(method, values_of(data@), d.value),
        ),
{
    match method {
        OutlierMethod::Iqr => {
            let out = iqr_filter(data);
            proof {
                assert((|d: TelemetryData| outlier_keep(method, values_of(data@), d.value)) =~= (
                |d: TelemetryData| iqr_keep(values_of(data@), d.value)));
            }
            out
        }
        OutlierMethod::Zscore => {
            let out = zscore_filter(data);
            proof {
                assert((|d: TelemetryData| outlier_keep(method, values_of(data@), d.value)) =~= (
                |d: TelemetryData| zscore_keep(values_of(data@), d.value)));
            }
            out
        }
    }
}

} // verus!
