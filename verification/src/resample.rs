//! Stage 5: time-bucket resampling.
//!
//! Samples are bucketed by `floor(timestamp / interval) * interval`,
//! grouped by (target, metric) so that no bucket mixes series, and
//! each non-empty bucket is replaced by one sample: its timestamp is
//! the bucket's lower bound and its value the configured aggregate of
//! the bucket's members.  Buckets without samples are never emitted,
//! and the output is ordered by ascending timestamp.

use vstd::prelude::*;
use crate::mathx::sum_seq;
use crate::outlier::values_of;
use crate::timeutil::{bucket_start, bucket_start_spec};
use crate::types::{valid_times, SamplingMethod, TelemetryData, MAX_ABS_TIMESTAMP};

verus! {

/// The grouping key of a sample: its series and its bucket.
pub open spec fn triple_of(d: TelemetryData, interval: int) -> (Seq<char>, Seq<char>, int) {
    (d.target_name@, d.key_name@, bucket_start_spec(d.timestamp_ms as int, interval))
}

/// The grouping keys of a sample sequence, in order of first
/// appearance, each once.
pub open spec fn distinct_triples(s: Seq<TelemetryData>, interval: int) -> Seq<
    (Seq<char>, Seq<char>, int),
>
    decreases s.len(),
{
    if s.len() == 0 {
        Seq::empty()
    } else {
        let prev = distinct_triples(s.drop_last(), interval);
        let t = triple_of(s.last(), interval);
        if prev.contains(t) {
            prev
        } else {
            prev.push(t)
        }
    }
}

/// The members of one bucket of one series, in input order.
pub open spec fn group_of(
    s: Seq<TelemetryData>,
    interval: int,
    t: (Seq<char>, Seq<char>, int),
) -> Seq<TelemetryData> {
    s.filter(|d: TelemetryData| triple_of(d, interval) == t)
}

/// The bucket member first by timestamp; among equal timestamps the
/// one earliest in input order.
pub open spec fn first_sample(g: Seq<TelemetryData>) -> TelemetryData
    recommends
        g.len() > 0,
    decreases g.len(),
{
    if g.len() <= 1 {
        g[0]
    } else {
        let f = first_sample(g.drop_last());
        if g.last().timestamp_ms < f.timestamp_ms {
            g.last()
        } else {
            f
        }
    }
}

/// The bucket member last by timestamp; among equal timestamps the one
/// latest in input order.
pub open spec fn last_sample(g: Seq<TelemetryData>) -> TelemetryData
    recommends
        g.len() > 0,
    decreases g.len(),
{
    if g.len() <= 1 {
        g[0]
    } else {
        let f = last_sample(g.drop_last());
        if g.last().timestamp_ms >= f.timestamp_ms {
            g.last()
        } else {
            f
        }
    }
}

pub open spec fn max_value(g: Seq<TelemetryData>) -> i64
    recommends
        g.len() > 0,
    decreases g.len(),
{
    if g.len() <= 1 {
        g[0].value
    } else {
        let m = max_value(g.drop_last());
        if g.last().value > m {
            g.last().value
        } else {
            m
        }
    }
}

pub open spec fn min_value(g: Seq<TelemetryData>) -> i64
    recommends
        g.len() > 0,
    decreases g.len(),
{
    if g.len() <= 1 {
        g[0].value
    } else {
        let m = min_value(g.drop_last());
        if g.last().value < m {
            g.last().value
        } else {
            m
        }
    }
}

/// The mean of the bucket's values, rounded toward negative infinity.
pub open spec fn avg_value(g: Seq<TelemetryData>) -> int {
    sum_seq(values_of(g)) / (g.len() as int)
}

/// The bucket's aggregated value under the configured method.
pub open spec fn agg_value(g: Seq<TelemetryData>, m: SamplingMethod) -> int {
    match m {
        SamplingMethod::First => first_sample(g).value as int,
        SamplingMethod::Last => last_sample(g).value as int,
        SamplingMethod::Avg => avg_value(g),
        SamplingMethod::Max => max_value(g) as int,
        SamplingMethod::Min => min_value(g) as int,
    }
}

/// The one sample a non-empty bucket becomes: stamped with the
/// bucket's lower bound, named after its series, carrying the asset
/// and device of its first member and the aggregated value.
pub open spec fn agg_group(g: Seq<TelemetryData>, bucket: int, m: SamplingMethod) -> TelemetryData
    recommends
        g.len() > 0,
{
    TelemetryData {
        timestamp_ms: bucket as i64,
        asset_name: first_sample(g).asset_name,
        device_name: first_sample(g).device_name,
        target_name: g[0].target_name,
        key_name: g[0].key_name,
        value: agg_value(g, m) as i64,
    }
}

/// One aggregated sample per non-empty bucket, in order of the
/// bucket's first appearance.
pub open spec fn agg_rows(s: Seq<TelemetryData>, interval: int, m: SamplingMethod) -> Seq<
    TelemetryData,
> {
    distinct_triples(s, interval).map_values(
        |t: (Seq<char>, Seq<char>, int)| agg_group(group_of(s, interval, t), t.2, m),
    )
}

/// Where a row lands when ordering by timestamp: before the first
/// strictly later row, so rows with equal timestamps keep their order.
pub open spec fn insert_row(s: Seq<TelemetryData>, d: TelemetryData) -> Seq<TelemetryData>
    decreases s.len(),
{
    if s.len() == 0 {
        seq![d]
    } else if s[0].timestamp_ms <= d.timestamp_ms {
        seq![s[0]] + insert_row(s.drop_first(), d)
    } else {
        seq![d] + s
    }
}

/// Stable ordering of the rows by ascending timestamp.
pub open spec fn sort_rows(s: Seq<TelemetryData>) -> Seq<TelemetryData>
    decreases s.len(),
{
    if s.len() == 0 {
        Seq::empty()
    } else {
        insert_row(sort_rows(s.drop_last()), s.last())
    }
}

pub open spec fn sorted_by_ts(s: Seq<TelemetryData>) -> bool {
    forall|i: int, j: int| 0 <= i <= j < s.len() ==> s[i].timestamp_ms <= s[j].timestamp_ms
}

/// What resampling a sample sequence yields.
pub open spec fn resample_spec(s: Seq<TelemetryData>, interval: int, m: SamplingMethod) -> Seq<
    TelemetryData,
> {
    sort_rows(agg_rows(s, interval, m))
}

/// Every sample's grouping key is among the distinct keys.
proof fn lemma_distinct_complete(s: Seq<TelemetryData>, interval: int, i: int)
    requires
        0 <= i < s.len(),
    ensures
        distinct_triples(s, interval).contains(triple_of(s[i], interval)),
    decreases s.len(),
{
    if i == s.len() - 1 {
        let prev = distinct_triples(s.drop_last(), interval);
        let t = triple_of(s.last(), interval);
        if prev.contains(t) {
        } else {
            assert(distinct_triples(s, interval)[prev.len() as int] == t);
        }
    } else {
        lemma_distinct_complete(s.drop_last(), interval, i);
        let prev = distinct_triples(s.drop_last(), interval);
        let t0 = triple_of(s.drop_last()[i], interval);
        let k = choose|k: int| 0 <= k < prev.len() && prev[k] == t0;
        assert(distinct_triples(s, interval)[k] == t0);
    }
}

/// The distinct keys are pairwise distinct.
proof fn lemma_distinct_nodup(s: Seq<TelemetryData>, interval: int)
    ensures
        forall|k1: int, k2: int|
            0 <= k1 < k2 < distinct_triples(s, interval).len() ==> distinct_triples(s, interval)[k1]
                != distinct_triples(s, interval)[k2],
    decreases s.len(),
{
    if s.len() > 0 {
        lemma_distinct_nodup(s.drop_last(), interval);
        let prev = distinct_triples(s.drop_last(), interval);
        let t = triple_of(s.last(), interval);
        let dist = distinct_triples(s, interval);
        if !prev.contains(t) {
            assert forall|k1: int, k2: int| 0 <= k1 < k2 < dist.len() implies dist[k1]
                != dist[k2] by {
                if k2 == prev.len() {
                    assert(dist[k1] == prev[k1]);
                    if prev[k1] == t {
                        assert(prev.contains(prev[k1]));
                    }
                }
            }
        }
    }
}

struct BucketGroup {
    target_name: String,
    key_name: String,
    bucket: i64,
    samples: Vec<TelemetryData>,
}

/// The group with the sample's key, if one exists yet.
fn find_group(out: &Vec<BucketGroup>, d: &TelemetryData, b: i64) -> (r: Option<usize>)
    ensures
        match r {
            Some(j) => 0 <= j < out@.len() && out@[j as int].target_name@ == d.target_name@
                && out@[j as int].key_name@ == d.key_name@ && out@[j as int].bucket == b,
            None => forall|k: int|
                0 <= k < out@.len() ==> !((#[trigger] out@[k]).target_name@ == d.target_name@
                    && out@[k].key_name@ == d.key_name@ && out@[k].bucket == b),
        },
{
    let mut j: usize = 0;
    while j < out.len()
        invariant
            0 <= j <= out@.len(),
            forall|k: int|
                0 <= k < j ==> !((#[trigger] out@[k]).target_name@ == d.target_name@
                    && out@[k].key_name@ == d.key_name@ && out@[k].bucket == b),
        decreases out@.len() - j,
    {
        if out[j].target_name == d.target_name && out[j].key_name == d.key_name && out[j].bucket
            == b {
            return Some(j);
        }
        j += 1;
    }
    None
}

/// The grouping pass: one [`BucketGroup`] per distinct key, in order
/// of first appearance, holding the key's members in input order.
fn group_samples(data: &Vec<TelemetryData>, interval: i64) -> (out: Vec<BucketGroup>)
    requires
        1 <= interval <= MAX_ABS_TIMESTAMP,
        valid_times(data@),
    ensures
        out@.len() == distinct_triples(data@, interval as int).len(),
        forall|k: int|
            0 <= k < out@.len() ==> {
                let t = distinct_triples(data@, interval as int)[k];
                &&& (#[trigger] out@[k]).target_name@ == t.0
                &&& out@[k].key_name@ == t.1
                &&& out@[k].bucket == t.2
                &&& out@[k].samples@ == group_of(data@, interval as int, t)
                &&& out@[k].samples@.len() > 0
                &&& out@[k].target_name == out@[k].samples@[0].target_name
                &&& out@[k].key_name == out@[k].samples@[0].key_name
            },
{
    let ghost iv = interval as int;
    let mut out: Vec<BucketGroup> = Vec::new();
    let mut i: usize = 0;
    proof {
        assert(data@.subrange(0, 0int) =~= Seq::<TelemetryData>::empty());
    }
    while i < data.len()
        invariant
            0 <= i <= data@.len(),
            1 <= interval <= MAX_ABS_TIMESTAMP,
            iv == interval as int,
            valid_times(data@),
            out@.len() == distinct_triples(data@.subrange(0, i as int), iv).len(),
            forall|k: int|
                0 <= k < out@.len() ==> {
                    let t = distinct_triples(data@.subrange(0, i as int), iv)[k];
                    &&& (#[trigger] out@[k]).target_name@ == t.0
                    &&& out@[k].key_name@ == t.1
                    &&& out@[k].bucket == t.2
                    &&& out@[k].samples@ == group_of(data@.subrange(0, i as int), iv, t)
                    &&& out@[k].samples@.len() > 0
                    &&& out@[k].target_name == out@[k].samples@[0].target_name
                    &&& out@[k].key_name == out@[k].samples@[0].key_name
                },
        decreases data@.len() - i,
    {
        let ghost prefix = data@.subrange(0, i as int);
        let ghost prefix1 = data@.subrange(0, i + 1int);
        let d = &data[i];
        let b = bucket_start(d.timestamp_ms, interval);
        let ghost t = triple_of(data@[i as int], iv);
        proof {
            assert(prefix1 =~= prefix.push(data@[i as int]));
            assert(prefix1.drop_last() =~= prefix);
            assert(t.2 == b as int);
        }
        let search = find_group(&out, d, b);
        let ghost dist = distinct_triples(prefix, iv);
        let ghost dist1 = distinct_triples(prefix1, iv);
        if let Some(j) = search {
            proof {
                lemma_distinct_nodup(prefix, iv);
                assert(dist[j as int] == t);
                assert(dist.contains(t));
                assert(dist1 == dist);
                assert forall|k: int| 0 <= k < out@.len() implies group_of(prefix1, iv, dist[k])
                    == if dist[k] == t {
                    group_of(prefix, iv, dist[k]).push(data@[i as int])
                } else {
                    group_of(prefix, iv, dist[k])
                } by {
                    prefix.lemma_filter_push(
                        data@[i as int],
                        |x: TelemetryData| triple_of(x, iv) == dist[k],
                    );
                }
            }
            let ghost out_before = out@;
            let mut g = out.remove(j);
            let ghost g_before = g;
            g.samples.push(d.clone());
            let ghost g_after = g;
            out.insert(j, g);
            proof {
                assert(g_before == out_before[j as int]);
                assert(g_after.samples@ == g_before.samples@.push(data@[i as int]));
                assert(g_after.target_name == g_before.target_name);
                assert(g_after.key_name == g_before.key_name);
                assert(g_after.bucket == g_before.bucket);
                assert(out@ =~= out_before.update(j as int, g_after));
                assert(out@.len() == dist1.len());
                assert forall|k: int| 0 <= k < out@.len() implies ((#[trigger] out@[k]).target_name@
                    == dist1[k].0 && out@[k].key_name@ == dist1[k].1 && out@[k].bucket
                    == dist1[k].2) by {}
                assert forall|k: int| 0 <= k < out@.len() implies out@[k].samples@ == group_of(
                    prefix1,
                    iv,
                    dist1[k],
                ) by {}
                assert forall|k: int| 0 <= k < out@.len() implies (out@[k].samples@.len() > 0
                    && out@[k].target_name == out@[k].samples@[0].target_name && out@[k].key_name
                    == out@[k].samples@[0].key_name) by {}
            }
        } else {
            proof {
                assert forall|k: int| 0 <= k < dist.len() implies dist[k] != t by {
                    assert(!(out@[k].target_name@ == t.0 && out@[k].key_name@ == t.1
                        && out@[k].bucket == t.2));
                }
                assert(!dist.contains(t));
                assert(dist1 =~= dist.push(t));
                // no earlier sample belongs to the new group
                assert forall|x: TelemetryData| prefix.contains(x) implies !(triple_of(x, iv)
                    == t) by {
                    let ix = choose|ix: int| 0 <= ix < prefix.len() && prefix[ix] == x;
                    lemma_distinct_complete(prefix, iv, ix);
                }
                prefix.lemma_all_neg_filter_empty(|x: TelemetryData| triple_of(x, iv) == t);
                assert(group_of(prefix, iv, t) =~= Seq::<TelemetryData>::empty());
                prefix.lemma_filter_push(data@[i as int], |x: TelemetryData| triple_of(x, iv) == t);
                assert(group_of(prefix1, iv, t) =~= Seq::<TelemetryData>::empty().push(
                    data@[i as int],
                ));
                assert forall|k: int| 0 <= k < dist.len() implies group_of(prefix1, iv, dist[k])
                    == group_of(prefix, iv, dist[k]) by {
                    prefix.lemma_filter_push(
                        data@[i as int],
                        |x: TelemetryData| triple_of(x, iv) == dist[k],
                    );
                }
            }
            let mut samples: Vec<TelemetryData> = Vec::new();
            samples.push(d.clone());
            let g = BucketGroup {
                target_name: d.target_name.clone(),
                key_name: d.key_name.clone(),
                bucket: b,
                samples,
            };
            out.push(g);
        }
        i += 1;
    }
    proof {
        assert(data@.subrange(0, data@.len() as int) =~= data@);
    }
    out
}

/// The aggregation pass: one bucket becomes one sample.
fn aggregate_group(g: &BucketGroup, method: SamplingMethod) -> (r: TelemetryData)
    requires
        g.samples@.len() > 0,
        g.target_name == g.samples@[0].target_name,
        g.key_name == g.samples@[0].key_name,
    ensures
        r == agg_group(g.samples@, g.bucket as int, method),
{
    let s = &g.samples;
    let n = s.len();
    let mut fidx: usize = 0;
    let mut lidx: usize = 0;
    let mut mx: i64 = s[0].value;
    let mut mn: i64 = s[0].value;
    let mut sum: i128 = s[0].value as i128;
    let mut i: usize = 1;
    proof {
        let p1 = s@.subrange(0, 1int);
        assert(p1.len() == 1 && p1[0] == s@[0int]);
        assert(first_sample(p1) == s@[0int]);
        assert(last_sample(p1) == s@[0int]);
        assert(max_value(p1) == s@[0int].value);
        assert(min_value(p1) == s@[0int].value);
        assert(p1.drop_last() =~= Seq::<TelemetryData>::empty());
        assert(values_of(p1) =~= Seq::<i64>::empty().push(s@[0int].value));
        assert(values_of(p1).drop_last() =~= Seq::<i64>::empty());
        assert(sum_seq(Seq::<i64>::empty()) == 0);
        assert(values_of(p1).len() == 1);
        assert(values_of(p1).last() == s@[0int].value);
        assert(sum_seq(values_of(p1)) == sum_seq(values_of(p1).drop_last()) + values_of(
            p1,
        ).last());
        assert(sum_seq(values_of(p1)) == s@[0int].value);
    }
    while i < n
        invariant
            1 <= i <= n,
            n == s@.len(),
            0 <= fidx < i,
            0 <= lidx < i,
            s@[fidx as int] == first_sample(s@.subrange(0, i as int)),
            s@[lidx as int] == last_sample(s@.subrange(0, i as int)),
            mx == max_value(s@.subrange(0, i as int)),
            mn == min_value(s@.subrange(0, i as int)),
            sum == sum_seq(values_of(s@.subrange(0, i as int))),
            (i64::MIN as int) * (i as int) <= sum <= (i64::MAX as int) * (i as int),
        decreases n - i,
    {
        proof {
            let p = s@.subrange(0, i as int);
            let p1 = s@.subrange(0, i + 1int);
            assert(p1.drop_last() =~= p);
            assert(p1.last() == s@[i as int]);
            assert(p1.len() > 1);
            assert(values_of(p1) =~= values_of(p).push(s@[i as int].value));
            assert(values_of(p1).drop_last() =~= values_of(p));
            let c = i as int;
            assert((i64::MIN as int) * (c + 1) == (i64::MIN as int) * c + i64::MIN
                && (i64::MAX as int) * (c + 1) == (i64::MAX as int) * c + i64::MAX)
                by (nonlinear_arith);
        }
        if s[i].timestamp_ms < s[fidx].timestamp_ms {
            fidx = i;
        }
        if s[i].timestamp_ms >= s[lidx].timestamp_ms {
            lidx = i;
        }
        if s[i].value > mx {
            mx = s[i].value;
        }
        if s[i].value < mn {
            mn = s[i].value;
        }
        sum = sum + s[i].value as i128;
        i += 1;
    }
    proof {
        assert(s@.subrange(0, n as int) =~= s@);
    }
    let value: i64 = match method {
        SamplingMethod::First => s[fidx].value,
        SamplingMethod::Last => s[lidx].value,
        SamplingMethod::Avg => {
            let cnt: i128 = n as i128;
            proof {
                vstd::arithmetic::div_mod::lemma_div_is_ordered(
                    (i64::MIN as int) * (n as int),
                    sum as int,
                    n as int,
                );
                vstd::arithmetic::div_mod::lemma_div_is_ordered(
                    sum as int,
                    (i64::MAX as int) * (n as int),
                    n as int,
                );
                vstd::arithmetic::div_mod::lemma_div_multiples_vanish(
                    i64::MIN as int,
                    n as int,
                );
                vstd::arithmetic::div_mod::lemma_div_multiples_vanish(
                    i64::MAX as int,
                    n as int,
                );
                vstd::arithmetic::mul::lemma_mul_is_commutative(i64::MIN as int, n as int);
                vstd::arithmetic::mul::lemma_mul_is_commutative(i64::MAX as int, n as int);
                assert(i64::MIN <= sum as int / (n as int) <= i64::MAX);
            }
            let q: i128 = match sum.checked_div_euclid(cnt) {
                Some(x) => x,
                None => 0,
            };
            q as i64
        }
        SamplingMethod::Max => mx,
        SamplingMethod::Min => mn,
    };
    TelemetryData {
        timestamp_ms: g.bucket,
        asset_name: s[fidx].asset_name.clone(),
        device_name: s[fidx].device_name.clone(),
        target_name: g.target_name.clone(),
        key_name: g.key_name.clone(),
        value,
    }
}

/// A prefix of rows that are not later than `d` passes the insertion
/// point through unchanged.
proof fn lemma_insert_row_skip(s: Seq<TelemetryData>, d: TelemetryData, j: int)
    requires
        0 <= j <= s.len(),
        forall|k: int| 0 <= k < j ==> s[k].timestamp_ms <= d.timestamp_ms,
    ensures
        insert_row(s, d) == s.take(j) + insert_row(s.skip(j), d),
    decreases j,
{
    if j == 0 {
        assert(s.take(0int) =~= Seq::<TelemetryData>::empty());
        assert(s.skip(0int) =~= s);
        assert(insert_row(s, d) =~= Seq::<TelemetryData>::empty() + insert_row(s, d));
    } else {
        assert(s.len() > 0 && s[0].timestamp_ms <= d.timestamp_ms);
        let rest = s.drop_first();
        lemma_insert_row_skip(rest, d, j - 1);
        assert(rest.skip(j - 1) =~= s.skip(j));
        assert(s.take(j) =~= seq![s[0]] + rest.take(j - 1));
        assert(insert_row(s, d) =~= seq![s[0]] + (rest.take(j - 1) + insert_row(
            rest.skip(j - 1),
            d,
        )));
        assert(seq![s[0]] + (rest.take(j - 1) + insert_row(rest.skip(j - 1), d)) =~= (seq![s[0]]
            + rest.take(j - 1)) + insert_row(rest.skip(j - 1), d));
    }
}

/// The ordering pass: stable insertion sort by ascending timestamp.
fn sort_rows_exec(rows: &Vec<TelemetryData>) -> (out: Vec<TelemetryData>)
    ensures
        out@ == sort_rows(rows@),
{
    let mut out: Vec<TelemetryData> = Vec::new();
    let mut i: usize = 0;
    proof {
        assert(rows@.subrange(0, 0int) =~= Seq::<TelemetryData>::empty());
    }
    while i < rows.len()
        invariant
            0 <= i <= rows@.len(),
            out@ == sort_rows(rows@.subrange(0, i as int)),
        decreases rows@.len() - i,
    {
        let d = rows[i].clone();
        let mut j: usize = 0;
        while j < out.len() && out[j].timestamp_ms <= d.timestamp_ms
            invariant
                0 <= j <= out@.len(),
                d == rows@[i as int],
                forall|k: int| 0 <= k < j ==> out@[k].timestamp_ms <= d.timestamp_ms,
            decreases out@.len() - j,
        {
            j += 1;
        }
        proof {
            lemma_insert_row_skip(out@, d, j as int);
            if j < out@.len() {
                assert(out@.skip(j as int)[0] == out@[j as int]);
                assert(insert_row(out@.skip(j as int), d) =~= seq![d] + out@.skip(j as int));
            } else {
                assert(out@.skip(j as int) =~= Seq::<TelemetryData>::empty());
                assert(insert_row(out@.skip(j as int), d) =~= seq![d]);
                assert(seq![d] =~= seq![d] + out@.skip(j as int));
            }
            assert(insert_row(out@, d) =~= out@.take(j as int) + seq![d] + out@.skip(j as int));
            assert(rows@.subrange(0, i + 1int).drop_last() =~= rows@.subrange(0, i as int));
            assert(rows@.subrange(0, i + 1int).last() == rows@[i as int]);
        }
        let ghost out_before = out@;
        out.insert(j, d);
        proof {
            assert(out@ =~= out_before.take(j as int) + seq![rows@[i as int]] + out_before.skip(
                j as int,
            ));
        }
        i += 1;
    }
    proof {
        assert(rows@.subrange(0, rows@.len() as int) =~= rows@);
    }
    out
}

/// Resample a sample sequence: group by series and bucket, aggregate
/// each non-empty bucket to one sample stamped with the bucket's lower
/// bound, and order the result by ascending timestamp.
pub fn resample(data: &Vec<TelemetryData>, interval: i64, method: SamplingMethod) -> (out: Vec<
    TelemetryData,
>)
    requires
        1 <= interval <= MAX_ABS_TIMESTAMP,
        valid_times(data@),
    ensures
        out@ == resample_spec(data@, interval as int, method),
{
    let ghost iv = interval as int;
    let groups = group_samples(data, interval);
    let mut rows: Vec<TelemetryData> = Vec::new();
    let mut i: usize = 0;
    while i < groups.len()
        invariant
            0 <= i <= groups@.len(),
            iv == interval as int,
            groups@.len() == distinct_triples(data@, iv).len(),
            forall|k: int|
                0 <= k < groups@.len() ==> {
                    let t = distinct_triples(data@, iv)[k];
                    &&& (#[trigger] groups@[k]).target_name@ == t.0
                    &&& groups@[k].key_name@ == t.1
                    &&& groups@[k].bucket == t.2
                    &&& groups@[k].samples@ == group_of(data@, iv, t)
                    &&& groups@[k].samples@.len() > 0
                    &&& groups@[k].target_name == groups@[k].samples@[0].target_name
                    &&& groups@[k].key_name == groups@[k].samples@[0].key_name
                },
            rows@.len() == i,
            forall|k: int|
                0 <= k < i ==> #[trigger] rows@[k] == agg_group(
                    group_of(data@, iv, distinct_triples(data@, iv)[k]),
                    distinct_triples(data@, iv)[k].2,
                    method,
                ),
        decreases groups@.len() - i,
    {
        let r = aggregate_group(&groups[i], method);
        rows.push(r);
        i += 1;
    }
    proof {
        assert(rows@ =~= agg_rows(data@, iv, method));
    }
    sort_rows_exec(&rows)
}


/// Whether a timestamp is its own bucket's lower bound.
pub open spec fn aligned(ts: int, interval: int) -> bool {
    bucket_start_spec(ts, interval) == ts
}

proof fn lemma_insert_row_elems(s: Seq<TelemetryData>, d: TelemetryData)
    ensures
        insert_row(s, d).len() == s.len() + 1,
        forall|x: TelemetryData|
            #[trigger] insert_row(s, d).contains(x) <==> (s.contains(x) || x == d),
    decreases s.len(),
{
    if s.len() == 0 {
        assert forall|x: TelemetryData| #[trigger] insert_row(s, d).contains(x) <==> (s.contains(
            x,
        ) || x == d) by {
            assert(insert_row(s, d) =~= seq![d]);
            if x == d {
                assert(insert_row(s, d)[0] == d);
            }
        }
    } else if s[0].timestamp_ms <= d.timestamp_ms {
        let rest = s.drop_first();
        lemma_insert_row_elems(rest, d);
        let out = insert_row(s, d);
        assert(out =~= seq![s[0]] + insert_row(rest, d));
        assert forall|x: TelemetryData| #[trigger] out.contains(x) <==> (s.contains(x) || x
            == d) by {
            if out.contains(x) {
                let i = choose|i: int| 0 <= i < out.len() && out[i] == x;
                if i == 0 {
                    assert(s[0] == x);
                } else {
                    assert(insert_row(rest, d)[i - 1] == x);
                    assert(insert_row(rest, d).contains(x));
                    if rest.contains(x) {
                        let j = choose|j: int| 0 <= j < rest.len() && rest[j] == x;
                        assert(s[j + 1] == x);
                    }
                }
            }
            if s.contains(x) {
                let i = choose|i: int| 0 <= i < s.len() && s[i] == x;
                if i == 0 {
                    assert(out[0] == x);
                } else {
                    assert(rest[i - 1] == x);
                    assert(rest.contains(x));
                    assert(insert_row(rest, d).contains(x));
                    let j = choose|j: int|
                        0 <= j < insert_row(rest, d).len() && insert_row(rest, d)[j] == x;
                    assert(out[j + 1] == x);
                }
            }
            if x == d {
                assert(insert_row(rest, d).contains(x));
                let j = choose|j: int|
                    0 <= j < insert_row(rest, d).len() && insert_row(rest, d)[j] == x;
                assert(out[j + 1] == x);
            }
        }
    } else {
        let out = insert_row(s, d);
        assert(out =~= seq![d] + s);
        assert forall|x: TelemetryData| #[trigger] out.contains(x) <==> (s.contains(x) || x
            == d) by {
            if out.contains(x) {
                let i = choose|i: int| 0 <= i < out.len() && out[i] == x;
                if i > 0 {
                    assert(s[i - 1] == x);
                }
            }
            if s.contains(x) {
                let i = choose|i: int| 0 <= i < s.len() && s[i] == x;
                assert(out[i + 1] == x);
            }
            if x == d {
                assert(out[0] == x);
            }
        }
    }
}

/// No two rows equal.
pub open spec fn nodup_rows(s: Seq<TelemetryData>) -> bool {
    forall|a: int, b: int| 0 <= a < b < s.len() ==> s[a] != s[b]
}

proof fn lemma_insert_row_nodup(s: Seq<TelemetryData>, d: TelemetryData)
    requires
        nodup_rows(s),
        !s.contains(d),
    ensures
        nodup_rows(insert_row(s, d)),
    decreases s.len(),
{
    if s.len() == 0 {
        assert(insert_row(s, d) =~= seq![d]);
    } else if s[0].timestamp_ms <= d.timestamp_ms {
        let rest = s.drop_first();
        assert(forall|i: int| 0 <= i < rest.len() ==> #[trigger] rest[i] == s[i + 1]);
        assert(nodup_rows(rest));
        if rest.contains(d) {
            let j = choose|j: int| 0 <= j < rest.len() && rest[j] == d;
            assert(s[j + 1] == d);
            assert(s.contains(d));
        }
        lemma_insert_row_nodup(rest, d);
        lemma_insert_row_elems(rest, d);
        let inner = insert_row(rest, d);
        let out = insert_row(s, d);
        assert(out =~= seq![s[0]] + inner);
        assert forall|a: int, b: int| 0 <= a < b < out.len() implies out[a] != out[b] by {
            if a == 0 {
                assert(out[b] == inner[b - 1]);
                assert(inner.contains(inner[b - 1]));
                if out[0] == inner[b - 1] {
                    if rest.contains(s[0]) {
                        let j = choose|j: int| 0 <= j < rest.len() && rest[j] == s[0];
                        assert(s[j + 1] == s[0]);
                    } else {
                        assert(s[0] == d);
                        assert(s.contains(d));
                    }
                }
            } else {
                assert(out[a] == inner[a - 1] && out[b] == inner[b - 1]);
            }
        }
    } else {
        let out = insert_row(s, d);
        assert(out =~= seq![d] + s);
        assert forall|a: int, b: int| 0 <= a < b < out.len() implies out[a] != out[b] by {
            if a == 0 {
                assert(out[b] == s[b - 1]);
                assert(s.contains(s[b - 1]));
            } else {
                assert(out[a] == s[a - 1] && out[b] == s[b - 1]);
            }
        }
    }
}

proof fn lemma_insert_row_sorted(s: Seq<TelemetryData>, d: TelemetryData)
    requires
        sorted_by_ts(s),
    ensures
        sorted_by_ts(insert_row(s, d)),
    decreases s.len(),
{
    if s.len() == 0 {
    } else if s[0].timestamp_ms <= d.timestamp_ms {
        let rest = s.drop_first();
        assert(forall|i: int| 0 <= i < rest.len() ==> #[trigger] rest[i] == s[i + 1]);
        assert(sorted_by_ts(rest));
        lemma_insert_row_sorted(rest, d);
        lemma_insert_row_elems(rest, d);
        let inner = insert_row(rest, d);
        let out = insert_row(s, d);
        assert(out =~= seq![s[0]] + inner);
        assert forall|k: int| 0 <= k < inner.len() implies s[0].timestamp_ms
            <= inner[k].timestamp_ms by {
            assert(inner.contains(inner[k]));
            if rest.contains(inner[k]) {
                let j = choose|j: int| 0 <= j < rest.len() && rest[j] == inner[k];
                assert(s[0].timestamp_ms <= s[j + 1].timestamp_ms);
            } else {
                assert(inner[k] == d);
            }
        }
        assert forall|a: int, b: int| 0 <= a <= b < out.len() implies out[a].timestamp_ms
            <= out[b].timestamp_ms by {
            if a > 0 {
                assert(out[a] == inner[a - 1] && out[b] == inner[b - 1]);
            } else if b > 0 {
                assert(out[b] == inner[b - 1]);
            }
        }
    } else {
        let out = insert_row(s, d);
        assert(out =~= seq![d] + s);
        assert forall|a: int, b: int| 0 <= a <= b < out.len() implies out[a].timestamp_ms
            <= out[b].timestamp_ms by {
            if a == 0 && b > 0 {
                assert(out[b] == s[b - 1]);
                assert(d.timestamp_ms < s[0].timestamp_ms <= s[b - 1].timestamp_ms);
            } else if a > 0 {
                assert(out[a] == s[a - 1] && out[b] == s[b - 1]);
            }
        }
    }
}

/// The ordering pass is a permutation: it keeps exactly the rows,
/// keeps them distinct, and leaves them ascending by timestamp.
proof fn lemma_sort_rows_props(s: Seq<TelemetryData>)
    requires
        nodup_rows(s),
    ensures
        sort_rows(s).len() == s.len(),
        forall|x: TelemetryData| #[trigger] sort_rows(s).contains(x) <==> s.contains(x),
        nodup_rows(sort_rows(s)),
        sorted_by_ts(sort_rows(s)),
    decreases s.len(),
{
    if s.len() == 0 {
        assert(sort_rows(s) =~= Seq::<TelemetryData>::empty());
    } else {
        let prefix = s.drop_last();
        assert(forall|i: int| 0 <= i < prefix.len() ==> #[trigger] prefix[i] == s[i]);
        assert(nodup_rows(prefix));
        lemma_sort_rows_props(prefix);
        let sorted_prefix = sort_rows(prefix);
        let d = s.last();
        if sorted_prefix.contains(d) {
            assert(prefix.contains(d));
            let j = choose|j: int| 0 <= j < prefix.len() && prefix[j] == d;
            assert(s[j] == s[s.len() - 1]);
        }
        lemma_insert_row_nodup(sorted_prefix, d);
        lemma_insert_row_sorted(sorted_prefix, d);
        lemma_insert_row_elems(sorted_prefix, d);
        assert forall|x: TelemetryData| #[trigger] sort_rows(s).contains(x) <==> s.contains(
            x,
        ) by {
            if sort_rows(s).contains(x) {
                if prefix.contains(x) {
                    let j = choose|j: int| 0 <= j < prefix.len() && prefix[j] == x;
                    assert(s[j] == x);
                } else {
                    assert(x == d);
                    assert(s[s.len() - 1] == x);
                }
            }
            if s.contains(x) {
                let j = choose|j: int| 0 <= j < s.len() && s[j] == x;
                if j < s.len() - 1 {
                    assert(prefix[j] == x);
                    assert(prefix.contains(x));
                }
            }
        }
    }
}

/// An already ascending row sequence is a fixed point of the ordering
/// pass.
proof fn lemma_sort_rows_fix(s: Seq<TelemetryData>)
    requires
        sorted_by_ts(s),
    ensures
        sort_rows(s) == s,
    decreases s.len(),
{
    if s.len() == 0 {
        assert(sort_rows(s) =~= s);
    } else {
        let prefix = s.drop_last();
        assert(forall|i: int| 0 <= i < prefix.len() ==> #[trigger] prefix[i] == s[i]);
        assert(sorted_by_ts(prefix));
        lemma_sort_rows_fix(prefix);
        let d = s.last();
        assert(forall|k: int| 0 <= k < prefix.len() ==> prefix[k].timestamp_ms <= d.timestamp_ms);
        lemma_insert_row_skip(prefix, d, prefix.len() as int);
        assert(prefix.take(prefix.len() as int) =~= prefix);
        assert(prefix.skip(prefix.len() as int) =~= Seq::<TelemetryData>::empty());
        assert(insert_row(Seq::<TelemetryData>::empty(), d) =~= seq![d]);
        assert(sort_rows(s) =~= prefix + seq![d]);
        assert(prefix + seq![d] =~= s);
    }
}

/// Every distinct key belongs to some sample.
proof fn lemma_distinct_from_sample(s: Seq<TelemetryData>, interval: int, k: int)
    requires
        0 <= k < distinct_triples(s, interval).len(),
    ensures
        exists|j: int|
            0 <= j < s.len() && triple_of(#[trigger] s[j], interval) == distinct_triples(
                s,
                interval,
            )[k],
    decreases s.len(),
{
    if s.len() > 0 {
        let prev = distinct_triples(s.drop_last(), interval);
        if k < prev.len() {
            lemma_distinct_from_sample(s.drop_last(), interval, k);
            let j = choose|j: int|
                0 <= j < s.drop_last().len() && triple_of(#[trigger] s.drop_last()[j], interval)
                    == prev[k];
            assert(triple_of(s[j], interval) == distinct_triples(s, interval)[k]);
        } else {
            assert(triple_of(s[s.len() - 1], interval) == distinct_triples(s, interval)[k]);
        }
    }
}

/// The aggregation pass emits one row per distinct key, carrying that
/// key and an aligned, in-range timestamp.
proof fn lemma_agg_rows_props(s: Seq<TelemetryData>, interval: int, m: SamplingMethod)
    requires
        1 <= interval <= MAX_ABS_TIMESTAMP,
        valid_times(s),
    ensures
        agg_rows(s, interval, m).len() == distinct_triples(s, interval).len(),
        forall|k: int|
            0 <= k < agg_rows(s, interval, m).len() ==> {
                let e = #[trigger] agg_rows(s, interval, m)[k];
                &&& triple_of(e, interval) == distinct_triples(s, interval)[k]
                &&& -2 * MAX_ABS_TIMESTAMP <= e.timestamp_ms <= MAX_ABS_TIMESTAMP
                &&& aligned(e.timestamp_ms as int, interval)
            },
{
    broadcast use vstd::seq_lib::group_filter_ensures;

    let dist = distinct_triples(s, interval);
    assert forall|k: int| 0 <= k < agg_rows(s, interval, m).len() implies {
        let e = #[trigger] agg_rows(s, interval, m)[k];
        &&& triple_of(e, interval) == dist[k]
        &&& -2 * MAX_ABS_TIMESTAMP <= e.timestamp_ms <= MAX_ABS_TIMESTAMP
        &&& aligned(e.timestamp_ms as int, interval)
    } by {
        let t = dist[k];
        let g = group_of(s, interval, t);
        lemma_distinct_from_sample(s, interval, k);
        let j = choose|j: int| 0 <= j < s.len() && triple_of(#[trigger] s[j], interval) == t;
        s.lemma_filter_contains(|d: TelemetryData| triple_of(d, interval) == t, j);
        assert(g.contains(s[j]));
        assert(g.len() > 0);
        s.lemma_filter_pred(|d: TelemetryData| triple_of(d, interval) == t, 0int);
        assert(triple_of(g[0], interval) == t);
        // the bucket of the witness sample is aligned and in range
        let ts = s[j].timestamp_ms as int;
        let b = t.2;
        vstd::arithmetic::div_mod::lemma_fundamental_div_mod(ts, interval);
        vstd::arithmetic::div_mod::lemma_mod_division_less_than_divisor(ts, interval);
        vstd::arithmetic::mul::lemma_mul_is_commutative(ts / interval, interval);
        assert(b == (ts / interval) * interval);
        assert(b == ts - ts % interval);
        assert(-MAX_ABS_TIMESTAMP <= ts <= MAX_ABS_TIMESTAMP);
        assert(-2 * MAX_ABS_TIMESTAMP <= b <= MAX_ABS_TIMESTAMP);
        vstd::arithmetic::div_mod::lemma_div_multiples_vanish(ts / interval, interval);
        assert((interval * (ts / interval)) / interval == ts / interval);
        vstd::arithmetic::mul::lemma_mul_is_commutative(interval, ts / interval);
        assert(b / interval == ts / interval);
        assert(aligned(b, interval));
        let e = agg_rows(s, interval, m)[k];
        assert(e == agg_group(g, t.2, m));
        assert(e.timestamp_ms == b as i64);
        assert(e.timestamp_ms as int == b);
        assert(e.target_name == g[0].target_name);
        assert(e.key_name == g[0].key_name);
        assert(e.target_name@ == t.0 && e.key_name@ == t.1);
        assert(bucket_start_spec(e.timestamp_ms as int, interval) == b);
        assert(triple_of(e, interval) == t);
    }
}

/// With pairwise distinct keys the distinct-key list is the key of
/// each row in order.
proof fn lemma_distinct_of_nodup_triples(s: Seq<TelemetryData>, interval: int)
    requires
        forall|a: int, b: int|
            0 <= a < b < s.len() ==> triple_of(#[trigger] s[a], interval) != triple_of(
                #[trigger] s[b],
                interval,
            ),
    ensures
        distinct_triples(s, interval).len() == s.len(),
        forall|k: int|
            0 <= k < s.len() ==> distinct_triples(s, interval)[k] == triple_of(
                #[trigger] s[k],
                interval,
            ),
    decreases s.len(),
{
    if s.len() > 0 {
        let prefix = s.drop_last();
        assert(forall|i: int| 0 <= i < prefix.len() ==> #[trigger] prefix[i] == s[i]);
        lemma_distinct_of_nodup_triples(prefix, interval);
        let prev = distinct_triples(prefix, interval);
        let t = triple_of(s.last(), interval);
        if prev.contains(t) {
            let k = choose|k: int| 0 <= k < prev.len() && prev[k] == t;
            assert(prefix[k] == s[k]);
            assert(prev[k] == triple_of(prefix[k], interval));
            assert(triple_of(s[k], interval) == t);
            assert(triple_of(s[k], interval) == triple_of(s[s.len() - 1], interval));
            assert(false);
        }
        assert(distinct_triples(s, interval) =~= prev.push(t));
        assert forall|k: int| 0 <= k < s.len() implies distinct_triples(s, interval)[k]
            == triple_of(#[trigger] s[k], interval) by {
            if k < s.len() - 1 {
                assert(prefix[k] == s[k]);
                assert(prev[k] == triple_of(prefix[k], interval));
            }
        }
    }
}

/// A filter that exactly one element satisfies yields that element
/// alone.
proof fn lemma_filter_singleton(
    s: Seq<TelemetryData>,
    pred: spec_fn(TelemetryData) -> bool,
    k: int,
)
    requires
        0 <= k < s.len(),
        pred(s[k]),
        forall|j: int| 0 <= j < s.len() && j != k ==> !pred(#[trigger] s[j]),
    ensures
        s.filter(pred) == seq![s[k]],
    decreases s.len(),
{
    reveal(Seq::filter);
    let prefix = s.drop_last();
    assert(forall|i: int| 0 <= i < prefix.len() ==> #[trigger] prefix[i] == s[i]);
    if k == s.len() - 1 {
        prefix.lemma_all_neg_filter_empty(pred);
        assert(s.filter(pred) =~= seq![s[k]]);
    } else {
        lemma_filter_singleton(prefix, pred, k);
        assert(!pred(s.last()));
        assert(s.filter(pred) =~= seq![s[k]]);
    }
}

/// One row is its own aggregate: a singleton bucket reproduces its
/// sample under every method.
proof fn lemma_agg_singleton(e: TelemetryData, interval: int, m: SamplingMethod)
    requires
        -2 * MAX_ABS_TIMESTAMP <= e.timestamp_ms <= MAX_ABS_TIMESTAMP,
    ensures
        agg_group(seq![e], e.timestamp_ms as int, m) == e,
{
    let g = seq![e];
    assert(g[0] == e);
    assert(first_sample(g) == e);
    assert(last_sample(g) == e);
    assert(max_value(g) == e.value);
    assert(min_value(g) == e.value);
    assert(values_of(g) =~= Seq::<i64>::empty().push(e.value));
    assert(values_of(g).drop_last() =~= Seq::<i64>::empty());
    assert(values_of(g).len() == 1);
    assert(values_of(g).last() == e.value);
    assert(sum_seq(Seq::<i64>::empty()) == 0);
    assert(sum_seq(values_of(g)) == sum_seq(values_of(g).drop_last()) + values_of(g).last());
    assert(sum_seq(values_of(g)) == e.value);
    vstd::arithmetic::div_mod::lemma_div_basics(e.value as int);
    assert(avg_value(g) == e.value as int);
    assert(agg_value(g, m) == e.value as int);
    assert(agg_group(g, e.timestamp_ms as int, m) == e);
}

/// Resampling is idempotent at the same bucket width: resampling an
/// already-resampled sequence with the same interval and method
/// changes nothing.
pub proof fn lemma_resample_idempotent(s: Seq<TelemetryData>, interval: int, m: SamplingMethod)
    requires
        1 <= interval <= MAX_ABS_TIMESTAMP,
        valid_times(s),
    ensures
        resample_spec(resample_spec(s, interval, m), interval, m) == resample_spec(
            s,
            interval,
            m,
        ),
{
    let rows = agg_rows(s, interval, m);
    let r = sort_rows(rows);
    lemma_agg_rows_props(s, interval, m);
    lemma_distinct_nodup(s, interval);
    // rows are pairwise distinct, because their keys are
    assert forall|a: int, b: int| 0 <= a < b < rows.len() implies rows[a] != rows[b] by {
        assert(triple_of(rows[a], interval) == distinct_triples(s, interval)[a]);
        assert(triple_of(rows[b], interval) == distinct_triples(s, interval)[b]);
    }
    lemma_sort_rows_props(rows);
    // every row of the result is a row of the aggregation pass
    assert forall|a: int| 0 <= a < r.len() implies (-2 * MAX_ABS_TIMESTAMP
        <= (#[trigger] r[a]).timestamp_ms <= MAX_ABS_TIMESTAMP && aligned(
        r[a].timestamp_ms as int,
        interval,
    )) by {
        assert(r.contains(r[a]));
        assert(rows.contains(r[a]));
        let k = choose|k: int| 0 <= k < rows.len() && rows[k] == r[a];
        assert(rows[k] == r[a]);
    }
    // the result's keys are pairwise distinct
    assert forall|a: int, b: int| 0 <= a < b < r.len() implies triple_of(
        #[trigger] r[a],
        interval,
    ) != triple_of(#[trigger] r[b], interval) by {
        assert(r.contains(r[a]) && r.contains(r[b]));
        assert(rows.contains(r[a]) && rows.contains(r[b]));
        let ka = choose|k: int| 0 <= k < rows.len() && rows[k] == r[a];
        let kb = choose|k: int| 0 <= k < rows.len() && rows[k] == r[b];
        if triple_of(r[a], interval) == triple_of(r[b], interval) {
            assert(distinct_triples(s, interval)[ka] == triple_of(rows[ka], interval));
            assert(distinct_triples(s, interval)[kb] == triple_of(rows[kb], interval));
            assert(ka == kb);
            assert(r[a] == r[b]);
        }
    }
    lemma_distinct_of_nodup_triples(r, interval);
    let dist_r = distinct_triples(r, interval);
    // each group of the second pass is a singleton, and aggregates to
    // the row itself
    assert forall|k: int| 0 <= k < r.len() implies #[trigger] agg_rows(r, interval, m)[k]
        == r[k] by {
        let t = dist_r[k];
        assert(t == triple_of(r[k], interval));
        lemma_filter_singleton(r, |d: TelemetryData| triple_of(d, interval) == t, k);
        assert(group_of(r, interval, t) == seq![r[k]]);
        assert(t.2 == bucket_start_spec(r[k].timestamp_ms as int, interval));
        assert(t.2 == r[k].timestamp_ms as int);
        lemma_agg_singleton(r[k], interval, m);
        assert(agg_group(seq![r[k]], t.2, m) == r[k]);
    }
    assert(agg_rows(r, interval, m) =~= r);
    lemma_sort_rows_fix(r);
}


/// The ordering pass leaves any row sequence ascending, whether or
/// not its rows are distinct.
proof fn lemma_sort_rows_sorted(s: Seq<TelemetryData>)
    ensures
        sorted_by_ts(sort_rows(s)),
    decreases s.len(),
{
    if s.len() > 0 {
        lemma_sort_rows_sorted(s.drop_last());
        lemma_insert_row_sorted(sort_rows(s.drop_last()), s.last());
    }
}

/// Resampled output is ordered by ascending timestamp.
pub proof fn lemma_resample_sorted(s: Seq<TelemetryData>, interval: int, m: SamplingMethod)
    ensures
        sorted_by_ts(resample_spec(s, interval, m)),
{
    lemma_sort_rows_sorted(agg_rows(s, interval, m));
}

} // verus!
