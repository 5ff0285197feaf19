//! The pipeline compiler and the query runner.
//!
//! A query description is validated and compiled into its fixed stage
//! order; the runner executes the stages over fetched samples, lays
//! the correction overlay on the result and derives its statistics.

use vstd::prelude::*;
use crate::outlier::{
    outlier_keep, remove_outlier_samples, select_outlier_method, values_of,
};
use crate::overlay::{apply_operations_to_data, apply_ops_sample};
use crate::resample::{resample, resample_spec};
use crate::stages::{
    apply_limit, apply_reference_values, apply_time_of_day_filter, base_filter, base_keep,
    normalize_sample, tod_keep,
};
use crate::types::{
    outlier_method_of_tag, valid_samples, valid_times, DataOperation, DataStats, InvalidSpec,
    QueryParams, TelemetryData, TelemetryResponse, TimeRange, MAX_ABS_TIMESTAMP, MAX_STAT_LEN,
};

verus! {

/// One step of a compiled query plan.
#[derive(Clone, Copy, Debug, PartialEq, Eq, Structural)]
pub enum Stage {
    /// Identifier, time-range and value-range filtering.
    BaseFilter,
    /// Statistical outlier removal over the base-filtered population.
    OutlierRemoval(crate::types::OutlierMethod),
    /// Subtraction of per-series reference values.
    ReferenceNormalization,
    /// Daily time-of-day windowing.
    TimeOfDayWindow,
    /// Time-bucket resampling.
    Resampling(crate::types::SamplingConfig),
    /// The final cap on the result size.
    ResultCap(usize),
}

/// The index of the first malformed window, if any.
pub open spec fn first_bad_window(ranges: Seq<TimeRange>) -> Option<int>
    decreases ranges.len(),
{
    if ranges.len() == 0 {
        None
    } else if !ranges[0].wf() {
        Some(0int)
    } else {
        match first_bad_window(ranges.drop_first()) {
            None => None,
            Some(i) => Some(i + 1),
        }
    }
}

/// Why a query description is rejected, if it is.  A non-positive
/// resampling interval is reported before a malformed window.
pub open spec fn query_invalid(p: QueryParams) -> Option<InvalidSpec> {
    if match p.sampling_config {
        Some(sc) => sc.interval_ms <= 0,
        None => false,
    } {
        Some(InvalidSpec::NonPositiveInterval)
    } else {
        match p.time_of_day_filter {
            Some(f) => match first_bad_window(f.time_ranges@) {
                Some(i) => Some(InvalidSpec::TimeWindowOutOfRange { index: i as usize }),
                None => None,
            },
            None => None,
        }
    }
}

/// The fixed stage order of a valid query: base filter, outlier
/// removal, reference normalization, time-of-day windowing,
/// resampling, result cap — each optional stage present exactly when
/// the query configures it.
pub open spec fn stages_spec(p: QueryParams) -> Seq<Stage> {
    let s = seq![Stage::BaseFilter];
    let s = if p.remove_outliers {
        s.push(Stage::OutlierRemoval(outlier_method_of_tag(p.outlier_method@)))
    } else {
        s
    };
    let s = if p.reference_values is Some {
        s.push(Stage::ReferenceNormalization)
    } else {
        s
    };
    let s = if p.time_of_day_filter is Some {
        s.push(Stage::TimeOfDayWindow)
    } else {
        s
    };
    let s = match p.sampling_config {
        Some(sc) => s.push(Stage::Resampling(sc)),
        None => s,
    };
    match p.limit {
        Some(l) => s.push(Stage::ResultCap(l)),
        None => s,
    }
}

/// Compile a query description into its ordered stages, or reject it:
/// a non-positive resampling interval and an out-of-range window hour
/// or minute are refused before any data is touched; an unrecognized
/// outlier-method tag is not an error but falls back to the
/// interquartile method.
pub fn compile(p: &QueryParams) -> (r: Result<Vec<Stage>, InvalidSpec>)
    ensures
        match query_invalid(*p) {
            Some(e) => r == Result::<Vec<Stage>, InvalidSpec>::Err(e),
            None => r is Ok && r.unwrap()@ == stages_spec(*p),
        },
{
    match &p.sampling_config {
        Some(sc) => {
            if sc.interval_ms <= 0 {
                return Err(InvalidSpec::NonPositiveInterval);
            }
        }
        None => {}
    }
    match &p.time_of_day_filter {
        Some(f) => {
            let mut i: usize = 0;
            proof {
                if first_bad_window(f.time_ranges@) is Some {
                    lemma_first_bad_window_in_range(f.time_ranges@);
                }
            }
            while i < f.time_ranges.len()
                invariant
                    0 <= i <= f.time_ranges@.len(),
                    p.time_of_day_filter == Some(*f),
                    match p.sampling_config {
                        Some(sc) => sc.interval_ms > 0,
                        None => true,
                    },
                    forall|j: int| 0 <= j < i ==> (#[trigger] f.time_ranges@[j]).wf(),
                    first_bad_window(f.time_ranges@) is Some ==> first_bad_window(
                        f.time_ranges@,
                    ).unwrap() >= i,
                decreases f.time_ranges@.len() - i,
            {
                let tr = f.time_ranges[i];
                proof {
                    lemma_first_bad_window_at(f.time_ranges@, i as int);
                }
                if tr.start_hour > 23 || tr.start_minute > 59 || tr.end_hour > 23
                    || tr.end_minute > 59 {
                    return Err(InvalidSpec::TimeWindowOutOfRange { index: i });
                }
                i += 1;
            }
            proof {
                if first_bad_window(f.time_ranges@) is Some {
                    lemma_first_bad_window_in_range(f.time_ranges@);
                }
            }
        }
        None => {}
    }
    let mut stages: Vec<Stage> = Vec::new();
    stages.push(Stage::BaseFilter);
    if p.remove_outliers {
        stages.push(Stage::OutlierRemoval(select_outlier_method(&p.outlier_method)));
    }
    if p.reference_values.is_some() {
        stages.push(Stage::ReferenceNormalization);
    }
    if p.time_of_day_filter.is_some() {
        stages.push(Stage::TimeOfDayWindow);
    }
    match &p.sampling_config {
        Some(sc) => {
            stages.push(Stage::Resampling(*sc));
        }
        None => {}
    }
    match &p.limit {
        Some(l) => {
            stages.push(Stage::ResultCap(*l));
        }
        None => {}
    }
    proof {
        assert(stages@ =~= stages_spec(*p));
    }
    Ok(stages)
}

/// If the first `i` windows are well-formed, the first bad one (if
/// any) lies at `i` or beyond; if window `i` is bad too, it is exactly
/// the first.
proof fn lemma_first_bad_window_at(ranges: Seq<TimeRange>, i: int)
    requires
        0 <= i < ranges.len(),
        forall|j: int| 0 <= j < i ==> (#[trigger] ranges[j]).wf(),
    ensures
        !ranges[i].wf() ==> first_bad_window(ranges) == Some(i),
        ranges[i].wf() ==> (first_bad_window(ranges) is Some ==> first_bad_window(
            ranges,
        ).unwrap() >= i + 1),
    decreases i,
{
    if i == 0 {
        if ranges[0].wf() {
            if first_bad_window(ranges) is Some {
                lemma_first_bad_window_in_range(ranges.drop_first());
                assert(first_bad_window(ranges).unwrap() >= 1);
            }
        }
    } else {
        let rest = ranges.drop_first();
        assert(forall|j: int| 0 <= j < i - 1 ==> (#[trigger] rest[j]).wf());
        assert(rest[i - 1] == ranges[i]);
        lemma_first_bad_window_at(rest, i - 1);
        assert(ranges[0].wf());
    }
}

/// A reported bad-window index is in range.
proof fn lemma_first_bad_window_in_range(ranges: Seq<TimeRange>)
    requires
        first_bad_window(ranges) is Some,
    ensures
        0 <= first_bad_window(ranges).unwrap() < ranges.len(),
    decreases ranges.len(),
{
    if ranges.len() > 0 && ranges[0].wf() {
        if first_bad_window(ranges.drop_first()) is Some {
            lemma_first_bad_window_in_range(ranges.drop_first());
        }
    }
}

/// The transformed sample sequence of a valid query, before the
/// correction overlay: the stages of [`stages_spec`] in their fixed
/// order.
pub open spec fn pipeline_spec(p: QueryParams, s: Seq<TelemetryData>) -> Seq<TelemetryData> {
    let s1 = s.filter(|d: TelemetryData| base_keep(p, d));
    let s2 = if p.remove_outliers {
        s1.filter(
            |d: TelemetryData| outlier_keep(
                outlier_method_of_tag(p.outlier_method@),
                values_of(s1),
                d.value,
            ),
        )
    } else {
        s1
    };
    let s3 = match p.reference_values {
        Some(refs) => s2.map_values(|d: TelemetryData| normalize_sample(refs@, d)),
        None => s2,
    };
    let s4 = match p.time_of_day_filter {
        Some(f) => s3.filter(|d: TelemetryData| tod_keep(f.time_ranges@, d)),
        None => s3,
    };
    let s5 = match p.sampling_config {
        Some(sc) => resample_spec(s4, sc.interval_ms as int, sc.method),
        None => s4,
    };
    match p.limit {
        Some(l) => if s5.len() <= l {
            s5
        } else {
            s5.subrange(0, l as int)
        },
        None => s5,
    }
}

/// The samples a valid query answers with: the pipeline output under
/// the correction overlay.
pub open spec fn query_data_spec(
    p: QueryParams,
    s: Seq<TelemetryData>,
    ops: Seq<DataOperation>,
) -> Seq<TelemetryData> {
    pipeline_spec(p, s).map_values(|d: TelemetryData| apply_ops_sample(ops, d))
}

/// The number of samples the base filter of a query admits; the
/// population the outlier statistics are computed over, and the
/// baseline of the removed-outliers count.
pub open spec fn base_count_spec(p: QueryParams, s: Seq<TelemetryData>) -> int {
    s.filter(|d: TelemetryData| base_keep(p, d)).len() as int
}

/// The distinct target names of a sample sequence, in order of first
/// appearance.
pub open spec fn distinct_targets(s: Seq<TelemetryData>) -> Seq<Seq<char>>
    decreases s.len(),
{
    if s.len() == 0 {
        Seq::empty()
    } else {
        let prev = distinct_targets(s.drop_last());
        if prev.contains(s.last().target_name@) {
            prev
        } else {
            prev.push(s.last().target_name@)
        }
    }
}

/// The smallest timestamp of a non-empty sample sequence.
pub open spec fn min_ts(s: Seq<TelemetryData>) -> i64
    recommends
        s.len() > 0,
    decreases s.len(),
{
    if s.len() <= 1 {
        s[0].timestamp_ms
    } else {
        let m = min_ts(s.drop_last());
        if s.last().timestamp_ms < m {
            s.last().timestamp_ms
        } else {
            m
        }
    }
}

/// The largest timestamp of a non-empty sample sequence.
pub open spec fn max_ts(s: Seq<TelemetryData>) -> i64
    recommends
        s.len() > 0,
    decreases s.len(),
{
    if s.len() <= 1 {
        s[0].timestamp_ms
    } else {
        let m = max_ts(s.drop_last());
        if s.last().timestamp_ms > m {
            s.last().timestamp_ms
        } else {
            m
        }
    }
}

/// Derive the statistics of a query's output: its size, its distinct
/// targets, its time span, and — only when outlier removal ran — how
/// many samples the whole pipeline dropped from the base-filtered
/// population, saturating at zero.
pub fn calculate_stats(
    data: &Vec<TelemetryData>,
    p: &QueryParams,
    original_count: Option<usize>,
) -> (stats: DataStats)
    ensures
        stats.total_points == data@.len(),
        stats.target_count == distinct_targets(data@).len(),
        stats.time_range == (if data@.len() == 0 {
            Option::<(i64, i64)>::None
        } else {
            Some((min_ts(data@), max_ts(data@)))
        }),
        stats.outliers_removed == (if p.remove_outliers {
            Some(
                (match original_count {
                    Some(c) => if c >= data@.len() {
                        (c - data@.len()) as usize
                    } else {
                        0usize
                    },
                    None => 0usize,
                }),
            )
        } else {
            Option::<usize>::None
        }),
        stats.outlier_method == (if p.remove_outliers {
            Some(p.outlier_method)
        } else {
            Option::<String>::None
        }),
{
    let total_points = data.len();

    // distinct targets, in order of first appearance
    let mut targets: Vec<String> = Vec::new();
    let mut i: usize = 0;
    proof {
        assert(data@.subrange(0, 0int) =~= Seq::<TelemetryData>::empty());
    }
    while i < data.len()
        invariant
            0 <= i <= data@.len(),
            targets@.len() == distinct_targets(data@.subrange(0, i as int)).len(),
            forall|k: int|
                0 <= k < targets@.len() ==> (#[trigger] targets@[k])@ == distinct_targets(
                    data@.subrange(0, i as int),
                )[k],
        decreases data@.len() - i,
    {
        let ghost prefix = data@.subrange(0, i as int);
        let ghost prefix1 = data@.subrange(0, i + 1int);
        proof {
            assert(prefix1 =~= prefix.push(data@[i as int]));
            assert(prefix1.drop_last() =~= prefix);
        }
        let found = crate::stages::vec_has_name(&targets, &data[i].target_name);
        proof {
            let prev = distinct_targets(prefix);
            if found {
                let k = choose|k: int|
                    0 <= k < targets@.len() && #[trigger] targets@[k]@
                        == data@[i as int].target_name@;
                assert(prev[k] == data@[i as int].target_name@);
                assert(prev.contains(data@[i as int].target_name@));
            } else {
                if prev.contains(data@[i as int].target_name@) {
                    let k = choose|k: int|
                        0 <= k < prev.len() && prev[k] == data@[i as int].target_name@;
                    assert(targets@[k]@ == data@[i as int].target_name@);
                }
            }
        }
        if !found {
            targets.push(data[i].target_name.clone());
        }
        i += 1;
    }
    proof {
        assert(data@.subrange(0, data@.len() as int) =~= data@);
    }
    let target_count = targets.len();

    // time span of the output
    let time_range: Option<(i64, i64)> = if data.len() == 0 {
        None
    } else {
        let mut mn: i64 = data[0].timestamp_ms;
        let mut mx: i64 = data[0].timestamp_ms;
        let mut j: usize = 1;
        proof {
            let p1 = data@.subrange(0, 1int);
            assert(p1.len() == 1 && p1[0] == data@[0int]);
            assert(min_ts(p1) == data@[0int].timestamp_ms);
            assert(max_ts(p1) == data@[0int].timestamp_ms);
        }
        while j < data.len()
            invariant
                1 <= j <= data@.len(),
                mn == min_ts(data@.subrange(0, j as int)),
                mx == max_ts(data@.subrange(0, j as int)),
            decreases data@.len() - j,
        {
            proof {
                assert(data@.subrange(0, j + 1int).drop_last() =~= data@.subrange(0, j as int));
                assert(data@.subrange(0, j + 1int).last() == data@[j as int]);
                assert(data@.subrange(0, j + 1int).len() > 1);
            }
            if data[j].timestamp_ms < mn {
                mn = data[j].timestamp_ms;
            }
            if data[j].timestamp_ms > mx {
                mx = data[j].timestamp_ms;
            }
            j += 1;
        }
        proof {
            assert(data@.subrange(0, data@.len() as int) =~= data@);
        }
        Some((mn, mx))
    };

    // removed-outlier count, only when outlier removal was requested
    let (outliers_removed, outlier_method): (Option<usize>, Option<String>) = if p
        .remove_outliers {
        let removed: usize = match original_count {
            Some(c) => if c >= total_points {
                c - total_points
            } else {
                0
            },
            None => 0,
        };
        (Some(removed), Some(p.outlier_method.clone()))
    } else {
        (None, None)
    };

    DataStats { total_points, target_count, time_range, outliers_removed, outlier_method }
}

/// Samples admitted by a filter are samples of the input.
proof fn lemma_filter_valid(s: Seq<TelemetryData>, pred: spec_fn(TelemetryData) -> bool)
    ensures
        valid_samples(s) ==> valid_samples(s.filter(pred)),
        valid_times(s) ==> valid_times(s.filter(pred)),
    decreases s.len(),
{
    reveal(Seq::filter);
    if s.len() > 0 {
        lemma_filter_valid(s.drop_last(), pred);
        assert(forall|i: int|
            0 <= i < s.len() - 1 ==> #[trigger] s.drop_last()[i] == s[i]);
    }
}

/// Run a compiled query over fetched samples: execute the stages in
/// their fixed order, lay the correction overlay over the result and
/// derive its statistics.  Rejected query descriptions fail exactly as
/// [`compile`] rejects them, before any data is touched.
pub fn run_query(
    raw: &Vec<TelemetryData>,
    p: &QueryParams,
    active_operations: &Vec<DataOperation>,
) -> (r: Result<TelemetryResponse, InvalidSpec>)
    requires
        valid_samples(raw@),
        raw@.len() <= MAX_STAT_LEN,
        match p.sampling_config {
            Some(sc) => sc.interval_ms <= MAX_ABS_TIMESTAMP,
            None => true,
        },
    ensures
        match query_invalid(*p) {
            Some(e) => r == Result::<TelemetryResponse, InvalidSpec>::Err(e),
            None => {
                &&& r is Ok
                &&& r.unwrap().data@ == query_data_spec(*p, raw@, active_operations@)
                &&& r.unwrap().stats.total_points == query_data_spec(
                    *p,
                    raw@,
                    active_operations@,
                ).len()
                &&& r.unwrap().stats.target_count == distinct_targets(
                    query_data_spec(*p, raw@, active_operations@),
                ).len()
                &&& r.unwrap().stats.time_range == (if query_data_spec(
                    *p,
                    raw@,
                    active_operations@,
                ).len() == 0 {
                    Option::<(i64, i64)>::None
                } else {
                    Some(
                        (
                            min_ts(query_data_spec(*p, raw@, active_operations@)),
                            max_ts(query_data_spec(*p, raw@, active_operations@)),
                        ),
                    )
                })
                &&& r.unwrap().stats.outliers_removed == (if p.remove_outliers {
                    Some(
                        (if base_count_spec(*p, raw@) >= query_data_spec(
                            *p,
                            raw@,
                            active_operations@,
                        ).len() {
                            (base_count_spec(*p, raw@) - query_data_spec(
                                *p,
                                raw@,
                                active_operations@,
                            ).len()) as usize
                        } else {
                            0usize
                        }),
                    )
                } else {
                    Option::<usize>::None
                })
                &&& r.unwrap().stats.outlier_method == (if p.remove_outliers {
                    Some(p.outlier_method)
                } else {
                    Option::<String>::None
                })
            },
        },
{
    match compile(p) {
        Err(e) => {
            return Err(e);
        }
        Ok(_stages) => {}
    }
    let ghost pred_base = |d: TelemetryData| base_keep(*p, d);
    let s1 = base_filter(raw, p);
    proof {
        lemma_filter_valid(raw@, pred_base);
        broadcast use vstd::seq_lib::group_filter_ensures;

    }
    let original_count: Option<usize> = if p.remove_outliers {
        Some(s1.len())
    } else {
        None
    };
    let s2 = if p.remove_outliers {
        let method = select_outlier_method(&p.outlier_method);
        let out = remove_outlier_samples(&s1, method);
        proof {
            lemma_filter_valid(
                s1@,
                |d: TelemetryData| outlier_keep(
                    outlier_method_of_tag(p.outlier_method@),
                    values_of(s1@),
                    d.value,
                ),
            );
        }
        out
    } else {
        s1
    };
    let ghost s2v = s2@;
    let s3 = match &p.reference_values {
        Some(refs) => {
            let out = apply_reference_values(&s2, refs);
            proof {
                assert forall|i: int| 0 <= i < out@.len() implies -MAX_ABS_TIMESTAMP <= (
                #[trigger] out@[i]).timestamp_ms <= MAX_ABS_TIMESTAMP by {
                    assert(out@[i] == normalize_sample(refs@, s2v[i]));
                }
            }
            out
        }
        None => s2,
    };
    let ghost s3v = s3@;
    let s4 = match &p.time_of_day_filter {
        Some(f) => {
            let out = apply_time_of_day_filter(&s3, &f.time_ranges);
            proof {
                lemma_filter_valid(s3v, |d: TelemetryData| tod_keep(f.time_ranges@, d));
            }
            out
        }
        None => s3,
    };
    let s5 = match &p.sampling_config {
        Some(sc) => {
            proof {
                assert(sc.interval_ms >= 1);
            }
            resample(&s4, sc.interval_ms, sc.method)
        }
        None => s4,
    };
    let mut s6 = match &p.limit {
        Some(l) => apply_limit(s5, *l),
        None => s5,
    };
    apply_operations_to_data(&mut s6, active_operations);
    proof {
        assert(s6@ == query_data_spec(*p, raw@, active_operations@));
    }
    let stats = calculate_stats(&s6, p, original_count);
    Ok(TelemetryResponse { data: s6, stats })
}


/// What one stage of a compiled plan does to a sample sequence.
pub open spec fn apply_stage(st: Stage, p: QueryParams, s: Seq<TelemetryData>) -> Seq<
    TelemetryData,
> {
    match st {
        Stage::BaseFilter => s.filter(|d: TelemetryData| base_keep(p, d)),
        Stage::OutlierRemoval(m) => s.filter(
            |d: TelemetryData| outlier_keep(m, values_of(s), d.value),
        ),
        Stage::ReferenceNormalization => match p.reference_values {
            Some(refs) => s.map_values(|d: TelemetryData| normalize_sample(refs@, d)),
            None => s,
        },
        Stage::TimeOfDayWindow => match p.time_of_day_filter {
            Some(f) => s.filter(|d: TelemetryData| tod_keep(f.time_ranges@, d)),
            None => s,
        },
        Stage::Resampling(sc) => resample_spec(s, sc.interval_ms as int, sc.method),
        Stage::ResultCap(l) => if s.len() <= l {
            s
        } else {
            s.subrange(0, l as int)
        },
    }
}

/// A compiled plan, run left to right.
pub open spec fn apply_stages(stages: Seq<Stage>, p: QueryParams, s: Seq<TelemetryData>) -> Seq<
    TelemetryData,
>
    decreases stages.len(),
{
    if stages.len() == 0 {
        s
    } else {
        apply_stage(stages.last(), p, apply_stages(stages.drop_last(), p, s))
    }
}

/// One more stage at the end of a plan runs after the rest.
proof fn lemma_apply_stages_push(stages: Seq<Stage>, st: Stage, p: QueryParams, s: Seq<
    TelemetryData,
>)
    ensures
        apply_stages(stages.push(st), p, s) == apply_stage(st, p, apply_stages(stages, p, s)),
{
    assert(stages.push(st).drop_last() =~= stages);
    assert(stages.push(st).last() == st);
}

/// The stage order the compiler fixes is exactly what the runner
/// computes: interpreting the compiled plan left to right over the
/// fetched samples yields the pipeline's output.
pub proof fn lemma_compiled_stages_run_the_pipeline(p: QueryParams, s: Seq<TelemetryData>)
    ensures
        apply_stages(stages_spec(p), p, s) == pipeline_spec(p, s),
{
    let st0 = seq![Stage::BaseFilter];
    let s1 = s.filter(|d: TelemetryData| base_keep(p, d));
    assert(st0.drop_last() =~= Seq::<Stage>::empty());
    assert(st0.last() == Stage::BaseFilter);
    assert(apply_stages(Seq::<Stage>::empty(), p, s) == s);
    assert(apply_stages(st0, p, s) == apply_stage(Stage::BaseFilter, p, s));
    assert(apply_stages(st0, p, s) == s1);
    let st1 = if p.remove_outliers {
        st0.push(Stage::OutlierRemoval(outlier_method_of_tag(p.outlier_method@)))
    } else {
        st0
    };
    let s2 = if p.remove_outliers {
        s1.filter(
            |d: TelemetryData| outlier_keep(
                outlier_method_of_tag(p.outlier_method@),
                values_of(s1),
                d.value,
            ),
        )
    } else {
        s1
    };
    if p.remove_outliers {
        lemma_apply_stages_push(
            st0,
            Stage::OutlierRemoval(outlier_method_of_tag(p.outlier_method@)),
            p,
            s,
        );
    }
    assert(apply_stages(st1, p, s) == s2);
    let st2 = if p.reference_values is Some {
        st1.push(Stage::ReferenceNormalization)
    } else {
        st1
    };
    let s3 = match p.reference_values {
        Some(refs) => s2.map_values(|d: TelemetryData| normalize_sample(refs@, d)),
        None => s2,
    };
    if p.reference_values is Some {
        lemma_apply_stages_push(st1, Stage::ReferenceNormalization, p, s);
    }
    assert(apply_stages(st2, p, s) == s3);
    let st3 = if p.time_of_day_filter is Some {
        st2.push(Stage::TimeOfDayWindow)
    } else {
        st2
    };
    let s4 = match p.time_of_day_filter {
        Some(f) => s3.filter(|d: TelemetryData| tod_keep(f.time_ranges@, d)),
        None => s3,
    };
    if p.time_of_day_filter is Some {
        lemma_apply_stages_push(st2, Stage::TimeOfDayWindow, p, s);
    }
    assert(apply_stages(st3, p, s) == s4);
    let st4 = match p.sampling_config {
        Some(sc) => st3.push(Stage::Resampling(sc)),
        None => st3,
    };
    let s5 = match p.sampling_config {
        Some(sc) => resample_spec(s4, sc.interval_ms as int, sc.method),
        None => s4,
    };
    match p.sampling_config {
        Some(sc) => {
            lemma_apply_stages_push(st3, Stage::Resampling(sc), p, s);
        }
        None => {}
    }
    assert(apply_stages(st4, p, s) == s5);
    let st5 = match p.limit {
        Some(l) => st4.push(Stage::ResultCap(l)),
        None => st4,
    };
    match p.limit {
        Some(l) => {
            lemma_apply_stages_push(st4, Stage::ResultCap(l), p, s);
        }
        None => {}
    }
    assert(st5 == stages_spec(p));
    assert(apply_stages(st5, p, s) == pipeline_spec(p, s));
}

} // verus!
