//! The transform stages of the query pipeline.
//!
//! Every stage is a pure function from a sample sequence to a sample
//! sequence; the order they run in is fixed by the compiler in
//! [`crate::compile`].

use vstd::prelude::*;
use crate::types::{
    CustomFilter, QueryParams, ReferenceValue, TelemetryData, TimeRange,
};
use crate::timeutil::{minute_of_day, minute_of_day_spec};

verus! {

impl Clone for TelemetryData {
    fn clone(&self) -> (res: Self)
        ensures
            res == *self,
    {
        TelemetryData {
            timestamp_ms: self.timestamp_ms,
            asset_name: self.asset_name.clone(),
            device_name: self.device_name.clone(),
            target_name: self.target_name.clone(),
            key_name: self.key_name.clone(),
            value: self.value,
        }
    }
}

/// Whether `name` occurs in `names`.
pub open spec fn seq_has_name(names: Seq<String>, name: Seq<char>) -> bool {
    exists|i: int| 0 <= i < names.len() && #[trigger] names[i]@ == name
}

/// An empty name list restricts nothing; otherwise the name must occur.
pub open spec fn name_list_permits(names: Seq<String>, name: Seq<char>) -> bool {
    names.len() == 0 || seq_has_name(names, name)
}

pub fn vec_has_name(names: &Vec<String>, name: &String) -> (r: bool)
    ensures
        r == seq_has_name(names@, name@),
{
    let mut i: usize = 0;
    while i < names.len()
        invariant
            0 <= i <= names@.len(),
            forall|j: int| 0 <= j < i ==> #[trigger] names@[j]@ != name@,
        decreases names@.len() - i,
    {
        if names[i] == *name {
            return true;
        }
        i += 1;
    }
    false
}

/// Whether `v` occurs in the excluded values.
pub open spec fn seq_has_value(xs: Seq<i64>, v: i64) -> bool {
    exists|i: int| 0 <= i < xs.len() && #[trigger] xs[i] == v
}

/// Whether a value passes the optional bounds and the exclusion list.
pub open spec fn custom_keep(f: CustomFilter, v: i64) -> bool {
    &&& match f.min_value {
        None => true,
        Some(m) => v >= m,
    }
    &&& match f.max_value {
        None => true,
        Some(m) => v <= m,
    }
    &&& !seq_has_value(f.exclude_values@, v)
}

/// The base filter of a query: identifiers, time range and value range.
pub open spec fn base_keep(p: QueryParams, d: TelemetryData) -> bool {
    &&& match p.asset_name {
        None => true,
        Some(a) => a@ == d.asset_name@,
    }
    &&& match p.device_name {
        None => true,
        Some(a) => a@ == d.device_name@,
    }
    &&& name_list_permits(p.target_names@, d.target_name@)
    &&& name_list_permits(p.key_names@, d.key_name@)
    &&& match p.start_time_ms {
        None => true,
        Some(s) => d.timestamp_ms >= s,
    }
    &&& match p.end_time_ms {
        None => true,
        Some(e) => d.timestamp_ms <= e,
    }
    &&& match p.custom_filter {
        None => true,
        Some(f) => custom_keep(f, d.value),
    }
}

pub fn custom_keep_exec(f: &CustomFilter, v: i64) -> (r: bool)
    ensures
        r == custom_keep(*f, v),
{
    match &f.min_value {
        Some(m) => {
            if v < *m {
                return false;
            }
        }
        None => {}
    }
    match &f.max_value {
        Some(m) => {
            if v > *m {
                return false;
            }
        }
        None => {}
    }
    let mut i: usize = 0;
    while i < f.exclude_values.len()
        invariant
            0 <= i <= f.exclude_values@.len(),
            forall|j: int| 0 <= j < i ==> #[trigger] f.exclude_values@[j] != v,
        decreases f.exclude_values@.len() - i,
    {
        if f.exclude_values[i] == v {
            return false;
        }
        i += 1;
    }
    true
}

pub fn keep_base(p: &QueryParams, d: &TelemetryData) -> (r: bool)
    ensures
        r == base_keep(*p, *d),
{
    match &p.asset_name {
        Some(a) => {
            if !(*a == d.asset_name) {
                return false;
            }
        }
        None => {}
    }
    match &p.device_name {
        Some(a) => {
            if !(*a == d.device_name) {
                return false;
            }
        }
        None => {}
    }
    if p.target_names.len() > 0 && !vec_has_name(&p.target_names, &d.target_name) {
        return false;
    }
    if p.key_names.len() > 0 && !vec_has_name(&p.key_names, &d.key_name) {
        return false;
    }
    match &p.start_time_ms {
        Some(s) => {
            if d.timestamp_ms < *s {
                return false;
            }
        }
        None => {}
    }
    match &p.end_time_ms {
        Some(e) => {
            if d.timestamp_ms > *e {
                return false;
            }
        }
        None => {}
    }
    match &p.custom_filter {
        Some(f) => {
            if !custom_keep_exec(f, d.value) {
                return false;
            }
        }
        None => {}
    }
    true
}

/// Stage 1: keep exactly the samples the base filter of `p` admits.
pub fn base_filter(data: &Vec<TelemetryData>, p: &QueryParams) -> (out: Vec<TelemetryData>)
    ensures
        out@ == data@.filter(|d: TelemetryData| base_keep(*p, d)),
{
    let ghost pred = |d: TelemetryData| base_keep(*p, d);
    let mut out: Vec<TelemetryData> = Vec::new();
    let mut i: usize = 0;
    proof {
        assert(data@.subrange(0, 0int) =~= Seq::<TelemetryData>::empty());
        assert(Seq::<TelemetryData>::empty().filter(pred) =~= Seq::<TelemetryData>::empty());
    }
    while i < data.len()
        invariant
            0 <= i <= data@.len(),
            pred == (|d: TelemetryData| base_keep(*p, d)),
            out@ == data@.subrange(0, i as int).filter(pred),
        decreases data@.len() - i,
    {
        let keep = keep_base(p, &data[i]);
        proof {
            assert(data@.subrange(0, i + 1int) =~= data@.subrange(0, i as int).push(data@[i as int]));
            data@.subrange(0, i as int).lemma_filter_push(data@[i as int], pred);
        }
        if keep {
            out.push(data[i].clone());
        }
        i += 1;
    }
    proof {
        assert(data@.subrange(0, data@.len() as int) =~= data@);
    }
    out
}

/// The reference value configured for a (target, metric) pair: the
/// first matching entry wins.
pub open spec fn ref_value_for(refs: Seq<ReferenceValue>, t: Seq<char>, k: Seq<char>) -> Option<
    i64,
>
    decreases refs.len(),
{
    if refs.len() == 0 {
        None
    } else if refs[0].target_name@ == t && refs[0].key_name@ == k {
        Some(refs[0].reference_value)
    } else {
        ref_value_for(refs.drop_first(), t, k)
    }
}

pub fn find_ref_value(refs: &Vec<ReferenceValue>, t: &String, k: &String) -> (r: Option<i64>)
    ensures
        r == ref_value_for(refs@, t@, k@),
{
    let mut i: usize = 0;
    proof {
        assert(refs@.skip(0int) =~= refs@);
    }
    while i < refs.len()
        invariant
            0 <= i <= refs@.len(),
            ref_value_for(refs@, t@, k@) == ref_value_for(refs@.skip(i as int), t@, k@),
        decreases refs@.len() - i,
    {
        proof {
            assert(refs@.skip(i as int).drop_first() =~= refs@.skip(i + 1int));
        }
        if refs[i].target_name == *t && refs[i].key_name == *k {
            return Some(refs[i].reference_value);
        }
        i += 1;
    }
    None
}

/// The largest and smallest `i64`, as the saturation bounds of the
/// fixed-point arithmetic.
pub open spec fn clamp_i64(x: int) -> i64 {
    if x > i64::MAX {
        i64::MAX
    } else if x < i64::MIN {
        i64::MIN
    } else {
        x as i64
    }
}

/// Subtraction saturating at the `i64` bounds.
pub fn sat_sub_i64(a: i64, b: i64) -> (r: i64)
    ensures
        r == clamp_i64(a - b),
{
    match a.checked_sub(b) {
        Some(x) => x,
        None => {
            if b < 0 {
                i64::MAX
            } else {
                i64::MIN
            }
        }
    }
}

/// What the normalizer does to one sample: subtract the configured
/// reference value of its (target, metric), if any.
pub open spec fn normalize_sample(refs: Seq<ReferenceValue>, d: TelemetryData) -> TelemetryData {
    match ref_value_for(refs, d.target_name@, d.key_name@) {
        None => d,
        Some(r) => TelemetryData { value: clamp_i64(d.value - r), ..d },
    }
}

/// Stage 3: for every sample whose (target, metric) has a configured
/// reference value `r`, replace its value with `value - r`; all other
/// samples pass through unchanged.
pub fn apply_reference_values(data: &Vec<TelemetryData>, refs: &Vec<ReferenceValue>) -> (out: Vec<
    TelemetryData,
>)
    ensures
        out@ == data@.map_values(|d: TelemetryData| normalize_sample(refs@, d)),
{
    let mut out: Vec<TelemetryData> = Vec::new();
    let mut i: usize = 0;
    while i < data.len()
        invariant
            0 <= i <= data@.len(),
            out@ == data@.subrange(0, i as int).map_values(
                |d: TelemetryData| normalize_sample(refs@, d),
            ),
        decreases data@.len() - i,
    {
        let d = &data[i];
        let nd = match find_ref_value(refs, &d.target_name, &d.key_name) {
            None => d.clone(),
            Some(r) => TelemetryData {
                timestamp_ms: d.timestamp_ms,
                asset_name: d.asset_name.clone(),
                device_name: d.device_name.clone(),
                target_name: d.target_name.clone(),
                key_name: d.key_name.clone(),
                value: sat_sub_i64(d.value, r),
            },
        };
        proof {
            assert(nd == normalize_sample(refs@, data@[i as int]));
            assert(data@.subrange(0, i + 1int) =~= data@.subrange(0, i as int).push(data@[i as int]));
            assert(data@.subrange(0, i as int).push(data@[i as int]).map_values(
                |d: TelemetryData| normalize_sample(refs@, d),
            ) =~= data@.subrange(0, i as int).map_values(
                |d: TelemetryData| normalize_sample(refs@, d),
            ).push(normalize_sample(refs@, data@[i as int])));
        }
        out.push(nd);
        i += 1;
    }
    proof {
        assert(data@.subrange(0, data@.len() as int) =~= data@);
    }
    out
}

/// The identity law of the reference normalizer: a sample whose
/// (target, metric) has a configured reference value `r` comes out
/// with exactly `value - r`, and every other sample passes through
/// unchanged.
pub proof fn lemma_normalizer_identity(refs: Seq<ReferenceValue>, s: Seq<TelemetryData>)
    requires
        crate::types::valid_samples(s),
        forall|i: int|
            0 <= i < refs.len() ==> -crate::types::MAX_ABS_VALUE <= (#[trigger] refs[i]).reference_value
                <= crate::types::MAX_ABS_VALUE,
    ensures
        forall|i: int|
            0 <= i < s.len() ==> normalize_sample(refs, #[trigger] s[i]) == (match ref_value_for(
                refs,
                s[i].target_name@,
                s[i].key_name@,
            ) {
                Some(r) => TelemetryData { value: (s[i].value - r) as i64, ..s[i] },
                None => s[i],
            }),
{
    assert forall|i: int| 0 <= i < s.len() implies normalize_sample(refs, #[trigger] s[i]) == (
    match ref_value_for(refs, s[i].target_name@, s[i].key_name@) {
        Some(r) => TelemetryData { value: (s[i].value - r) as i64, ..s[i] },
        None => s[i],
    }) by {
        let d = s[i];
        match ref_value_for(refs, d.target_name@, d.key_name@) {
            Some(r) => {
                lemma_ref_value_bounded(refs, d.target_name@, d.key_name@);
                assert(-crate::types::MAX_ABS_VALUE <= r <= crate::types::MAX_ABS_VALUE);
                assert(clamp_i64(d.value - r) == (d.value - r) as i64);
            }
            None => {}
        }
    }
}

/// A configured reference value comes from the configuration list.
proof fn lemma_ref_value_bounded(refs: Seq<ReferenceValue>, t: Seq<char>, k: Seq<char>)
    requires
        forall|i: int|
            0 <= i < refs.len() ==> -crate::types::MAX_ABS_VALUE <= (#[trigger] refs[i]).reference_value
                <= crate::types::MAX_ABS_VALUE,
        ref_value_for(refs, t, k) is Some,
    ensures
        -crate::types::MAX_ABS_VALUE <= ref_value_for(refs, t, k).unwrap()
            <= crate::types::MAX_ABS_VALUE,
    decreases refs.len(),
{
    if refs.len() > 0 {
        if refs[0].target_name@ == t && refs[0].key_name@ == k {
        } else {
            assert(forall|i: int|
                0 <= i < refs.drop_first().len() ==> #[trigger] refs.drop_first()[i] == refs[i
                    + 1]);
            lemma_ref_value_bounded(refs.drop_first(), t, k);
        }
    }
}

/// Whether a sample's minute of day falls in any of the windows; an
/// empty window list keeps everything.
pub open spec fn tod_keep(ranges: Seq<TimeRange>, d: TelemetryData) -> bool {
    ranges.len() == 0 || exists|i: int|
        0 <= i < ranges.len() && #[trigger] ranges[i].contains_minute(
            minute_of_day_spec(d.timestamp_ms as int),
        )
}

pub fn tod_keep_exec(ranges: &Vec<TimeRange>, d: &TelemetryData) -> (r: bool)
    ensures
        r == tod_keep(ranges@, *d),
{
    if ranges.len() == 0 {
        return true;
    }
    let m = minute_of_day(d.timestamp_ms);
    let mut i: usize = 0;
    while i < ranges.len()
        invariant
            0 <= i <= ranges@.len(),
            m == minute_of_day_spec(d.timestamp_ms as int),
            forall|j: int|
                0 <= j < i ==> !#[trigger] ranges@[j].contains_minute(
                    minute_of_day_spec(d.timestamp_ms as int),
                ),
        decreases ranges@.len() - i,
    {
        let tr = ranges[i];
        let start: u32 = tr.start_hour as u32 * 60 + tr.start_minute as u32;
        let end: u32 = tr.end_hour as u32 * 60 + tr.end_minute as u32;
        let inside = if start <= end {
            start <= m && m <= end
        } else {
            m >= start || m <= end
        };
        if inside {
            proof {
                assert(ranges@[i as int].contains_minute(
                    minute_of_day_spec(d.timestamp_ms as int),
                ));
            }
            return true;
        }
        i += 1;
    }
    false
}

/// Stage 4: keep exactly the samples whose minute of day falls in one
/// of the configured windows; with no windows the stage is a no-op.
pub fn apply_time_of_day_filter(data: &Vec<TelemetryData>, ranges: &Vec<TimeRange>) -> (out: Vec<
    TelemetryData,
>)
    ensures
        out@ == data@.filter(|d: TelemetryData| tod_keep(ranges@, d)),
{
    let ghost pred = |d: TelemetryData| tod_keep(ranges@, d);
    let mut out: Vec<TelemetryData> = Vec::new();
    let mut i: usize = 0;
    proof {
        assert(data@.subrange(0, 0int) =~= Seq::<TelemetryData>::empty());
        assert(Seq::<TelemetryData>::empty().filter(pred) =~= Seq::<TelemetryData>::empty());
    }
    while i < data.len()
        invariant
            0 <= i <= data@.len(),
            pred == (|d: TelemetryData| tod_keep(ranges@, d)),
            out@ == data@.subrange(0, i as int).filter(pred),
        decreases data@.len() - i,
    {
        let keep = tod_keep_exec(ranges, &data[i]);
        proof {
            assert(data@.subrange(0, i + 1int) =~= data@.subrange(0, i as int).push(data@[i as int]));
            data@.subrange(0, i as int).lemma_filter_push(data@[i as int], pred);
        }
        if keep {
            out.push(data[i].clone());
        }
        i += 1;
    }
    proof {
        assert(data@.subrange(0, data@.len() as int) =~= data@);
    }
    out
}

/// Stage 6: cap the result at `limit` samples, keeping the earliest
/// part of the sequence.
pub fn apply_limit(data: Vec<TelemetryData>, limit: usize) -> (out: Vec<TelemetryData>)
    ensures
        out@ == if data@.len() <= limit {
            data@
        } else {
            data@.subrange(0, limit as int)
        },
{
    let mut data = data;
    proof {
        assert(data@.subrange(0, data@.len() as int) =~= data@);
    }
    data.truncate(limit);
    data
}

} // verus!
