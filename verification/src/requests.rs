//! Validation of textual requests: the query description and the
//! correction-rule requests, turned into the library's checked types
//! before any data is touched.

use vstd::prelude::*;
use vstd::string::StringExecFns;
use crate::external::{now_ms, parse_rfc3339_ms, rfc3339_millis};
use crate::parsing::{
    first_bad_pair, pair_window, parse_time_ranges, split_and_trim, split_commas, trim_spec,
};
use crate::strutil::str_eq_str;
use crate::types::{
    CustomFilter, DataOperation, InvalidSpec, OperationType, QueryParams, ReferenceValue,
    SamplingConfig, SamplingMethod, TimeOfDayFilter, op_type_of_tag,
};

verus! {

impl Clone for ReferenceValue {
    fn clone(&self) -> (res: Self)
        ensures
            res == *self,
    {
        ReferenceValue {
            target_name: self.target_name.clone(),
            key_name: self.key_name.clone(),
            reference_value: self.reference_value,
        }
    }
}

/// The aggregation method a textual tag denotes; unknown tags denote
/// none.
pub open spec fn sampling_method_of_tag(s: Seq<char>) -> Option<SamplingMethod> {
    if s == "first"@ {
        Some(SamplingMethod::First)
    } else if s == "last"@ {
        Some(SamplingMethod::Last)
    } else if s == "avg"@ {
        Some(SamplingMethod::Avg)
    } else if s == "max"@ {
        Some(SamplingMethod::Max)
    } else if s == "min"@ {
        Some(SamplingMethod::Min)
    } else {
        None
    }
}

pub fn sampling_method_from_tag(tag: &String) -> (r: Option<SamplingMethod>)
    ensures
        r == sampling_method_of_tag(tag@),
{
    if str_eq_str(tag.as_str(), "first") {
        Some(SamplingMethod::First)
    } else if str_eq_str(tag.as_str(), "last") {
        Some(SamplingMethod::Last)
    } else if str_eq_str(tag.as_str(), "avg") {
        Some(SamplingMethod::Avg)
    } else if str_eq_str(tag.as_str(), "max") {
        Some(SamplingMethod::Max)
    } else if str_eq_str(tag.as_str(), "min") {
        Some(SamplingMethod::Min)
    } else {
        None
    }
}

/// The textual query interface, as received: names comma-separated,
/// instants in RFC 3339, numbers already in the fixed-point scale,
/// and the window and reference configurations already decoded from
/// their carried form.
#[derive(Debug)]
pub struct TelemetryQuery {
    pub asset_name: Option<String>,
    pub device_name: Option<String>,
    pub target_names: Option<String>,
    pub key_names: Option<String>,
    pub start_time: Option<String>,
    pub end_time: Option<String>,
    pub remove_outliers: Option<bool>,
    pub outlier_method: Option<String>,
    pub min_value: Option<i64>,
    pub max_value: Option<i64>,
    pub exclude_values: Option<Vec<i64>>,
    pub limit: Option<usize>,
    pub sampling_interval: Option<i64>,
    pub sampling_method: Option<String>,
    pub reference_values: Option<Vec<ReferenceValue>>,
    pub time_ranges: Option<Vec<(String, String)>>,
}

/// Why a textual query is refused, if it is: a start or end instant
/// that does not parse, an unknown sampling-method tag, or a bad
/// time-of-day text, in that order.
pub open spec fn query_build_error(q: TelemetryQuery) -> Option<InvalidSpec> {
    if match q.start_time {
        Some(t) => rfc3339_millis(t@) is None,
        None => false,
    } {
        Some(InvalidSpec::BadStartTimeText)
    } else if match q.end_time {
        Some(t) => rfc3339_millis(t@) is None,
        None => false,
    } {
        Some(InvalidSpec::BadEndTimeText)
    } else if match (q.sampling_interval, q.sampling_method) {
        (Some(_), Some(tag)) => sampling_method_of_tag(tag@) is None,
        _ => false,
    } {
        Some(InvalidSpec::UnknownSamplingMethod)
    } else {
        match q.time_ranges {
            Some(pairs) => match first_bad_pair(pairs@) {
                Some(i) => Some(InvalidSpec::BadTimeText { index: i as usize }),
                None => None,
            },
            None => None,
        }
    }
}

/// Copy a value list.
fn copy_i64_vec(v: &Vec<i64>) -> (out: Vec<i64>)
    ensures
        out@ == v@,
{
    let mut out: Vec<i64> = Vec::new();
    let mut i: usize = 0;
    while i < v.len()
        invariant
            0 <= i <= v@.len(),
            out@ == v@.subrange(0, i as int),
        decreases v@.len() - i,
    {
        proof {
            assert(v@.subrange(0, i + 1int) =~= v@.subrange(0, i as int).push(v@[i as int]));
        }
        out.push(v[i]);
        i += 1;
    }
    proof {
        assert(v@.subrange(0, v@.len() as int) =~= v@);
    }
    out
}

/// Copy a reference-value list.
fn copy_ref_vec(v: &Vec<ReferenceValue>) -> (out: Vec<ReferenceValue>)
    ensures
        out@ == v@,
{
    let mut out: Vec<ReferenceValue> = Vec::new();
    let mut i: usize = 0;
    while i < v.len()
        invariant
            0 <= i <= v@.len(),
            out@ == v@.subrange(0, i as int),
        decreases v@.len() - i,
    {
        proof {
            assert(v@.subrange(0, i + 1int) =~= v@.subrange(0, i as int).push(v@[i as int]));
        }
        out.push(v[i].clone());
        i += 1;
    }
    proof {
        assert(v@.subrange(0, v@.len() as int) =~= v@);
    }
    out
}

/// Resolve a textual query into a checked query description, or
/// refuse it as [`query_build_error`] says.
pub fn build_query_params(q: &TelemetryQuery) -> (r: Result<QueryParams, InvalidSpec>)
    ensures
        match query_build_error(*q) {
            Some(e) => r == Result::<QueryParams, InvalidSpec>::Err(e),
            None => {
                &&& r is Ok
                &&& {
                    let p = r.unwrap();
                    &&& p.asset_name == q.asset_name
                    &&& p.device_name == q.device_name
                    &&& (match q.target_names {
                        Some(t) => p.target_names@.len() == split_commas(t@).len() && (forall|
                            k: int,
                        |
                            0 <= k < p.target_names@.len() ==> (#[trigger] p.target_names@[k])@
                                == trim_spec(split_commas(t@)[k])),
                        None => p.target_names@.len() == 0,
                    })
                    &&& (match q.key_names {
                        Some(t) => p.key_names@.len() == split_commas(t@).len() && (forall|k: int|
                            0 <= k < p.key_names@.len() ==> (#[trigger] p.key_names@[k])@
                                == trim_spec(split_commas(t@)[k])),
                        None => p.key_names@.len() == 0,
                    })
                    &&& p.start_time_ms == (match q.start_time {
                        Some(t) => rfc3339_millis(t@),
                        None => None,
                    })
                    &&& p.end_time_ms == (match q.end_time {
                        Some(t) => rfc3339_millis(t@),
                        None => None,
                    })
                    &&& p.remove_outliers == (match q.remove_outliers {
                        Some(b) => b,
                        None => false,
                    })
                    &&& p.outlier_method@ == (match q.outlier_method {
                        Some(s) => s@,
                        None => "iqr"@,
                    })
                    &&& (if q.min_value is Some || q.max_value is Some || q.exclude_values
                        is Some {
                        &&& p.custom_filter is Some
                        &&& p.custom_filter.unwrap().min_value == q.min_value
                        &&& p.custom_filter.unwrap().max_value == q.max_value
                        &&& p.custom_filter.unwrap().exclude_values@ == (match q.exclude_values {
                            Some(v) => v@,
                            None => Seq::<i64>::empty(),
                        })
                    } else {
                        p.custom_filter is None
                    })
                    &&& p.limit == q.limit
                    &&& (match q.sampling_interval {
                        Some(iv) => p.sampling_config == Some(
                            SamplingConfig {
                                interval_ms: iv,
                                method: (match q.sampling_method {
                                    Some(tag) => sampling_method_of_tag(tag@).unwrap(),
                                    None => SamplingMethod::First,
                                }),
                            },
                        ),
                        None => p.sampling_config is None,
                    })
                    &&& (match q.reference_values {
                        Some(rv) => p.reference_values is Some && p.reference_values.unwrap()@
                            == rv@,
                        None => p.reference_values is None,
                    })
                    &&& (match q.time_ranges {
                        Some(pairs) => if pairs@.len() == 0 {
                            p.time_of_day_filter is None
                        } else {
                            &&& p.time_of_day_filter is Some
                            &&& p.time_of_day_filter.unwrap().time_ranges@.len() == pairs@.len()
                            &&& forall|k: int|
                                0 <= k < pairs@.len() ==> Some(
                                    #[trigger] p.time_of_day_filter.unwrap().time_ranges@[k],
                                ) == pair_window(pairs@[k])
                        },
                        None => p.time_of_day_filter is None,
                    })
                }
            },
        },
{
    let target_names: Vec<String> = match &q.target_names {
        Some(t) => split_and_trim(t.as_str()),
        None => Vec::new(),
    };
    let key_names: Vec<String> = match &q.key_names {
        Some(t) => split_and_trim(t.as_str()),
        None => Vec::new(),
    };
    let start_time_ms: Option<i64> = match &q.start_time {
        Some(t) => match parse_rfc3339_ms(t.as_str()) {
            Some(ms) => Some(ms),
            None => {
                return Err(InvalidSpec::BadStartTimeText);
            }
        },
        None => None,
    };
    let end_time_ms: Option<i64> = match &q.end_time {
        Some(t) => match parse_rfc3339_ms(t.as_str()) {
            Some(ms) => Some(ms),
            None => {
                return Err(InvalidSpec::BadEndTimeText);
            }
        },
        None => None,
    };
    let custom_filter: Option<CustomFilter> = if q.min_value.is_some() || q.max_value.is_some()
        || q.exclude_values.is_some() {
        let exclude_values: Vec<i64> = match &q.exclude_values {
            Some(v) => copy_i64_vec(v),
            None => Vec::new(),
        };
        Some(
            CustomFilter {
                min_value: q.min_value,
                max_value: q.max_value,
                exclude_values,
            },
        )
    } else {
        None
    };
    let sampling_config: Option<SamplingConfig> = match &q.sampling_interval {
        Some(iv) => {
            let method = match &q.sampling_method {
                Some(tag) => match sampling_method_from_tag(tag) {
                    Some(m) => m,
                    None => {
                        return Err(InvalidSpec::UnknownSamplingMethod);
                    }
                },
                None => SamplingMethod::First,
            };
            Some(SamplingConfig { interval_ms: *iv, method })
        }
        None => None,
    };
    let reference_values: Option<Vec<ReferenceValue>> = match &q.reference_values {
        Some(rv) => Some(copy_ref_vec(rv)),
        None => None,
    };
    let time_of_day_filter: Option<TimeOfDayFilter> = match &q.time_ranges {
        Some(pairs) => match parse_time_ranges(pairs) {
            Ok(trs) => {
                if trs.len() == 0 {
                    None
                } else {
                    Some(TimeOfDayFilter { time_ranges: trs })
                }
            }
            Err(e) => {
                return Err(e);
            }
        },
        None => None,
    };
    let asset_name = match &q.asset_name {
        Some(a) => Some(a.clone()),
        None => None,
    };
    let device_name = match &q.device_name {
        Some(a) => Some(a.clone()),
        None => None,
    };
    let remove_outliers = match &q.remove_outliers {
        Some(b) => *b,
        None => false,
    };
    let outlier_method = match &q.outlier_method {
        Some(s) => s.clone(),
        None => String::from_str("iqr"),
    };
    Ok(
        QueryParams {
            asset_name,
            device_name,
            target_names,
            key_names,
            start_time_ms,
            end_time_ms,
            remove_outliers,
            outlier_method,
            custom_filter,
            limit: q.limit,
            sampling_config,
            reference_values,
            time_of_day_filter,
        },
    )
}

/// A request to create a correction rule.
#[derive(Debug)]
pub struct CreateOperationRequest {
    pub name: Option<String>,
    pub description: Option<String>,
    pub target_name: String,
    pub key_name: String,
    pub operation_type: String,
    pub value: i64,
    pub start_time: Option<String>,
    pub end_time: Option<String>,
}

/// A request to rewrite a correction rule.
#[derive(Debug)]
pub struct UpdateOperationRequest {
    pub id: i64,
    pub name: Option<String>,
    pub description: Option<String>,
    pub target_name: String,
    pub key_name: String,
    pub operation_type: String,
    pub value: i64,
    pub start_time: Option<String>,
    pub end_time: Option<String>,
    pub is_active: bool,
}

/// Why a rule request is refused, if it is: an unknown operation tag,
/// then a start instant that does not parse, then an end instant.
pub open spec fn operation_build_error(
    op_tag: String,
    start_time: Option<String>,
    end_time: Option<String>,
) -> Option<InvalidSpec> {
    if op_type_of_tag(op_tag@) is None {
        Some(InvalidSpec::UnknownOperationType)
    } else if match start_time {
        Some(t) => rfc3339_millis(t@) is None,
        None => false,
    } {
        Some(InvalidSpec::BadStartTimeText)
    } else if match end_time {
        Some(t) => rfc3339_millis(t@) is None,
        None => false,
    } {
        Some(InvalidSpec::BadEndTimeText)
    } else {
        None
    }
}

/// Resolve a creation request into a rule: active from the start,
/// not yet persisted, stamped with the moment `now_ms`.
pub fn build_create_operation(req: &CreateOperationRequest, now_ms_arg: i64) -> (r: Result<
    DataOperation,
    InvalidSpec,
>)
    ensures
        match operation_build_error(req.operation_type, req.start_time, req.end_time) {
            Some(e) => r == Result::<DataOperation, InvalidSpec>::Err(e),
            None => {
                &&& r is Ok
                &&& {
                    let op = r.unwrap();
                    &&& op.id is None
                    &&& op.name == req.name
                    &&& op.description == req.description
                    &&& op.target_name == req.target_name
                    &&& op.key_name == req.key_name
                    &&& Some(op.operation_type) == op_type_of_tag(req.operation_type@)
                    &&& op.value == req.value
                    &&& op.start_time_ms == (match req.start_time {
                        Some(t) => rfc3339_millis(t@),
                        None => None,
                    })
                    &&& op.end_time_ms == (match req.end_time {
                        Some(t) => rfc3339_millis(t@),
                        None => None,
                    })
                    &&& op.is_active == true
                    &&& op.created_at_ms == now_ms_arg
                    &&& op.updated_at_ms == now_ms_arg
                }
            },
        },
{
    let operation_type = match OperationType::from_str(req.operation_type.as_str()) {
        Some(t) => t,
        None => {
            return Err(InvalidSpec::UnknownOperationType);
        }
    };
    let start_time_ms: Option<i64> = match &req.start_time {
        Some(t) => match parse_rfc3339_ms(t.as_str()) {
            Some(ms) => Some(ms),
            None => {
                return Err(InvalidSpec::BadStartTimeText);
            }
        },
        None => None,
    };
    let end_time_ms: Option<i64> = match &req.end_time {
        Some(t) => match parse_rfc3339_ms(t.as_str()) {
            Some(ms) => Some(ms),
            None => {
                return Err(InvalidSpec::BadEndTimeText);
            }
        },
        None => None,
    };
    Ok(
        DataOperation {
            id: None,
            name: match &req.name {
                Some(n) => Some(n.clone()),
                None => None,
            },
            description: match &req.description {
                Some(n) => Some(n.clone()),
                None => None,
            },
            target_name: req.target_name.clone(),
            key_name: req.key_name.clone(),
            operation_type,
            value: req.value,
            start_time_ms,
            end_time_ms,
            is_active: true,
            created_at_ms: now_ms_arg,
            updated_at_ms: now_ms_arg,
        },
    )
}

/// As [`build_create_operation`], stamped with the clock's moment.
pub fn create_operation_now(req: &CreateOperationRequest) -> (r: Result<
    DataOperation,
    InvalidSpec,
>)
    ensures
        match operation_build_error(req.operation_type, req.start_time, req.end_time) {
            Some(e) => r == Result::<DataOperation, InvalidSpec>::Err(e),
            None => {
                &&& r is Ok
                &&& r.unwrap().id is None
                &&& r.unwrap().name == req.name
                &&& r.unwrap().target_name == req.target_name
                &&& r.unwrap().key_name == req.key_name
                &&& Some(r.unwrap().operation_type) == op_type_of_tag(req.operation_type@)
                &&& r.unwrap().value == req.value
                &&& r.unwrap().is_active == true
                &&& r.unwrap().created_at_ms == r.unwrap().updated_at_ms
            },
        },
{
    let now = now_ms();
    build_create_operation(req, now)
}

/// Resolve an update request into the rule it rewrites, stamped with
/// the moment `now_ms`.
pub fn build_update_operation(req: &UpdateOperationRequest, now_ms_arg: i64) -> (r: Result<
    DataOperation,
    InvalidSpec,
>)
    ensures
        match operation_build_error(req.operation_type, req.start_time, req.end_time) {
            Some(e) => r == Result::<DataOperation, InvalidSpec>::Err(e),
            None => {
                &&& r is Ok
                &&& {
                    let op = r.unwrap();
                    &&& op.id == Some(req.id)
                    &&& op.name == req.name
                    &&& op.description == req.description
                    &&& op.target_name == req.target_name
                    &&& op.key_name == req.key_name
                    &&& Some(op.operation_type) == op_type_of_tag(req.operation_type@)
                    &&& op.value == req.value
                    &&& op.start_time_ms == (match req.start_time {
                        Some(t) => rfc3339_millis(t@),
                        None => None,
                    })
                    &&& op.end_time_ms == (match req.end_time {
                        Some(t) => rfc3339_millis(t@),
                        None => None,
                    })
                    &&& op.is_active == req.is_active
                    &&& op.created_at_ms == now_ms_arg
                    &&& op.updated_at_ms == now_ms_arg
                }
            },
        },
{
    let operation_type = match OperationType::from_str(req.operation_type.as_str()) {
        Some(t) => t,
        None => {
            return Err(InvalidSpec::UnknownOperationType);
        }
    };
    let start_time_ms: Option<i64> = match &req.start_time {
        Some(t) => match parse_rfc3339_ms(t.as_str()) {
            Some(ms) => Some(ms),
            None => {
                return Err(InvalidSpec::BadStartTimeText);
            }
        },
        None => None,
    };
    let end_time_ms: Option<i64> = match &req.end_time {
        Some(t) => match parse_rfc3339_ms(t.as_str()) {
            Some(ms) => Some(ms),
            None => {
                return Err(InvalidSpec::BadEndTimeText);
            }
        },
        None => None,
    };
    Ok(
        DataOperation {
            id: Some(req.id),
            name: match &req.name {
                Some(n) => Some(n.clone()),
                None => None,
            },
            description: match &req.description {
                Some(n) => Some(n.clone()),
                None => None,
            },
            target_name: req.target_name.clone(),
            key_name: req.key_name.clone(),
            operation_type,
            value: req.value,
            start_time_ms,
            end_time_ms,
            is_active: req.is_active,
            created_at_ms: now_ms_arg,
            updated_at_ms: now_ms_arg,
        },
    )
}


/// One target's correction rules, as the export endpoint answers.
#[derive(Debug)]
pub struct ExportData {
    pub target_name: String,
    pub operations: Vec<DataOperation>,
    pub export_time_ms: i64,
}

/// One target's rules, in retrieval order.
pub open spec fn ops_of_target(s: Seq<DataOperation>, t: Seq<char>) -> Seq<DataOperation> {
    s.filter(|op: DataOperation| op.target_name@ == t)
}

/// A rule list without the target has no rules of it.
proof fn lemma_ops_of_target_empty(s: Seq<DataOperation>, t: Seq<char>)
    requires
        forall|ix: int| 0 <= ix < s.len() ==> (#[trigger] s[ix]).target_name@ != t,
    ensures
        ops_of_target(s, t) == Seq::<DataOperation>::empty(),
    decreases s.len(),
{
    reveal(Seq::filter);
    if s.len() > 0 {
        assert(forall|ix: int| 0 <= ix < s.len() - 1 ==> #[trigger] s.drop_last()[ix] == s[ix]);
        lemma_ops_of_target_empty(s.drop_last(), t);
        assert(ops_of_target(s, t) =~= Seq::<DataOperation>::empty());
    } else {
        assert(ops_of_target(s, t) =~= Seq::<DataOperation>::empty());
    }
}

/// Appending a rule extends exactly its own target's group.
proof fn lemma_ops_of_target_push(s: Seq<DataOperation>, x: DataOperation, t: Seq<char>)
    ensures
        ops_of_target(s.push(x), t) == (if x.target_name@ == t {
            ops_of_target(s, t).push(x)
        } else {
            ops_of_target(s, t)
        }),
{
    reveal(Seq::filter);
    assert(s.push(x).drop_last() =~= s);
    assert(s.push(x).last() == x);
    if x.target_name@ == t {
        assert(ops_of_target(s.push(x), t) =~= ops_of_target(s, t).push(x));
    } else {
        assert(ops_of_target(s.push(x), t) =~= ops_of_target(s, t));
    }
}

/// The distinct target names of a rule list, in order of first
/// appearance.
pub open spec fn distinct_op_targets(s: Seq<DataOperation>) -> Seq<Seq<char>>
    decreases s.len(),
{
    if s.len() == 0 {
        Seq::empty()
    } else {
        let prev = distinct_op_targets(s.drop_last());
        if prev.contains(s.last().target_name@) {
            prev
        } else {
            prev.push(s.last().target_name@)
        }
    }
}

/// Group the rules by their target for export: one group per
/// distinct target in order of first appearance, holding that
/// target's rules in retrieval order, stamped with the export moment.
pub fn export_operations(operations: &Vec<DataOperation>, export_time_ms: i64) -> (out: Vec<
    ExportData,
>)
    ensures
        out@.len() == distinct_op_targets(operations@).len(),
        forall|k: int|
            0 <= k < out@.len() ==> {
                let t = distinct_op_targets(operations@)[k];
                &&& (#[trigger] out@[k]).target_name@ == t
                &&& out@[k].operations@ == ops_of_target(operations@, t)
                &&& out@[k].export_time_ms == export_time_ms
            },
{
    let mut out: Vec<ExportData> = Vec::new();
    let mut i: usize = 0;
    proof {
        assert(operations@.subrange(0, 0int) =~= Seq::<DataOperation>::empty());
    }
    while i < operations.len()
        invariant
            0 <= i <= operations@.len(),
            out@.len() == distinct_op_targets(operations@.subrange(0, i as int)).len(),
            forall|k: int|
                0 <= k < out@.len() ==> {
                    let t = distinct_op_targets(operations@.subrange(0, i as int))[k];
                    &&& (#[trigger] out@[k]).target_name@ == t
                    &&& out@[k].operations@ == ops_of_target(
                        operations@.subrange(0, i as int),
                        t,
                    )
                    &&& out@[k].export_time_ms == export_time_ms
                },
        decreases operations@.len() - i,
    {
        let ghost prefix = operations@.subrange(0, i as int);
        let ghost prefix1 = operations@.subrange(0, i + 1int);
        let ghost tv = operations@[i as int].target_name@;
        proof {
            assert(prefix1 =~= prefix.push(operations@[i as int]));
            assert(prefix1.drop_last() =~= prefix);
        }
        let op = &operations[i];
        // find this target's group, if it exists yet
        let mut j: usize = 0;
        let mut found: Option<usize> = None;
        while j < out.len()
            invariant
                0 <= j <= out@.len(),
                tv == operations@[i as int].target_name@,
                op.target_name@ == tv,
                0 <= i < operations@.len(),
                match found {
                    Some(f) => 0 <= f < out@.len() && out@[f as int].target_name@ == tv,
                    None => forall|k: int|
                        0 <= k < j ==> (#[trigger] out@[k]).target_name@ != tv,
                },
                found is Some ==> j == out@.len(),
            decreases out@.len() - j,
        {
            if out[j].target_name == op.target_name {
                found = Some(j);
                proof {
                    assert(out@[j as int].target_name@ == tv);
                }
                j = out.len();
            } else {
                j += 1;
            }
        }
        let ghost dist = distinct_op_targets(prefix);
        let ghost dist1 = distinct_op_targets(prefix1);
        match found {
            Some(f) => {
                proof {
                    assert(dist[f as int] == tv);
                    assert(dist.contains(tv));
                    assert(dist1 == dist);
                    lemma_distinct_op_targets_nodup(prefix);
                    assert forall|k: int| 0 <= k < dist.len() implies ops_of_target(
                        prefix1,
                        dist[k],
                    ) == if dist[k] == tv {
                        ops_of_target(prefix, dist[k]).push(operations@[i as int])
                    } else {
                        ops_of_target(prefix, dist[k])
                    } by {
                        lemma_ops_of_target_push(prefix, operations@[i as int], dist[k]);
                    }
                }
                let ghost out_before = out@;
                let mut g = out.remove(f);
                let ghost g_before = g;
                g.operations.push(op.clone());
                let ghost g_after = g;
                out.insert(f, g);
                proof {
                    assert(g_before == out_before[f as int]);
                    assert(g_after.operations@ == g_before.operations@.push(
                        operations@[i as int],
                    ));
                    assert(g_after.target_name == g_before.target_name);
                    assert(g_after.export_time_ms == g_before.export_time_ms);
                    assert(out@ =~= out_before.update(f as int, g_after));
                }
            }
            None => {
                proof {
                    assert forall|k: int| 0 <= k < dist.len() implies dist[k] != tv by {
                        assert(out@[k].target_name@ == dist[k]);
                    }
                    assert(!dist.contains(tv));
                    assert(dist1 =~= dist.push(tv));
                    assert forall|ix: int| 0 <= ix < prefix.len() implies (
                    #[trigger] prefix[ix]).target_name@ != tv by {
                        lemma_distinct_op_targets_complete(prefix, ix);
                    }
                    lemma_ops_of_target_empty(prefix, tv);
                    lemma_ops_of_target_push(prefix, operations@[i as int], tv);
                    assert(ops_of_target(prefix1, tv) =~= Seq::<DataOperation>::empty().push(
                        operations@[i as int],
                    ));
                    assert forall|k: int| 0 <= k < dist.len() implies ops_of_target(
                        prefix1,
                        dist[k],
                    ) == ops_of_target(prefix, dist[k]) by {
                        lemma_ops_of_target_push(prefix, operations@[i as int], dist[k]);
                    }
                }
                let mut ops_vec: Vec<DataOperation> = Vec::new();
                ops_vec.push(op.clone());
                out.push(
                    ExportData {
                        target_name: op.target_name.clone(),
                        operations: ops_vec,
                        export_time_ms,
                    },
                );
            }
        }
        i += 1;
    }
    proof {
        assert(operations@.subrange(0, operations@.len() as int) =~= operations@);
    }
    out
}

/// Every rule's target is among the distinct targets.
proof fn lemma_distinct_op_targets_complete(s: Seq<DataOperation>, i: int)
    requires
        0 <= i < s.len(),
    ensures
        distinct_op_targets(s).contains(s[i].target_name@),
    decreases s.len(),
{
    if i == s.len() - 1 {
        let prev = distinct_op_targets(s.drop_last());
        if prev.contains(s.last().target_name@) {
        } else {
            assert(distinct_op_targets(s)[prev.len() as int] == s.last().target_name@);
        }
    } else {
        lemma_distinct_op_targets_complete(s.drop_last(), i);
        let prev = distinct_op_targets(s.drop_last());
        let t0 = s.drop_last()[i].target_name@;
        let k = choose|k: int| 0 <= k < prev.len() && prev[k] == t0;
        assert(distinct_op_targets(s)[k] == t0);
    }
}

/// The distinct targets are pairwise distinct.
proof fn lemma_distinct_op_targets_nodup(s: Seq<DataOperation>)
    ensures
        forall|k1: int, k2: int|
            0 <= k1 < k2 < distinct_op_targets(s).len() ==> distinct_op_targets(s)[k1]
                != distinct_op_targets(s)[k2],
    decreases s.len(),
{
    if s.len() > 0 {
        lemma_distinct_op_targets_nodup(s.drop_last());
        let prev = distinct_op_targets(s.drop_last());
        let t = s.last().target_name@;
        let dist = distinct_op_targets(s);
        if !prev.contains(t) {
            assert forall|k1: int, k2: int| 0 <= k1 < k2 < dist.len() implies dist[k1]
                != dist[k2] by {
                if k2 == prev.len() {
                    assert(dist[k1] == prev[k1]);
                    if prev[k1] == t {
                        assert(prev.contains(prev[k1]));
                    }
                }
            }
        }
    }
}

/// One rule of a bulk import, scoped to its group's target.
#[derive(Debug)]
pub struct ImportOperation {
    pub name: Option<String>,
    pub description: Option<String>,
    pub key_name: String,
    pub operation_type: String,
    pub value: i64,
    pub start_time: Option<String>,
    pub end_time: Option<String>,
    pub is_active: bool,
}

/// One target's rules of a bulk import.
#[derive(Debug)]
pub struct ImportData {
    pub target_name: String,
    pub operations: Vec<ImportOperation>,
}

/// The rule an import entry resolves to, when it is valid.
pub open spec fn import_op_spec(target: String, op: ImportOperation, now: i64) -> DataOperation {
    DataOperation {
        id: None,
        name: op.name,
        description: op.description,
        target_name: target,
        key_name: op.key_name,
        operation_type: op_type_of_tag(op.operation_type@).unwrap(),
        value: op.value,
        start_time_ms: (match op.start_time {
            Some(t) => rfc3339_millis(t@),
            None => None,
        }),
        end_time_ms: (match op.end_time {
            Some(t) => rfc3339_millis(t@),
            None => None,
        }),
        is_active: op.is_active,
        created_at_ms: now,
        updated_at_ms: now,
    }
}

/// Why an import entry is refused, if it is.
pub open spec fn import_op_error(op: ImportOperation) -> Option<InvalidSpec> {
    operation_build_error(op.operation_type, op.start_time, op.end_time)
}

/// The first error among one group's entries, if any.
pub open spec fn import_group_error(ops: Seq<ImportOperation>) -> Option<InvalidSpec>
    decreases ops.len(),
{
    if ops.len() == 0 {
        None
    } else {
        match import_op_error(ops[0]) {
            Some(e) => Some(e),
            None => import_group_error(ops.drop_first()),
        }
    }
}

/// The first error of a bulk import, walking groups in order.
pub open spec fn import_error(groups: Seq<ImportData>) -> Option<InvalidSpec>
    decreases groups.len(),
{
    if groups.len() == 0 {
        None
    } else {
        match import_group_error(groups[0].operations@) {
            Some(e) => Some(e),
            None => import_error(groups.drop_first()),
        }
    }
}

/// The rules of the first `n` groups, concatenated, when all are
/// valid.
pub open spec fn import_ops_upto(groups: Seq<ImportData>, now: i64, n: int) -> Seq<DataOperation>
    decreases n,
{
    if n <= 0 {
        Seq::empty()
    } else {
        import_ops_upto(groups, now, n - 1) + groups[n - 1].operations@.map_values(
            |op: ImportOperation| import_op_spec(groups[n - 1].target_name, op, now),
        )
    }
}

/// Resolve an import entry into the rule it describes.
pub fn build_import_operation(target_name: &String, op: &ImportOperation, now_ms_arg: i64) -> (r:
    Result<DataOperation, InvalidSpec>)
    ensures
        match import_op_error(*op) {
            Some(e) => r == Result::<DataOperation, InvalidSpec>::Err(e),
            None => r == Result::<DataOperation, InvalidSpec>::Ok(
                import_op_spec(*target_name, *op, now_ms_arg),
            ),
        },
{
    let operation_type = match OperationType::from_str(op.operation_type.as_str()) {
        Some(t) => t,
        None => {
            return Err(InvalidSpec::UnknownOperationType);
        }
    };
    let start_time_ms: Option<i64> = match &op.start_time {
        Some(t) => match parse_rfc3339_ms(t.as_str()) {
            Some(ms) => Some(ms),
            None => {
                return Err(InvalidSpec::BadStartTimeText);
            }
        },
        None => None,
    };
    let end_time_ms: Option<i64> = match &op.end_time {
        Some(t) => match parse_rfc3339_ms(t.as_str()) {
            Some(ms) => Some(ms),
            None => {
                return Err(InvalidSpec::BadEndTimeText);
            }
        },
        None => None,
    };
    Ok(
        DataOperation {
            id: None,
            name: match &op.name {
                Some(n) => Some(n.clone()),
                None => None,
            },
            description: match &op.description {
                Some(n) => Some(n.clone()),
                None => None,
            },
            target_name: target_name.clone(),
            key_name: op.key_name.clone(),
            operation_type,
            value: op.value,
            start_time_ms,
            end_time_ms,
            is_active: op.is_active,
            created_at_ms: now_ms_arg,
            updated_at_ms: now_ms_arg,
        },
    )
}

/// Resolve a whole bulk import: every entry of every group in order,
/// or the first entry's error.
pub fn build_import_operations(groups: &Vec<ImportData>, now_ms_arg: i64) -> (r: Result<
    Vec<DataOperation>,
    InvalidSpec,
>)
    ensures
        match import_error(groups@) {
            Some(e) => r == Result::<Vec<DataOperation>, InvalidSpec>::Err(e),
            None => r is Ok && r.unwrap()@ == import_ops_upto(
                groups@,
                now_ms_arg,
                groups@.len() as int,
            ),
        },
{
    let mut out: Vec<DataOperation> = Vec::new();
    let mut i: usize = 0;
    proof {
        assert(out@ =~= import_ops_upto(groups@, now_ms_arg, 0int));
        lemma_import_error_prefix(groups@, 0int);
    }
    while i < groups.len()
        invariant
            0 <= i <= groups@.len(),
            out@ == import_ops_upto(groups@, now_ms_arg, i as int),
            forall|k: int| 0 <= k < i ==> import_group_error((#[trigger] groups@[k]).operations@) is None,
            import_error(groups@) is Some ==> exists|k: int|
                i <= k < groups@.len() && import_group_error(
                    (#[trigger] groups@[k]).operations@,
                ) is Some,
        decreases groups@.len() - i,
    {
        let g = &groups[i];
        let mut j: usize = 0;
        while j < g.operations.len()
            invariant
                0 <= j <= g.operations@.len(),
                g == &groups@[i as int],
                0 <= i < groups@.len(),
                out@ == import_ops_upto(groups@, now_ms_arg, i as int)
                    + g.operations@.subrange(0, j as int).map_values(
                    |op: ImportOperation| import_op_spec(groups@[i as int].target_name, op, now_ms_arg),
                ),
                forall|k: int| 0 <= k < j ==> import_op_error(#[trigger] g.operations@[k]) is None,
                forall|k: int| 0 <= k < i ==> import_group_error((#[trigger] groups@[k]).operations@) is None,
                import_error(groups@) is Some ==> exists|k: int|
                    i <= k < groups@.len() && import_group_error(
                        (#[trigger] groups@[k]).operations@,
                    ) is Some,
            decreases g.operations@.len() - j,
        {
            match build_import_operation(&g.target_name, &g.operations[j], now_ms_arg) {
                Ok(op) => {
                    out.push(op);
                    proof {
                        assert(g.operations@.subrange(0, j + 1int) =~= g.operations@.subrange(
                            0,
                            j as int,
                        ).push(g.operations@[j as int]));
                        assert(g.operations@.subrange(0, j + 1int).map_values(
                            |op: ImportOperation| import_op_spec(
                                groups@[i as int].target_name,
                                op,
                                now_ms_arg,
                            ),
                        ) =~= g.operations@.subrange(0, j as int).map_values(
                            |op: ImportOperation| import_op_spec(
                                groups@[i as int].target_name,
                                op,
                                now_ms_arg,
                            ),
                        ).push(import_op_spec(
                            groups@[i as int].target_name,
                            g.operations@[j as int],
                            now_ms_arg,
                        )));
                        assert(out@ =~= import_ops_upto(groups@, now_ms_arg, i as int)
                            + g.operations@.subrange(0, j + 1int).map_values(
                            |op: ImportOperation| import_op_spec(
                                groups@[i as int].target_name,
                                op,
                                now_ms_arg,
                            ),
                        ));
                    }
                }
                Err(e) => {
                    proof {
                        lemma_import_group_error_at(g.operations@, j as int);
                        lemma_import_error_at(groups@, i as int);
                    }
                    return Err(e);
                }
            }
            j += 1;
        }
        proof {
            assert(g.operations@.subrange(0, g.operations@.len() as int) =~= g.operations@);
            lemma_import_group_error_none(g.operations@);
            assert(import_ops_upto(groups@, now_ms_arg, i + 1int) == import_ops_upto(
                groups@,
                now_ms_arg,
                i as int,
            ) + groups@[i as int].operations@.map_values(
                |op: ImportOperation| import_op_spec(groups@[i as int].target_name, op, now_ms_arg),
            ));
        }
        i += 1;
    }
    proof {
        if import_error(groups@) is Some {
            lemma_import_error_witness(groups@);
            let k = choose|k: int|
                0 <= k < groups@.len() && import_group_error(
                    (#[trigger] groups@[k]).operations@,
                ) is Some;
            assert(import_group_error(groups@[k].operations@) is None);
        }
    }
    Ok(out)
}

/// A group with an error in every walk order: if every entry before
/// `j` is fine and entry `j` errs, the group's first error is entry
/// `j`'s.
proof fn lemma_import_group_error_at(ops: Seq<ImportOperation>, j: int)
    requires
        0 <= j < ops.len(),
        forall|k: int| 0 <= k < j ==> import_op_error(#[trigger] ops[k]) is None,
        import_op_error(ops[j]) is Some,
    ensures
        import_group_error(ops) == import_op_error(ops[j]),
    decreases j,
{
    if j == 0 {
    } else {
        let rest = ops.drop_first();
        assert(forall|k: int| 0 <= k < rest.len() ==> #[trigger] rest[k] == ops[k + 1]);
        lemma_import_group_error_at(rest, j - 1);
    }
}

/// A group whose entries are all fine has no error.
proof fn lemma_import_group_error_none(ops: Seq<ImportOperation>)
    requires
        forall|k: int| 0 <= k < ops.len() ==> import_op_error(#[trigger] ops[k]) is None,
    ensures
        import_group_error(ops) is None,
    decreases ops.len(),
{
    if ops.len() > 0 {
        let rest = ops.drop_first();
        assert(forall|k: int| 0 <= k < rest.len() ==> #[trigger] rest[k] == ops[k + 1]);
        lemma_import_group_error_none(rest);
    }
}

/// If every group before `i` is fine and group `i` errs, the bulk
/// import's first error is group `i`'s.
proof fn lemma_import_error_at(groups: Seq<ImportData>, i: int)
    requires
        0 <= i < groups.len(),
        forall|k: int| 0 <= k < i ==> import_group_error((#[trigger] groups[k]).operations@) is None,
        import_group_error(groups[i].operations@) is Some,
    ensures
        import_error(groups) == import_group_error(groups[i].operations@),
    decreases i,
{
    if i == 0 {
    } else {
        let rest = groups.drop_first();
        assert(forall|k: int| 0 <= k < rest.len() ==> #[trigger] rest[k] == groups[k + 1]);
        lemma_import_error_at(rest, i - 1);
    }
}

/// An erring bulk import has an erring group.
proof fn lemma_import_error_witness(groups: Seq<ImportData>)
    requires
        import_error(groups) is Some,
    ensures
        exists|k: int|
            0 <= k < groups.len() && import_group_error(
                (#[trigger] groups[k]).operations@,
            ) is Some,
    decreases groups.len(),
{
    if groups.len() > 0 {
        if import_group_error(groups[0].operations@) is Some {
        } else {
            let rest = groups.drop_first();
            lemma_import_error_witness(rest);
            let k = choose|k: int|
                0 <= k < rest.len() && import_group_error((#[trigger] rest[k]).operations@) is Some;
            assert(rest[k] == groups[k + 1]);
            assert(import_group_error((groups[k + 1]).operations@) is Some);
        }
    }
}

/// A bulk import is error-free exactly when every group is.
proof fn lemma_import_error_prefix(groups: Seq<ImportData>, i: int)
    requires
        0 <= i <= groups.len(),
    ensures
        import_error(groups) is Some ==> exists|k: int|
            0 <= k < groups.len() && import_group_error(
                (#[trigger] groups[k]).operations@,
            ) is Some,
{
    if import_error(groups) is Some {
        lemma_import_error_witness(groups);
    }
}

} // verus!
