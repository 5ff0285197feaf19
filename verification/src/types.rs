//! Data model of the telemetry pipeline.

use vstd::prelude::*;
use crate::strutil::str_eq_str;

verus! {

/// Largest magnitude a sample value (fixed-point integer) may have.
/// Keeps every statistic of the pipeline exactly representable in
/// 128-bit intermediate arithmetic.
pub const MAX_ABS_VALUE: i64 = 1_000_000_000;

/// Largest magnitude of a timestamp in UTC milliseconds, so that
/// differences of two timestamps always fit an `i64`.
pub const MAX_ABS_TIMESTAMP: i64 = 4_000_000_000_000_000;

/// Largest population the statistical stages accept; together with
/// [`MAX_ABS_VALUE`] it keeps their squares and cross products within
/// 128-bit arithmetic.
pub const MAX_STAT_LEN: usize = 1_000_000;

/// One time-stamped reading of one metric of one target.
#[derive(Debug)]
pub struct TelemetryData {
    /// UTC instant of the reading, in milliseconds.
    pub timestamp_ms: i64,
    pub asset_name: String,
    pub device_name: String,
    pub target_name: String,
    pub key_name: String,
    /// The measured value as a fixed-point integer.
    pub value: i64,
}

/// A sample the pipeline accepts: value and timestamp within the
/// ranges the exact integer arithmetic is proved for.
pub open spec fn valid_sample(d: TelemetryData) -> bool {
    &&& -MAX_ABS_VALUE <= d.value <= MAX_ABS_VALUE
    &&& -MAX_ABS_TIMESTAMP <= d.timestamp_ms <= MAX_ABS_TIMESTAMP
}

pub open spec fn valid_samples(s: Seq<TelemetryData>) -> bool {
    forall|i: int| 0 <= i < s.len() ==> valid_sample(#[trigger] s[i])
}

/// Timestamps within range; enough for the stages that never read
/// values.
pub open spec fn valid_times(s: Seq<TelemetryData>) -> bool {
    forall|i: int|
        0 <= i < s.len() ==> -MAX_ABS_TIMESTAMP <= (#[trigger] s[i]).timestamp_ms
            <= MAX_ABS_TIMESTAMP
}

/// The arithmetic adjustment a correction rule performs.
#[derive(Clone, Copy, Debug, PartialEq, Eq, Structural)]
pub enum OperationType {
    Add,
    Subtract,
    Multiply,
    Divide,
}

/// The textual tag of each operation kind.
pub open spec fn op_type_tag(t: OperationType) -> Seq<char> {
    match t {
        OperationType::Add => "add"@,
        OperationType::Subtract => "subtract"@,
        OperationType::Multiply => "multiply"@,
        OperationType::Divide => "divide"@,
    }
}

/// Which operation kind a textual tag denotes; unknown tags denote none.
pub open spec fn op_type_of_tag(s: Seq<char>) -> Option<OperationType> {
    if s == "add"@ {
        Some(OperationType::Add)
    } else if s == "subtract"@ {
        Some(OperationType::Subtract)
    } else if s == "multiply"@ {
        Some(OperationType::Multiply)
    } else if s == "divide"@ {
        Some(OperationType::Divide)
    } else {
        None
    }
}

impl OperationType {
    pub fn as_str(&self) -> (r: &str)
        ensures
            r@ == op_type_tag(*self),
    {
        match self {
            OperationType::Add => "add",
            OperationType::Subtract => "subtract",
            OperationType::Multiply => "multiply",
            OperationType::Divide => "divide",
        }
    }

    pub fn from_str(s: &str) -> (r: Option<Self>)
        ensures
            r == op_type_of_tag(s@),
    {
        if str_eq_str(s, "add") {
            Some(OperationType::Add)
        } else if str_eq_str(s, "subtract") {
            Some(OperationType::Subtract)
        } else if str_eq_str(s, "multiply") {
            Some(OperationType::Multiply)
        } else if str_eq_str(s, "divide") {
            Some(OperationType::Divide)
        } else {
            None
        }
    }
}

/// Which method the outlier filter uses.
#[derive(Clone, Copy, Debug, PartialEq, Eq, Structural)]
pub enum OutlierMethod {
    Iqr,
    Zscore,
}

/// The method a textual tag selects.  Every tag other than `"zscore"`
/// falls back to the interquartile-range method; this silent default is
/// deliberate, where unknown operation tags are rejected outright.
pub open spec fn outlier_method_of_tag(s: Seq<char>) -> OutlierMethod {
    if s == "zscore"@ {
        OutlierMethod::Zscore
    } else {
        OutlierMethod::Iqr
    }
}

/// A named reference value to subtract from every sample of one
/// (target, metric) pair.
#[derive(Debug)]
pub struct ReferenceValue {
    pub target_name: String,
    pub key_name: String,
    pub reference_value: i64,
}

/// How samples inside one time bucket are aggregated.
#[derive(Clone, Copy, Debug, PartialEq, Eq, Structural)]
pub enum SamplingMethod {
    First,
    Last,
    Avg,
    Max,
    Min,
}

/// Bucket width and aggregation method of the resampling stage.
#[derive(Clone, Copy, Debug, PartialEq, Eq, Structural)]
pub struct SamplingConfig {
    /// Width of one bucket in milliseconds; must be positive.
    pub interval_ms: i64,
    pub method: SamplingMethod,
}

/// Value-range filter: optional lower and upper bounds, plus values to
/// exclude outright.
#[derive(Clone, Debug)]
pub struct CustomFilter {
    pub min_value: Option<i64>,
    pub max_value: Option<i64>,
    pub exclude_values: Vec<i64>,
}

/// One daily time-of-day window, in wall-clock hours and minutes.
/// A window whose start lies after its end wraps past midnight.
#[derive(Clone, Copy, Debug, PartialEq, Eq, Structural)]
pub struct TimeRange {
    pub start_hour: u8,
    pub start_minute: u8,
    pub end_hour: u8,
    pub end_minute: u8,
}

impl TimeRange {
    /// Minutes since midnight at which the window opens.
    pub open spec fn start_minutes(self) -> int {
        self.start_hour * 60 + self.start_minute
    }

    /// Minutes since midnight at which the window closes (inclusive).
    pub open spec fn end_minutes(self) -> int {
        self.end_hour * 60 + self.end_minute
    }

    /// All four components within their calendar ranges.
    pub open spec fn wf(self) -> bool {
        self.start_hour <= 23 && self.start_minute <= 59 && self.end_hour <= 23
            && self.end_minute <= 59
    }

    /// Whether a minute-of-day falls inside this window; a wrapped
    /// window covers both ends of the day.
    pub open spec fn contains_minute(self, m: int) -> bool {
        if self.start_minutes() <= self.end_minutes() {
            self.start_minutes() <= m <= self.end_minutes()
        } else {
            m >= self.start_minutes() || m <= self.end_minutes()
        }
    }
}

/// The set of daily windows a query keeps; a sample matching any one
/// window passes.
#[derive(Clone, Debug)]
pub struct TimeOfDayFilter {
    pub time_ranges: Vec<TimeRange>,
}

/// A correction rule: a named, time-scoped arithmetic adjustment keyed
/// by (target, metric), applied to matching samples while active.
#[derive(Debug)]
pub struct DataOperation {
    /// Absent until the rule is persisted by the store.
    pub id: Option<i64>,
    pub name: Option<String>,
    pub description: Option<String>,
    pub target_name: String,
    pub key_name: String,
    pub operation_type: OperationType,
    /// The operand, in the same fixed-point scale as sample values.
    pub value: i64,
    /// Start of validity, UTC milliseconds; absent means unbounded.
    pub start_time_ms: Option<i64>,
    /// End of validity, UTC milliseconds; absent means unbounded.
    pub end_time_ms: Option<i64>,
    pub is_active: bool,
    pub created_at_ms: i64,
    pub updated_at_ms: i64,
}

/// The fully-resolved description of a requested data slice and the
/// transforms to apply to it.
#[derive(Clone, Debug)]
pub struct QueryParams {
    pub asset_name: Option<String>,
    pub device_name: Option<String>,
    /// Targets to keep; empty means no restriction.
    pub target_names: Vec<String>,
    /// Metrics to keep; empty means no restriction.
    pub key_names: Vec<String>,
    /// Inclusive start of the queried range, UTC milliseconds.
    pub start_time_ms: Option<i64>,
    /// Inclusive end of the queried range, UTC milliseconds.
    pub end_time_ms: Option<i64>,
    pub remove_outliers: bool,
    /// Textual outlier-method tag; see [`outlier_method_of_tag`].
    pub outlier_method: String,
    pub custom_filter: Option<CustomFilter>,
    pub limit: Option<usize>,
    pub sampling_config: Option<SamplingConfig>,
    pub reference_values: Option<Vec<ReferenceValue>>,
    pub time_of_day_filter: Option<TimeOfDayFilter>,
}

/// Statistics derived from a query's input and output.
#[derive(Clone, Debug)]
pub struct DataStats {
    pub total_points: usize,
    pub target_count: usize,
    /// Smallest and largest output timestamp; absent when empty.
    pub time_range: Option<(i64, i64)>,
    /// Only reported when outlier removal was requested.
    pub outliers_removed: Option<usize>,
    pub outlier_method: Option<String>,
}

/// What a query returns: the transformed samples and their statistics.
#[derive(Clone, Debug)]
pub struct TelemetryResponse {
    pub data: Vec<TelemetryData>,
    pub stats: DataStats,
}

/// The distinct identifier values available for filtering.
#[derive(Clone, Debug)]
pub struct FilterOptions {
    pub assets: Vec<String>,
    pub devices: Vec<String>,
    pub targets: Vec<String>,
    pub key_names: Vec<String>,
}

/// Filter arguments of the identifier-listing endpoints.
#[derive(Clone, Debug)]
pub struct FilterQuery {
    pub asset_name: Option<String>,
    pub device_name: Option<String>,
}

/// Why a query description was rejected before any data was touched.
#[derive(Clone, Copy, Debug, PartialEq, Eq, Structural)]
pub enum InvalidSpec {
    /// The resampling interval is zero or negative.
    NonPositiveInterval,
    /// A time-of-day window holds an hour above 23 or a minute above 59.
    TimeWindowOutOfRange { index: usize },
    /// An operation tag denotes no known operation kind.
    UnknownOperationType,
    /// A sampling-method tag denotes no known aggregation method.
    UnknownSamplingMethod,
    /// A time-of-day text is not `HH:MM` within calendar range.
    BadTimeText { index: usize },
    /// The start instant of the queried range does not parse.
    BadStartTimeText,
    /// The end instant of the queried range does not parse.
    BadEndTimeText,
}

/// The uniform envelope the service answers with.
#[derive(Clone, Debug)]
pub struct ApiResponse<T> {
    pub success: bool,
    pub data: Option<T>,
    pub error: Option<String>,
}

impl<T> ApiResponse<T> {
    pub fn success(data: T) -> (r: Self)
        ensures
            r.success == true,
            r.data == Some(data),
            r.error is None,
    {
        Self { success: true, data: Some(data), error: None }
    }

    pub fn error(error: String) -> (r: Self)
        ensures
            r.success == false,
            r.data is None,
            r.error == Some(error),
    {
        Self { success: false, data: None, error: Some(error) }
    }
}

/// The tag of an operation kind always parses back to that kind.
pub proof fn lemma_op_type_tag_roundtrip(t: OperationType)
    ensures
        op_type_of_tag(op_type_tag(t)) == Some(t),
{
    reveal_strlit("add");
    reveal_strlit("subtract");
    reveal_strlit("multiply");
    reveal_strlit("divide");
    assert(("add"@).len() == 3);
    assert(("subtract"@).len() == 8);
    assert(("multiply"@).len() == 8);
    assert(("divide"@).len() == 6);
    match t {
        OperationType::Add => {
            assert(op_type_of_tag("add"@) == Some(OperationType::Add));
        }
        OperationType::Subtract => {
            assert(("subtract"@)[0] != ("multiply"@)[0]);
            assert(op_type_of_tag("subtract"@) == Some(OperationType::Subtract));
        }
        OperationType::Multiply => {
            assert(("multiply"@)[0] != ("subtract"@)[0]);
            assert(op_type_of_tag("multiply"@) == Some(OperationType::Multiply));
        }
        OperationType::Divide => {
            assert(op_type_of_tag("divide"@) == Some(OperationType::Divide));
        }
    }
}

} // verus!
