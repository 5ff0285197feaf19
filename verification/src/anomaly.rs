//! The anomaly detector: a stateless scan of a raw sample series for
//! sudden jumps and data gaps, with confidence scores and optional
//! suggested correction rules.
//!
//! All statistics are exact over the fixed-point integers.  The
//! z-score of an index against its preceding window of size `w` with
//! sum `s` and sum of squares `q` satisfies
//! `z*z == u*u / ww` for `u = w*value - s` and `ww = w*q - s*s`, so
//! the jump test `|z| > t` becomes `u*u > t*t*ww`, and the reported
//! magnitude and confidence are the rounded-down per-mille values
//! `sqrt(10^6 * u^2 / ww)` and `min(1000, sqrt(10^6 * u^2 / (t^2*ww)))`.
//! A window with zero variance (`ww == 0`) never signals a jump.

use vstd::prelude::*;
use crate::mathx::{isqrt_u128, sqrt_floor, sum_range, sum_seq, sum_sq_range, sum_sq_seq};
use crate::outlier::values_of;
use crate::stages::sat_sub_i64;
use crate::types::{
    valid_samples, DataOperation, OperationType, TelemetryData, MAX_ABS_TIMESTAMP,
    MAX_ABS_VALUE, MAX_STAT_LEN,
};
use vstd::string::StringExecFns;

verus! {

/// What kind of deviation a finding reports.
#[derive(Clone, Copy, Debug, PartialEq, Eq, Structural)]
pub enum AnomalyType {
    /// A value leaving its window's mean abruptly, as sunlight or a
    /// knock would cause.
    SuddenJump,
    /// A lasting shift of the series level (extension point).
    PersistentOffset,
    /// A widening of the series noise (extension point).
    IncreasedNoise,
    /// A pause of more than one hour between consecutive samples.
    DataGap,
}

/// How the detector is tuned.  Sensitivities are whole numbers of
/// standard deviations; the defaults mirror a three-sigma sensitivity
/// and a five-sigma jump threshold.
#[derive(Clone, Copy, Debug, PartialEq, Eq, Structural)]
pub struct AnomalyDetectionConfig {
    /// Sensitivity of the detectors, in standard deviations.
    pub sensitivity: u32,
    /// How many points a series needs before it is scanned, and the
    /// width of the baseline window.
    pub min_window_size: usize,
    /// How many standard deviations from the window mean count as a
    /// sudden jump.
    pub max_jump_threshold: u32,
    /// How many consecutive anomalous points escalate a finding
    /// (reserved for the unimplemented detectors).
    pub consecutive_anomaly_threshold: usize,
    /// Whether correction rules are suggested for detected jumps.
    pub auto_correction: bool,
}

impl Default for AnomalyDetectionConfig {
    fn default() -> (r: Self)
        ensures
            r.sensitivity == 3,
            r.min_window_size == 50,
            r.max_jump_threshold == 5,
            r.consecutive_anomaly_threshold == 3,
            r.auto_correction == false,
    {
        Self {
            sensitivity: 3,
            min_window_size: 50,
            max_jump_threshold: 5,
            consecutive_anomaly_threshold: 3,
            auto_correction: false,
        }
    }
}

/// A detector configuration the exact arithmetic is proved for.
pub open spec fn valid_config(c: AnomalyDetectionConfig) -> bool {
    &&& 1 <= c.min_window_size <= MAX_STAT_LEN
    &&& 1 <= c.max_jump_threshold <= 1000
}

/// One finding of the detector.  The jump magnitude is the absolute
/// z-score in rounded-down thousandths (zero for gaps); the
/// confidence is in thousandths of one.
#[derive(Debug)]
pub struct DetectedAnomaly {
    pub target_name: String,
    pub key_name: String,
    pub anomaly_type: AnomalyType,
    pub start_time_ms: i64,
    pub end_time_ms: Option<i64>,
    pub baseline_value: i64,
    pub anomaly_value: i64,
    pub jump_magnitude_mille: u64,
    pub confidence_mille: u32,
    pub suggested_correction: Option<DataOperation>,
}

impl Clone for DetectedAnomaly {
    fn clone(&self) -> (res: Self)
        ensures
            res == *self,
    {
        DetectedAnomaly {
            target_name: self.target_name.clone(),
            key_name: self.key_name.clone(),
            anomaly_type: self.anomaly_type,
            start_time_ms: self.start_time_ms,
            end_time_ms: self.end_time_ms,
            baseline_value: self.baseline_value,
            anomaly_value: self.anomaly_value,
            jump_magnitude_mille: self.jump_magnitude_mille,
            confidence_mille: self.confidence_mille,
            suggested_correction: match &self.suggested_correction {
                Some(op) => Some(op.clone()),
                None => None,
            },
        }
    }
}

/// Everything one detection run returns.
#[derive(Debug)]
pub struct AnomalyDetectionResult {
    pub anomalies: Vec<DetectedAnomaly>,
    pub suggested_operations: Vec<DataOperation>,
    pub summary: AnomalyDetectionSummary,
}

/// Findings bucketed by confidence: low is at most one half, high is
/// above four fifths, mid lies between.
#[derive(Clone, Copy, Debug, PartialEq, Eq, Structural)]
pub struct ConfidenceDistribution {
    pub low: usize,
    pub mid: usize,
    pub high: usize,
}

/// The roll-up of one detection run.
#[derive(Debug)]
pub struct AnomalyDetectionSummary {
    pub total_anomalies: usize,
    pub targets_affected: usize,
    /// The analyzed range; an unspecified bound falls back to the
    /// moment the summary was made.
    pub time_range_analyzed: (i64, i64),
    pub confidence_distribution: ConfidenceDistribution,
}

/// The sum of the window of width `w` that precedes index `i`.
pub open spec fn window_sum(values: Seq<i64>, i: int, w: int) -> int {
    sum_seq(values.subrange(i - w, i))
}

/// The sum of squares of the window of width `w` preceding index `i`.
pub open spec fn window_sum_sq(values: Seq<i64>, i: int, w: int) -> int {
    sum_sq_seq(values.subrange(i - w, i))
}

/// `w` times the distance of `values[i]` from its window mean,
/// i.e. `w^2 * (v - mean)`... precisely `w*v - s`, whose square over
/// `ww = w*q - s^2` is the squared z-score.
pub open spec fn jump_u(values: Seq<i64>, i: int, w: int) -> int {
    w * values[i] - window_sum(values, i, w)
}

/// `w^2` times the variance of the window preceding `i`.
pub open spec fn jump_w(values: Seq<i64>, i: int, w: int) -> int {
    w * window_sum_sq(values, i, w) - window_sum(values, i, w) * window_sum(values, i, w)
}

/// Whether index `i` is a sudden jump: its squared z-score exceeds
/// the squared threshold, and the window has variance — a window of
/// constant values never signals.
pub open spec fn jump_at(values: Seq<i64>, i: int, w: int, t: int) -> bool {
    let u = jump_u(values, i, w);
    let ww = jump_w(values, i, w);
    ww > 0 && u * u > t * t * ww
}

/// The absolute z-score at `i` in rounded-down thousandths.
pub open spec fn jump_magnitude_mille(values: Seq<i64>, i: int, w: int) -> int {
    let u = jump_u(values, i, w);
    let ww = jump_w(values, i, w);
    sqrt_floor(1000000 * (u * u) / ww)
}

/// `min(1000, 1000 * |z| / t)` rounded down: full confidence once the
/// z-score reaches double the threshold is not clamped early.
pub open spec fn jump_confidence_mille(values: Seq<i64>, i: int, w: int, t: int) -> int {
    let u = jump_u(values, i, w);
    let ww = jump_w(values, i, w);
    let c = sqrt_floor(1000000 * (u * u) / (t * t * ww));
    if c > 1000 {
        1000
    } else {
        c
    }
}

/// The finding reported for a jump at index `i`.
pub open spec fn jump_anomaly(data: Seq<TelemetryData>, i: int, w: int, t: int) -> DetectedAnomaly {
    let values = values_of(data);
    DetectedAnomaly {
        target_name: data[i].target_name,
        key_name: data[i].key_name,
        anomaly_type: AnomalyType::SuddenJump,
        start_time_ms: data[i].timestamp_ms,
        end_time_ms: None,
        baseline_value: (window_sum(values, i, w) / w) as i64,
        anomaly_value: data[i].value,
        jump_magnitude_mille: jump_magnitude_mille(values, i, w) as u64,
        confidence_mille: jump_confidence_mille(values, i, w, t) as u32,
        suggested_correction: None,
    }
}

/// The jump findings among the first `n` indices, in index order.
pub open spec fn jumps_upto(data: Seq<TelemetryData>, w: int, t: int, n: int) -> Seq<
    DetectedAnomaly,
>
    decreases n,
{
    if w < 0 || n <= w {
        Seq::empty()
    } else {
        let prev = jumps_upto(data, w, t, n - 1);
        if jump_at(values_of(data), n - 1, w, t) {
            prev.push(jump_anomaly(data, n - 1, w, t))
        } else {
            prev
        }
    }
}

/// All sudden jumps of a series under a configuration.
pub open spec fn sudden_jumps_spec(c: AnomalyDetectionConfig, data: Seq<TelemetryData>) -> Seq<
    DetectedAnomaly,
> {
    if data.len() < c.min_window_size {
        Seq::empty()
    } else {
        jumps_upto(data, c.min_window_size as int, c.max_jump_threshold as int, data.len() as int)
    }
}

/// Whether consecutive samples `i-1, i` are more than one hour apart.
pub open spec fn gap_at(data: Seq<TelemetryData>, i: int) -> bool {
    data[i].timestamp_ms - data[i - 1].timestamp_ms > 3600000
}

/// The finding reported for a gap ending at index `i`: it spans the
/// pair, repeats their values, and has full confidence and no
/// magnitude.
pub open spec fn gap_anomaly(data: Seq<TelemetryData>, i: int) -> DetectedAnomaly {
    DetectedAnomaly {
        target_name: data[i].target_name,
        key_name: data[i].key_name,
        anomaly_type: AnomalyType::DataGap,
        start_time_ms: data[i - 1].timestamp_ms,
        end_time_ms: Some(data[i].timestamp_ms),
        baseline_value: data[i - 1].value,
        anomaly_value: data[i].value,
        jump_magnitude_mille: 0,
        confidence_mille: 1000,
        suggested_correction: None,
    }
}

/// The gap findings among the first `n` indices, in index order.
pub open spec fn gaps_upto(data: Seq<TelemetryData>, n: int) -> Seq<DetectedAnomaly>
    decreases n,
{
    if n <= 1 {
        Seq::empty()
    } else {
        let prev = gaps_upto(data, n - 1);
        if gap_at(data, n - 1) {
            prev.push(gap_anomaly(data, n - 1))
        } else {
            prev
        }
    }
}

/// All data gaps of a series: one finding per consecutive pair more
/// than one hour apart.
pub open spec fn data_gaps_spec(data: Seq<TelemetryData>) -> Seq<DetectedAnomaly> {
    gaps_upto(data, data.len() as int)
}

/// What one detection pass over one series finds: nothing for a
/// series shorter than the window, else its sudden jumps followed by
/// its data gaps.  The persistent-offset and increased-noise
/// detectors are declared extension points that report nothing.
pub open spec fn detect_spec(c: AnomalyDetectionConfig, data: Seq<TelemetryData>) -> Seq<
    DetectedAnomaly,
> {
    if data.len() < c.min_window_size {
        Seq::empty()
    } else {
        sudden_jumps_spec(c, data) + data_gaps_spec(data)
    }
}

/// The statistical scanner.
pub struct AnomalyDetector {
    pub config: AnomalyDetectionConfig,
}

impl AnomalyDetector {
    pub fn new(config: AnomalyDetectionConfig) -> (r: Self)
        ensures
            r.config == config,
    {
        Self { config }
    }

    /// Scan one series, ordered by ascending timestamp, for sudden
    /// jumps: each index whose value leaves its preceding window's
    /// mean by more than the threshold in standard deviations.
    pub fn detect_sudden_jumps(&self, data: &Vec<TelemetryData>) -> (out: Vec<DetectedAnomaly>)
        requires
            valid_config(self.config),
            valid_samples(data@),
            data@.len() <= MAX_STAT_LEN,
        ensures
            out@ == sudden_jumps_spec(self.config, data@),
    {
        let w = self.config.min_window_size;
        let t = self.config.max_jump_threshold;
        let mut out: Vec<DetectedAnomaly> = Vec::new();
        if data.len() < w {
            return out;
        }
        let values = crate::outlier::extract_values(data);
        let mut i: usize = w;
        while i < data.len()
            invariant
                valid_config(self.config),
                valid_samples(data@),
                data@.len() <= MAX_STAT_LEN,
                w == self.config.min_window_size,
                t == self.config.max_jump_threshold,
                w <= i <= data@.len(),
                values@ == values_of(data@),
                out@ == jumps_upto(data@, w as int, t as int, i as int),
            decreases data@.len() - i,
        {
            proof {
                assert(crate::mathx::bounded_values(values@)) by {
                    assert(forall|k: int|
                        0 <= k < values@.len() ==> #[trigger] values@[k] == data@[k].value);
                }
            }
            let s: i128 = sum_range(&values, i - w, i);
            let q: i128 = sum_sq_range(&values, i - w, i);
            let v = data[i].value;
            proof {
                assert(-MAX_ABS_VALUE <= v <= MAX_ABS_VALUE);
                assert(s == window_sum(values@, i as int, w as int));
                assert(q == window_sum_sq(values@, i as int, w as int));
                assert(-1000000000000000 <= s <= 1000000000000000 && 0 <= q
                    <= 1000000000000000000000000 && -2000000000000000 <= (w as int) * (v as int)
                    - s <= 2000000000000000 && 0 <= (w as int) * q
                    <= 1000000000000000000000000000000 && 0 <= s * s
                    <= 1000000000000000000000000000000) by (nonlinear_arith)
                    requires
                        -(MAX_ABS_VALUE as int) * (w as int) <= s <= (MAX_ABS_VALUE as int) * (
                        w as int),
                        0 <= q <= (MAX_ABS_VALUE as int) * (MAX_ABS_VALUE as int) * (w as int),
                        1 <= w <= 1000000,
                        -1000000000 <= v <= 1000000000,
                        MAX_ABS_VALUE == 1000000000,
                {
                }
            }
            let wi: i128 = w as i128;
            let u: i128 = wi * (v as i128) - s;
            let wq: i128 = wi * q;
            proof {
                assert(0 <= wq <= 1000000000000000000000000000000 && -2000000000000000 <= u
                    <= 2000000000000000) by (nonlinear_arith)
                    requires
                        wq == wi * q,
                        u == wi * (v as int) - s,
                        1 <= wi <= 1000000,
                        0 <= q <= 1000000000000000000000000,
                        -1000000000 <= v <= 1000000000,
                        -1000000000000000 <= s <= 1000000000000000,
                {
                }
            }
            let ss: i128 = s * s;
            proof {
                assert(0 <= ss <= 1000000000000000000000000000000) by (nonlinear_arith)
                    requires
                        ss == s * s,
                        -1000000000000000 <= s <= 1000000000000000,
                {
                }
            }
            let ww: i128 = wq - ss;
            proof {
                assert(u == jump_u(values@, i as int, w as int));
                assert(ww == jump_w(values@, i as int, w as int));
            }
            let is_jump = if ww > 0 {
                proof {
                    assert(0 <= u * u <= 4000000000000000000000000000000 && 1 <= (t as int) * (
                    t as int) <= 1000000) by (nonlinear_arith)
                        requires
                            -2000000000000000 <= u <= 2000000000000000,
                            1 <= t <= 1000,
                    {
                    }
                }
                let uu: i128 = u * u;
                let tt: i128 = (t as i128) * (t as i128);
                proof {
                    assert(0 < tt * ww <= 2000000000000000000000000000000000000)
                        by (nonlinear_arith)
                        requires
                            0 < ww <= 2000000000000000000000000000000,
                            1 <= tt <= 1000000,
                    {
                    }
                }
                uu > tt * ww
            } else {
                false
            };
            proof {
                assert(is_jump == jump_at(values@, i as int, w as int, t as int));
                assert(jumps_upto(data@, w as int, t as int, i + 1int) == (if jump_at(
                    values@,
                    i as int,
                    w as int,
                    t as int,
                ) {
                    jumps_upto(data@, w as int, t as int, i as int).push(
                        jump_anomaly(data@, i as int, w as int, t as int),
                    )
                } else {
                    jumps_upto(data@, w as int, t as int, i as int)
                }));
            }
            if is_jump {
                proof {
                    assert(0 <= u * u <= 4000000000000000000000000000000 && 1 <= (t as int) * (
                    t as int) <= 1000000) by (nonlinear_arith)
                        requires
                            -2000000000000000 <= u <= 2000000000000000,
                            1 <= t <= 1000,
                    {
                    }
                }
                let uu: i128 = u * u;
                let uabs: u128 = uu as u128;
                let wwp: u128 = ww as u128;
                let tt: u128 = (t as u128) * (t as u128);
                proof {
                    assert(0 <= uu <= 4000000000000000000000000000000);
                    assert(1000000 * (uu as int) <= 4000000000000000000000000000000000000);
                    assert(0 < tt * wwp <= 2000000000000000000000000000000000000)
                        by (nonlinear_arith)
                        requires
                            0 < wwp <= 2000000000000000000000000000000,
                            1 <= tt <= 1000000,
                    {
                    }
                }
                let magx: u128 = (1000000u128 * uabs) / wwp;
                let mag: u64 = isqrt_u128(magx);
                let confx: u128 = (1000000u128 * uabs) / (tt * wwp);
                let conf0: u64 = isqrt_u128(confx);
                let conf: u32 = if conf0 > 1000 {
                    1000
                } else {
                    conf0 as u32
                };
                // the window mean, rounded toward negative infinity
                let base: i128 = match s.checked_div_euclid(w as i128) {
                    Some(x) => x,
                    None => 0,
                };
                proof {
                    let wi = w as int;
                    vstd::arithmetic::div_mod::lemma_div_is_ordered(
                        -(MAX_ABS_VALUE as int) * wi,
                        s as int,
                        wi,
                    );
                    vstd::arithmetic::div_mod::lemma_div_is_ordered(
                        s as int,
                        (MAX_ABS_VALUE as int) * wi,
                        wi,
                    );
                    vstd::arithmetic::div_mod::lemma_div_multiples_vanish(
                        -(MAX_ABS_VALUE as int),
                        wi,
                    );
                    vstd::arithmetic::div_mod::lemma_div_multiples_vanish(
                        MAX_ABS_VALUE as int,
                        wi,
                    );
                    vstd::arithmetic::mul::lemma_mul_is_commutative(
                        -(MAX_ABS_VALUE as int),
                        wi,
                    );
                    vstd::arithmetic::mul::lemma_mul_is_commutative(MAX_ABS_VALUE as int, wi);
                    assert(-MAX_ABS_VALUE <= s as int / wi <= MAX_ABS_VALUE);
                    assert(base == window_sum(values@, i as int, w as int) / (w as int));
                    assert(mag == jump_magnitude_mille(values@, i as int, w as int)) by {
                        assert(magx == 1000000 * ((u as int) * (u as int)) / (ww as int));
                    }
                    assert(conf == jump_confidence_mille(values@, i as int, w as int, t as int))
                        by {
                        assert((tt * wwp) as int == (t as int) * (t as int) * (ww as int))
                            by (nonlinear_arith)
                            requires
                                tt == (t as int) * (t as int),
                                wwp == ww,
                                0 < ww,
                                0 <= t,
                        {
                        }
                        assert(confx == 1000000 * ((u as int) * (u as int)) / ((t as int) * (
                        t as int) * (ww as int)));
                    }
                }
                let a = DetectedAnomaly {
                    target_name: data[i].target_name.clone(),
                    key_name: data[i].key_name.clone(),
                    anomaly_type: AnomalyType::SuddenJump,
                    start_time_ms: data[i].timestamp_ms,
                    end_time_ms: None,
                    baseline_value: base as i64,
                    anomaly_value: v,
                    jump_magnitude_mille: mag,
                    confidence_mille: conf,
                    suggested_correction: None,
                };
                proof {
                    assert(a == jump_anomaly(data@, i as int, w as int, t as int));
                }
                out.push(a);
            }
            i += 1;
        }
        out
    }

    /// Scan one series for data gaps: one finding per consecutive
    /// pair of samples more than one hour apart.
    pub fn detect_data_gaps(&self, data: &Vec<TelemetryData>) -> (out: Vec<DetectedAnomaly>)
        requires
            valid_samples(data@),
        ensures
            out@ == data_gaps_spec(data@),
    {
        let mut out: Vec<DetectedAnomaly> = Vec::new();
        if data.len() == 0 {
            return out;
        }
        let mut i: usize = 1;
        while i < data.len()
            invariant
                1 <= i <= data@.len(),
                valid_samples(data@),
                out@ == gaps_upto(data@, i as int),
            decreases data@.len() - i,
        {
            let prev_ts = data[i - 1].timestamp_ms;
            let cur_ts = data[i].timestamp_ms;
            proof {
                assert(-MAX_ABS_TIMESTAMP <= prev_ts <= MAX_ABS_TIMESTAMP);
                assert(-MAX_ABS_TIMESTAMP <= cur_ts <= MAX_ABS_TIMESTAMP);
            }
            if cur_ts - prev_ts > 3600000 {
                let a = DetectedAnomaly {
                    target_name: data[i].target_name.clone(),
                    key_name: data[i].key_name.clone(),
                    anomaly_type: AnomalyType::DataGap,
                    start_time_ms: prev_ts,
                    end_time_ms: Some(cur_ts),
                    baseline_value: data[i - 1].value,
                    anomaly_value: data[i].value,
                    jump_magnitude_mille: 0,
                    confidence_mille: 1000,
                    suggested_correction: None,
                };
                proof {
                    assert(a == gap_anomaly(data@, i as int));
                }
                out.push(a);
            }
            i += 1;
        }
        out
    }

    /// Extension point: persistent-offset detection is declared but
    /// deliberately reports nothing.
    pub fn detect_persistent_offsets(&self, data: &Vec<TelemetryData>) -> (out: Vec<
        DetectedAnomaly,
    >)
        ensures
            out@ == Seq::<DetectedAnomaly>::empty(),
    {
        let out: Vec<DetectedAnomaly> = Vec::new();
        proof {
            assert(out@ =~= Seq::<DetectedAnomaly>::empty());
        }
        out
    }

    /// Extension point: increased-noise detection is declared but
    /// deliberately reports nothing.
    pub fn detect_increased_noise(&self, data: &Vec<TelemetryData>) -> (out: Vec<
        DetectedAnomaly,
    >)
        ensures
            out@ == Seq::<DetectedAnomaly>::empty(),
    {
        let out: Vec<DetectedAnomaly> = Vec::new();
        proof {
            assert(out@ =~= Seq::<DetectedAnomaly>::empty());
        }
        out
    }

    /// Scan one series: nothing if it is shorter than the window,
    /// else its sudden jumps followed by its data gaps.
    pub fn detect_anomalies(&self, data: &Vec<TelemetryData>) -> (out: Vec<DetectedAnomaly>)
        requires
            valid_config(self.config),
            valid_samples(data@),
            data@.len() <= MAX_STAT_LEN,
        ensures
            out@ == detect_spec(self.config, data@),
    {
        let mut out: Vec<DetectedAnomaly> = Vec::new();
        if data.len() < self.config.min_window_size {
            proof {
                assert(out@ =~= Seq::<DetectedAnomaly>::empty());
            }
            return out;
        }
        let mut jumps = self.detect_sudden_jumps(data);
        let mut offsets = self.detect_persistent_offsets(data);
        let mut noise = self.detect_increased_noise(data);
        let mut gaps = self.detect_data_gaps(data);
        out.append(&mut jumps);
        out.append(&mut offsets);
        out.append(&mut noise);
        out.append(&mut gaps);
        proof {
            assert(out@ =~= sudden_jumps_spec(self.config, data@) + data_gaps_spec(data@));
        }
        out
    }

    /// The fixed set of series the whole-store scan walks; the store
    /// itself enumerates series, so this stands in for its answer.
    pub fn get_all_target_key_combinations(&self) -> (out: Vec<(String, String)>)
        ensures
            out@.len() == 4,
            out@[0].0@ == "Target1"@ && out@[0].1@ == "displacement_x"@,
            out@[1].0@ == "Target1"@ && out@[1].1@ == "displacement_y"@,
            out@[2].0@ == "Target2"@ && out@[2].1@ == "displacement_x"@,
            out@[3].0@ == "Target2"@ && out@[3].1@ == "displacement_y"@,
    {
        let mut out: Vec<(String, String)> = Vec::new();
        out.push((String::from_str("Target1"), String::from_str("displacement_x")));
        out.push((String::from_str("Target1"), String::from_str("displacement_y")));
        out.push((String::from_str("Target2"), String::from_str("displacement_x")));
        out.push((String::from_str("Target2"), String::from_str("displacement_y")));
        out
    }

    /// The rule suggested for a finding, if any: only when automatic
    /// correction is enabled, and only for sudden jumps, an inactive
    /// additive rule whose operand `baseline - observed` undoes the
    /// jump, scoped to the finding's span.
    pub fn generate_correction_operation(
        &self,
        anomaly: &DetectedAnomaly,
        now_ms: i64,
    ) -> (r: Option<DataOperation>)
        ensures
            r == suggestion_spec(self.config, *anomaly, now_ms),
    {
        if !self.config.auto_correction {
            return None;
        }
        match anomaly.anomaly_type {
            AnomalyType::SuddenJump => {
                Some(
                    DataOperation {
                        id: None,
                        name: None,
                        description: None,
                        target_name: anomaly.target_name.clone(),
                        key_name: anomaly.key_name.clone(),
                        operation_type: OperationType::Add,
                        value: sat_sub_i64(anomaly.baseline_value, anomaly.anomaly_value),
                        start_time_ms: Some(anomaly.start_time_ms),
                        end_time_ms: anomaly.end_time_ms,
                        is_active: false,
                        created_at_ms: now_ms,
                        updated_at_ms: now_ms,
                    },
                )
            }
            _ => None,
        }
    }

    /// Roll findings up: their count, the distinct targets affected,
    /// the analyzed range (falling back to `now_ms` where a bound was
    /// not given) and the findings bucketed by confidence.
    pub fn generate_summary(
        &self,
        anomalies: &Vec<DetectedAnomaly>,
        start_time_ms: Option<i64>,
        end_time_ms: Option<i64>,
        now_ms: i64,
    ) -> (r: AnomalyDetectionSummary)
        ensures
            r.total_anomalies == anomalies@.len(),
            r.targets_affected == distinct_anomaly_targets(anomalies@).len(),
            r.time_range_analyzed == (
                (match start_time_ms {
                    Some(s) => s,
                    None => now_ms,
                }),
                (match end_time_ms {
                    Some(e) => e,
                    None => now_ms,
                }),
            ),
            r.confidence_distribution.high as int == count_matching(
                anomalies@,
                |a: DetectedAnomaly| a.confidence_mille > 800,
            ),
            r.confidence_distribution.mid as int == count_matching(
                anomalies@,
                |a: DetectedAnomaly| 500 < a.confidence_mille <= 800,
            ),
            r.confidence_distribution.low as int == count_matching(
                anomalies@,
                |a: DetectedAnomaly| a.confidence_mille <= 500,
            ),
    {
        let ghost p_high = |a: DetectedAnomaly| a.confidence_mille > 800;
        let ghost p_mid = |a: DetectedAnomaly| 500 < a.confidence_mille <= 800;
        let ghost p_low = |a: DetectedAnomaly| a.confidence_mille <= 500;
        let mut targets: Vec<String> = Vec::new();
        let mut high: usize = 0;
        let mut mid: usize = 0;
        let mut low: usize = 0;
        let mut i: usize = 0;
        proof {
            assert(anomalies@.subrange(0, 0int) =~= Seq::<DetectedAnomaly>::empty());
        }
        while i < anomalies.len()
            invariant
                0 <= i <= anomalies@.len(),
                p_high == (|a: DetectedAnomaly| a.confidence_mille > 800),
                p_mid == (|a: DetectedAnomaly| 500 < a.confidence_mille <= 800),
                p_low == (|a: DetectedAnomaly| a.confidence_mille <= 500),
                targets@.len() == distinct_anomaly_targets(
                    anomalies@.subrange(0, i as int),
                ).len(),
                forall|k: int|
                    0 <= k < targets@.len() ==> (#[trigger] targets@[k])@
                        == distinct_anomaly_targets(anomalies@.subrange(0, i as int))[k],
                high as int == count_matching(anomalies@.subrange(0, i as int), p_high),
                mid as int == count_matching(anomalies@.subrange(0, i as int), p_mid),
                low as int == count_matching(anomalies@.subrange(0, i as int), p_low),
                high <= i && mid <= i && low <= i,
            decreases anomalies@.len() - i,
        {
            let ghost prefix = anomalies@.subrange(0, i as int);
            let ghost prefix1 = anomalies@.subrange(0, i + 1int);
            proof {
                assert(prefix1 =~= prefix.push(anomalies@[i as int]));
                assert(prefix1.drop_last() =~= prefix);
            }
            let found = crate::stages::vec_has_name(&targets, &anomalies[i].target_name);
            proof {
                let prev = distinct_anomaly_targets(prefix);
                if found {
                    let k = choose|k: int|
                        0 <= k < targets@.len() && #[trigger] targets@[k]@
                            == anomalies@[i as int].target_name@;
                    assert(prev[k] == anomalies@[i as int].target_name@);
                    assert(prev.contains(anomalies@[i as int].target_name@));
                } else {
                    if prev.contains(anomalies@[i as int].target_name@) {
                        let k = choose|k: int|
                            0 <= k < prev.len() && prev[k] == anomalies@[i as int].target_name@;
                        assert(targets@[k]@ == anomalies@[i as int].target_name@);
                    }
                }
            }
            if !found {
                targets.push(anomalies[i].target_name.clone());
            }
            let c = anomalies[i].confidence_mille;
            if c > 800 {
                high = high + 1;
            } else if c > 500 {
                mid = mid + 1;
            } else {
                low = low + 1;
            }
            i += 1;
        }
        proof {
            assert(anomalies@.subrange(0, anomalies@.len() as int) =~= anomalies@);
        }
        let start = match start_time_ms {
            Some(s) => s,
            None => now_ms,
        };
        let end = match end_time_ms {
            Some(e) => e,
            None => now_ms,
        };
        AnomalyDetectionSummary {
            total_anomalies: anomalies.len(),
            targets_affected: targets.len(),
            time_range_analyzed: (start, end),
            confidence_distribution: ConfidenceDistribution { low, mid, high },
        }
    }

    /// Scan every series of a store: concatenate the findings of each
    /// series in order, suggest a correction rule per finding where
    /// one is due, and roll the findings up.
    pub fn detect_all_anomalies(
        &self,
        series: &Vec<Vec<TelemetryData>>,
        start_time_ms: Option<i64>,
        end_time_ms: Option<i64>,
        now_ms: i64,
    ) -> (r: AnomalyDetectionResult)
        requires
            valid_config(self.config),
            forall|k: int|
                0 <= k < series@.len() ==> valid_samples((#[trigger] series@[k])@) && series@[k]@.len()
                    <= MAX_STAT_LEN,
        ensures
            r.anomalies@ == all_anomalies_spec(self.config, series@, series@.len() as int),
            r.suggested_operations@ == suggestions_spec(self.config, r.anomalies@, now_ms),
            r.summary.total_anomalies == r.anomalies@.len(),
            r.summary.targets_affected == distinct_anomaly_targets(r.anomalies@).len(),
            r.summary.time_range_analyzed == (
                (match start_time_ms {
                    Some(s) => s,
                    None => now_ms,
                }),
                (match end_time_ms {
                    Some(e) => e,
                    None => now_ms,
                }),
            ),
            r.summary.confidence_distribution.high as int == count_matching(
                r.anomalies@,
                |a: DetectedAnomaly| a.confidence_mille > 800,
            ),
            r.summary.confidence_distribution.mid as int == count_matching(
                r.anomalies@,
                |a: DetectedAnomaly| 500 < a.confidence_mille <= 800,
            ),
            r.summary.confidence_distribution.low as int == count_matching(
                r.anomalies@,
                |a: DetectedAnomaly| a.confidence_mille <= 500,
            ),
    {
        let mut all_anomalies: Vec<DetectedAnomaly> = Vec::new();
        let mut suggested_operations: Vec<DataOperation> = Vec::new();
        let mut k: usize = 0;
        proof {
            assert(all_anomalies@ =~= all_anomalies_spec(self.config, series@, 0int));
            assert(suggested_operations@ =~= suggestions_spec(
                self.config,
                all_anomalies@,
                now_ms,
            ));
        }
        while k < series.len()
            invariant
                0 <= k <= series@.len(),
                valid_config(self.config),
                forall|m: int|
                    0 <= m < series@.len() ==> valid_samples((#[trigger] series@[m])@)
                        && series@[m]@.len() <= MAX_STAT_LEN,
                all_anomalies@ == all_anomalies_spec(self.config, series@, k as int),
                suggested_operations@ == suggestions_spec(self.config, all_anomalies@, now_ms),
            decreases series@.len() - k,
        {
            let found = self.detect_anomalies(&series[k]);
            let mut j: usize = 0;
            while j < found.len()
                invariant
                    0 <= j <= found@.len(),
                    valid_config(self.config),
                    all_anomalies@ == all_anomalies_spec(self.config, series@, k as int)
                        + found@.subrange(0, j as int),
                    suggested_operations@ == suggestions_spec(
                        self.config,
                        all_anomalies@,
                        now_ms,
                    ),
                decreases found@.len() - j,
            {
                let a = found[j].clone();
                match self.generate_correction_operation(&a, now_ms) {
                    Some(op) => {
                        suggested_operations.push(op);
                    }
                    None => {}
                }
                all_anomalies.push(a);
                proof {
                    assert(all_anomalies@.drop_last() =~= all_anomalies_spec(
                        self.config,
                        series@,
                        k as int,
                    ) + found@.subrange(0, j as int));
                    assert(all_anomalies@ =~= all_anomalies_spec(self.config, series@, k as int)
                        + found@.subrange(0, j + 1int));
                }
                j += 1;
            }
            proof {
                assert(found@.subrange(0, found@.len() as int) =~= found@);
                assert(all_anomalies_spec(self.config, series@, k + 1int)
                    == all_anomalies_spec(self.config, series@, k as int) + detect_spec(
                    self.config,
                    series@[k as int]@,
                ));
            }
            k += 1;
        }
        let summary = self.generate_summary(&all_anomalies, start_time_ms, end_time_ms, now_ms);
        AnomalyDetectionResult { anomalies: all_anomalies, suggested_operations, summary }
    }
}

/// The data slice the detector fetches for one series: that target
/// and metric alone, unfiltered and uncorrected, capped generously
/// for analysis.
pub fn detection_query_params(
    target_name: &String,
    key_name: &String,
    start_time_ms: Option<i64>,
    end_time_ms: Option<i64>,
) -> (p: crate::types::QueryParams)
    ensures
        p.asset_name is None,
        p.device_name is None,
        p.target_names@.len() == 1 && p.target_names@[0]@ == target_name@,
        p.key_names@.len() == 1 && p.key_names@[0]@ == key_name@,
        p.start_time_ms == start_time_ms,
        p.end_time_ms == end_time_ms,
        p.remove_outliers == false,
        p.outlier_method@ == "iqr"@,
        p.custom_filter is None,
        p.limit == Some(100000usize),
        p.sampling_config is None,
        p.reference_values is None,
        p.time_of_day_filter is None,
{
    let mut target_names: Vec<String> = Vec::new();
    target_names.push(target_name.clone());
    let mut key_names: Vec<String> = Vec::new();
    key_names.push(key_name.clone());
    crate::types::QueryParams {
        asset_name: None,
        device_name: None,
        target_names,
        key_names,
        start_time_ms,
        end_time_ms,
        remove_outliers: false,
        outlier_method: String::from_str("iqr"),
        custom_filter: None,
        limit: Some(100000),
        sampling_config: None,
        reference_values: None,
        time_of_day_filter: None,
    }
}

/// The distinct target names of the findings, in order of first
/// appearance.
pub open spec fn distinct_anomaly_targets(s: Seq<DetectedAnomaly>) -> Seq<Seq<char>>
    decreases s.len(),
{
    if s.len() == 0 {
        Seq::empty()
    } else {
        let prev = distinct_anomaly_targets(s.drop_last());
        if prev.contains(s.last().target_name@) {
            prev
        } else {
            prev.push(s.last().target_name@)
        }
    }
}

/// How many findings satisfy a predicate.
pub open spec fn count_matching(
    s: Seq<DetectedAnomaly>,
    pred: spec_fn(DetectedAnomaly) -> bool,
) -> int
    decreases s.len(),
{
    if s.len() == 0 {
        0
    } else {
        count_matching(s.drop_last(), pred) + if pred(s.last()) {
            1int
        } else {
            0int
        }
    }
}

/// The rule suggested for one finding, if any.
pub open spec fn suggestion_spec(
    c: AnomalyDetectionConfig,
    a: DetectedAnomaly,
    now_ms: i64,
) -> Option<DataOperation> {
    if !c.auto_correction {
        None
    } else {
        match a.anomaly_type {
            AnomalyType::SuddenJump => Some(
                DataOperation {
                    id: None,
                    name: None,
                    description: None,
                    target_name: a.target_name,
                    key_name: a.key_name,
                    operation_type: OperationType::Add,
                    value: crate::stages::clamp_i64(a.baseline_value - a.anomaly_value),
                    start_time_ms: Some(a.start_time_ms),
                    end_time_ms: a.end_time_ms,
                    is_active: false,
                    created_at_ms: now_ms,
                    updated_at_ms: now_ms,
                },
            ),
            _ => None,
        }
    }
}

/// The findings of the first `n` series, concatenated in order.
pub open spec fn all_anomalies_spec(
    c: AnomalyDetectionConfig,
    series: Seq<Vec<TelemetryData>>,
    n: int,
) -> Seq<DetectedAnomaly>
    decreases n,
{
    if n <= 0 {
        Seq::empty()
    } else {
        all_anomalies_spec(c, series, n - 1) + detect_spec(c, series[n - 1]@)
    }
}

/// The rules suggested for a finding sequence, in finding order.
pub open spec fn suggestions_spec(
    c: AnomalyDetectionConfig,
    anoms: Seq<DetectedAnomaly>,
    now_ms: i64,
) -> Seq<DataOperation>
    decreases anoms.len(),
{
    if anoms.len() == 0 {
        Seq::empty()
    } else {
        let prev = suggestions_spec(c, anoms.drop_last(), now_ms);
        match suggestion_spec(c, anoms.last(), now_ms) {
            Some(op) => prev.push(op),
            None => prev,
        }
    }
}

} // verus!
