use telemetry_core::anomaly::{
    AnomalyDetectionConfig, AnomalyDetector, AnomalyType, DetectedAnomaly,
};
use telemetry_core::overlay::get_relevant_operations;
use telemetry_core::stream::{stream_start, stream_step, StreamEvent};
use telemetry_core::types::{DataOperation, OperationType, TelemetryData};

fn sample(ts: i64, v: i64) -> TelemetryData {
    TelemetryData {
        timestamp_ms: ts,
        asset_name: String::from("asset"),
        device_name: String::from("device"),
        target_name: String::from("T1"),
        key_name: String::from("disp_x"),
        value: v,
    }
}

fn detector() -> AnomalyDetector {
    AnomalyDetector::new(AnomalyDetectionConfig::default())
}

#[test]
fn default_config_matches_the_documented_tuning() {
    let c = AnomalyDetectionConfig::default();
    assert_eq!(c.sensitivity, 3);
    assert_eq!(c.min_window_size, 50);
    assert_eq!(c.max_jump_threshold, 5);
    assert_eq!(c.consecutive_anomaly_threshold, 3);
    assert!(!c.auto_correction);
}

#[test]
fn gap_of_two_hours_is_one_finding_with_full_confidence() {
    let data = vec![sample(0, 1), sample(2 * 3_600_000, 2)];
    let gaps = detector().detect_data_gaps(&data);
    assert_eq!(gaps.len(), 1);
    assert_eq!(gaps[0].anomaly_type, AnomalyType::DataGap);
    assert_eq!(gaps[0].start_time_ms, 0);
    assert_eq!(gaps[0].end_time_ms, Some(2 * 3_600_000));
    assert_eq!(gaps[0].confidence_mille, 1000);
    assert_eq!(gaps[0].jump_magnitude_mille, 0);
    assert_eq!(gaps[0].baseline_value, 1);
    assert_eq!(gaps[0].anomaly_value, 2);
}

#[test]
fn gap_of_ten_minutes_is_no_finding() {
    let data = vec![sample(0, 1), sample(10 * 60_000, 2)];
    let gaps = detector().detect_data_gaps(&data);
    assert_eq!(gaps.len(), 0);
}

#[test]
fn exactly_one_hour_apart_is_no_gap() {
    let data = vec![sample(0, 1), sample(3_600_000, 2)];
    let gaps = detector().detect_data_gaps(&data);
    assert_eq!(gaps.len(), 0);
}

#[test]
fn zero_variance_window_never_signals_a_jump() {
    let mut data = Vec::new();
    for i in 0..50 {
        data.push(sample(i * 60_000, 10));
    }
    data.push(sample(50 * 60_000, 1000));
    let jumps = detector().detect_sudden_jumps(&data);
    assert_eq!(jumps.len(), 0);
}

#[test]
fn spike_after_a_varying_window_is_a_jump_with_full_confidence() {
    let mut data = Vec::new();
    for i in 0..50 {
        let v = if i % 2 == 0 { 9 } else { 11 };
        data.push(sample(i * 60_000, v));
    }
    data.push(sample(50 * 60_000, 1000));
    let jumps = detector().detect_sudden_jumps(&data);
    assert_eq!(jumps.len(), 1);
    assert_eq!(jumps[0].anomaly_type, AnomalyType::SuddenJump);
    assert_eq!(jumps[0].start_time_ms, 50 * 60_000);
    assert_eq!(jumps[0].baseline_value, 10);
    assert_eq!(jumps[0].anomaly_value, 1000);
    assert_eq!(jumps[0].confidence_mille, 1000);
    // window mean 10, variance 1: the spike's z-score is exactly 990
    assert_eq!(jumps[0].jump_magnitude_mille, 990_000);
}

#[test]
fn short_series_yields_no_findings_at_all() {
    let data = vec![sample(0, 1), sample(2 * 3_600_000, 2)];
    let found = detector().detect_anomalies(&data);
    assert_eq!(found.len(), 0);
}

#[test]
fn long_series_reports_jumps_then_gaps() {
    let mut data = Vec::new();
    for i in 0..50 {
        let v = if i % 2 == 0 { 9 } else { 11 };
        data.push(sample(i * 60_000, v));
    }
    data.push(sample(50 * 60_000 + 2 * 3_600_000, 1000));
    let found = detector().detect_anomalies(&data);
    assert_eq!(found.len(), 2);
    assert_eq!(found[0].anomaly_type, AnomalyType::SuddenJump);
    assert_eq!(found[1].anomaly_type, AnomalyType::DataGap);
}

fn finding(confidence_mille: u32) -> DetectedAnomaly {
    DetectedAnomaly {
        target_name: String::from("T1"),
        key_name: String::from("disp_x"),
        anomaly_type: AnomalyType::SuddenJump,
        start_time_ms: 5,
        end_time_ms: None,
        baseline_value: 10,
        anomaly_value: 90,
        jump_magnitude_mille: 9_000,
        confidence_mille,
        suggested_correction: None,
    }
}

#[test]
fn summary_counts_buckets_targets_and_falls_back_to_now() {
    let mut low = finding(400);
    low.target_name = String::from("T2");
    let anomalies = vec![finding(900), finding(700), low];
    let s = detector().generate_summary(&anomalies, Some(17), None, 99);
    assert_eq!(s.total_anomalies, 3);
    assert_eq!(s.targets_affected, 2);
    assert_eq!(s.time_range_analyzed, (17, 99));
    assert_eq!(s.confidence_distribution.high, 1);
    assert_eq!(s.confidence_distribution.mid, 1);
    assert_eq!(s.confidence_distribution.low, 1);
}

#[test]
fn no_suggestion_unless_auto_correction_is_enabled() {
    let a = finding(900);
    assert!(detector().generate_correction_operation(&a, 5).is_none());
}

#[test]
fn suggestion_undoes_the_jump_and_starts_inactive() {
    let mut config = AnomalyDetectionConfig::default();
    config.auto_correction = true;
    let d = AnomalyDetector::new(config);
    let a = finding(900);
    let op = d.generate_correction_operation(&a, 5).unwrap();
    assert_eq!(op.operation_type, OperationType::Add);
    assert_eq!(op.value, 10 - 90);
    assert!(!op.is_active);
    assert_eq!(op.id, None);
    assert_eq!(op.start_time_ms, Some(5));
    assert_eq!(op.end_time_ms, None);
    assert_eq!(op.created_at_ms, 5);
    assert_eq!(op.target_name, "T1");
}

#[test]
fn gap_findings_never_suggest_a_rule() {
    let mut config = AnomalyDetectionConfig::default();
    config.auto_correction = true;
    let d = AnomalyDetector::new(config);
    let mut a = finding(1000);
    a.anomaly_type = AnomalyType::DataGap;
    assert!(d.generate_correction_operation(&a, 5).is_none());
}

#[test]
fn whole_run_collects_series_suggestions_and_summary() {
    let mut config = AnomalyDetectionConfig::default();
    config.min_window_size = 2;
    config.auto_correction = true;
    let d = AnomalyDetector::new(config);
    let series_a = vec![sample(0, 9), sample(1_000, 11), sample(2_000, 10)];
    let series_b = vec![sample(0, 1), sample(2 * 3_600_000, 2)];
    let result = d.detect_all_anomalies(&vec![series_a, series_b], Some(0), Some(9), 50);
    assert_eq!(result.anomalies.len(), 1);
    assert_eq!(result.anomalies[0].anomaly_type, AnomalyType::DataGap);
    assert_eq!(result.suggested_operations.len(), 0);
    assert_eq!(result.summary.total_anomalies, 1);
    assert_eq!(result.summary.time_range_analyzed, (0, 9));
}

#[test]
fn combination_stub_lists_the_four_series() {
    let combos = detector().get_all_target_key_combinations();
    assert_eq!(combos.len(), 4);
    assert_eq!(combos[0].0, "Target1");
    assert_eq!(combos[0].1, "displacement_x");
    assert_eq!(combos[3].0, "Target2");
    assert_eq!(combos[3].1, "displacement_y");
}

#[test]
fn relevant_rules_are_active_and_named_by_the_query() {
    let mk = |target: &str, key: &str, active: bool| DataOperation {
        id: None,
        name: None,
        description: None,
        target_name: String::from(target),
        key_name: String::from(key),
        operation_type: OperationType::Add,
        value: 1,
        start_time_ms: None,
        end_time_ms: None,
        is_active: active,
        created_at_ms: 0,
        updated_at_ms: 0,
    };
    let ops = vec![
        mk("T1", "a", true),
        mk("T2", "b", true),
        mk("T1", "a", false),
        mk("T3", "a", true),
    ];
    let out = get_relevant_operations(&ops, &vec![String::from("T1")], &vec![String::from("b")]);
    assert_eq!(out.len(), 2);
    assert_eq!(out[0].target_name, "T1");
    assert_eq!(out[1].target_name, "T2");
    // with no restriction every active rule is relevant
    let all = get_relevant_operations(&ops, &Vec::new(), &Vec::new());
    assert_eq!(all.len(), 3);
}

#[test]
fn stream_starts_at_zero_with_the_default_cap() {
    let st = stream_start(None);
    assert_eq!(st.offset, 0);
    assert_eq!(st.total_sent, 0);
    assert_eq!(st.batch_size, 1000);
    assert_eq!(st.max_limit, 50_000);
    assert!(!st.done);
    let st2 = stream_start(Some(7));
    assert_eq!(st2.max_limit, 7);
}

#[test]
fn failed_fetch_ends_the_stream() {
    let st = stream_start(None);
    let (events, st2) = stream_step(st, None);
    assert_eq!(events.len(), 1);
    assert!(matches!(events[0], StreamEvent::Failed));
    assert!(st2.done);
}

#[test]
fn empty_batch_completes_the_stream() {
    let st = stream_start(None);
    let (events, st2) = stream_step(st, Some(Vec::new()));
    assert_eq!(events.len(), 1);
    assert!(matches!(events[0], StreamEvent::Completed { total: 0, limited: false }));
    assert!(st2.done);
}

#[test]
fn capped_stream_truncates_and_marks_limited() {
    let st = stream_start(Some(2));
    let batch = vec![sample(0, 1), sample(1, 2), sample(2, 3)];
    let (events, st2) = stream_step(st, Some(batch));
    assert_eq!(events.len(), 3);
    assert!(matches!(events[0], StreamEvent::Data(_)));
    assert!(matches!(events[1], StreamEvent::Data(_)));
    assert!(matches!(events[2], StreamEvent::Completed { total: 2, limited: true }));
    assert!(st2.done);
    assert_eq!(st2.total_sent, 2);
}

#[test]
fn ongoing_stream_advances_the_offset() {
    let st = stream_start(None);
    let batch = vec![sample(0, 1), sample(1, 2)];
    let (events, st2) = stream_step(st, Some(batch));
    assert_eq!(events.len(), 2);
    assert!(!st2.done);
    assert_eq!(st2.offset, 1000);
    assert_eq!(st2.total_sent, 2);
}

#[test]
fn progress_note_appears_at_round_totals() {
    let mut st = stream_start(None);
    st.total_sent = 4_000;
    let batch: Vec<TelemetryData> = (0..1_000).map(|i| sample(i, 1)).collect();
    let (events, st2) = stream_step(st, Some(batch));
    assert_eq!(events.len(), 1_001);
    assert!(matches!(events[1_000], StreamEvent::Progress { loaded: 5_000 }));
    assert_eq!(st2.total_sent, 5_000);
    assert!(!st2.done);
}
