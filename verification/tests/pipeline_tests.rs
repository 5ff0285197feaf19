use telemetry_core::overlay::apply_operations_to_data;
use telemetry_core::pipeline::{compile, run_query, Stage};
use telemetry_core::resample::resample;
use telemetry_core::stages::{apply_reference_values, apply_time_of_day_filter};
use telemetry_core::types::{
    CustomFilter, DataOperation, InvalidSpec, OperationType, OutlierMethod, QueryParams,
    ReferenceValue, SamplingConfig, SamplingMethod, TelemetryData, TimeOfDayFilter, TimeRange,
};

fn sample(ts: i64, target: &str, key: &str, v: i64) -> TelemetryData {
    TelemetryData {
        timestamp_ms: ts,
        asset_name: String::from("asset"),
        device_name: String::from("device"),
        target_name: String::from(target),
        key_name: String::from(key),
        value: v,
    }
}

fn plain_params() -> QueryParams {
    QueryParams {
        asset_name: None,
        device_name: None,
        target_names: Vec::new(),
        key_names: Vec::new(),
        start_time_ms: None,
        end_time_ms: None,
        remove_outliers: false,
        outlier_method: String::from("iqr"),
        custom_filter: None,
        limit: None,
        sampling_config: None,
        reference_values: None,
        time_of_day_filter: None,
    }
}

fn rule(target: &str, key: &str, op: OperationType, operand: i64) -> DataOperation {
    DataOperation {
        id: None,
        name: None,
        description: None,
        target_name: String::from(target),
        key_name: String::from(key),
        operation_type: op,
        value: operand,
        start_time_ms: None,
        end_time_ms: None,
        is_active: true,
        created_at_ms: 0,
        updated_at_ms: 0,
    }
}

#[test]
fn normalizer_subtracts_reference_and_passes_others() {
    let data = vec![
        sample(0, "T1", "disp_x", 10),
        sample(1, "T1", "disp_y", 10),
        sample(2, "T2", "disp_x", 7),
    ];
    let refs = vec![ReferenceValue {
        target_name: String::from("T1"),
        key_name: String::from("disp_x"),
        reference_value: 4,
    }];
    let out = apply_reference_values(&data, &refs);
    assert_eq!(out.len(), 3);
    assert_eq!(out[0].value, 6);
    assert_eq!(out[1].value, 10);
    assert_eq!(out[2].value, 7);
    assert_eq!(out[0].timestamp_ms, 0);
    assert_eq!(out[0].target_name, "T1");
}

#[test]
fn resample_is_idempotent_at_same_interval() {
    let data = vec![
        sample(10, "T1", "k", 4),
        sample(70_000, "T1", "k", 8),
        sample(20, "T2", "k", 5),
        sample(30, "T1", "k", 6),
    ];
    let once = resample(&data, 60_000, SamplingMethod::Avg);
    let twice = resample(&once, 60_000, SamplingMethod::Avg);
    assert_eq!(once.len(), twice.len());
    for (a, b) in once.iter().zip(twice.iter()) {
        assert_eq!(a.timestamp_ms, b.timestamp_ms);
        assert_eq!(a.target_name, b.target_name);
        assert_eq!(a.key_name, b.key_name);
        assert_eq!(a.value, b.value);
        assert_eq!(a.asset_name, b.asset_name);
        assert_eq!(a.device_name, b.device_name);
    }
}

#[test]
fn resample_buckets_sorts_and_aggregates() {
    let data = vec![
        sample(70_000, "T1", "k", 9),
        sample(10, "T1", "k", 4),
        sample(30, "T1", "k", 6),
        sample(15, "T2", "k", 5),
    ];
    let out = resample(&data, 60_000, SamplingMethod::Avg);
    // buckets: (T1, 60000) -> 9 ; (T1, 0) -> avg(4, 6) = 5 ; (T2, 0) -> 5
    assert_eq!(out.len(), 3);
    assert_eq!(out[0].timestamp_ms, 0);
    assert_eq!(out[1].timestamp_ms, 0);
    assert_eq!(out[2].timestamp_ms, 60_000);
    assert_eq!(out[0].target_name, "T1");
    assert_eq!(out[0].value, 5);
    assert_eq!(out[1].target_name, "T2");
    assert_eq!(out[1].value, 5);
    assert_eq!(out[2].value, 9);
}

#[test]
fn resample_first_last_max_min() {
    let data = vec![
        sample(20, "T1", "k", 7),
        sample(10, "T1", "k", 3),
        sample(30, "T1", "k", 5),
    ];
    let first = resample(&data, 60_000, SamplingMethod::First);
    assert_eq!(first[0].value, 3);
    let last = resample(&data, 60_000, SamplingMethod::Last);
    assert_eq!(last[0].value, 5);
    let max = resample(&data, 60_000, SamplingMethod::Max);
    assert_eq!(max[0].value, 7);
    let min = resample(&data, 60_000, SamplingMethod::Min);
    assert_eq!(min[0].value, 3);
}

#[test]
fn iqr_excludes_outlier_and_counts_it() {
    let mut data = Vec::new();
    for i in 0..5 {
        data.push(sample(i, "T1", "k", 1));
    }
    data.push(sample(5, "T1", "k", 100));
    let mut p = plain_params();
    p.remove_outliers = true;
    let resp = run_query(&data, &p, &Vec::new()).unwrap();
    assert_eq!(resp.data.len(), 5);
    for d in &resp.data {
        assert_eq!(d.value, 1);
    }
    assert_eq!(resp.stats.outliers_removed, Some(1));
    assert_eq!(resp.stats.outlier_method.as_deref(), Some("iqr"));
}

#[test]
fn unknown_outlier_method_falls_back_to_iqr() {
    let mut data = Vec::new();
    for i in 0..5 {
        data.push(sample(i, "T1", "k", 1));
    }
    data.push(sample(5, "T1", "k", 100));
    let mut p = plain_params();
    p.remove_outliers = true;
    p.outlier_method = String::from("nonsense");
    let resp = run_query(&data, &p, &Vec::new()).unwrap();
    assert_eq!(resp.data.len(), 5);
    assert_eq!(resp.stats.outliers_removed, Some(1));
}

#[test]
fn zscore_keeps_all_when_stddev_is_zero() {
    let data = vec![
        sample(0, "T1", "k", 5),
        sample(1, "T1", "k", 5),
        sample(2, "T1", "k", 5),
    ];
    let mut p = plain_params();
    p.remove_outliers = true;
    p.outlier_method = String::from("zscore");
    let resp = run_query(&data, &p, &Vec::new()).unwrap();
    assert_eq!(resp.data.len(), 3);
    assert_eq!(resp.stats.outliers_removed, Some(0));
}

#[test]
fn overnight_window_keeps_night_and_drops_noon() {
    let data = vec![
        sample(23 * 3_600_000 + 30 * 60_000, "T1", "k", 1), // 23:30
        sample(2 * 3_600_000, "T1", "k", 2),                // 02:00
        sample(12 * 3_600_000, "T1", "k", 3),               // 12:00
    ];
    let ranges = vec![TimeRange { start_hour: 22, start_minute: 0, end_hour: 6, end_minute: 0 }];
    let out = apply_time_of_day_filter(&data, &ranges);
    assert_eq!(out.len(), 2);
    assert_eq!(out[0].value, 1);
    assert_eq!(out[1].value, 2);
}

#[test]
fn empty_window_list_keeps_everything() {
    let data = vec![sample(0, "T1", "k", 1), sample(1, "T1", "k", 2)];
    let out = apply_time_of_day_filter(&data, &Vec::new());
    assert_eq!(out.len(), 2);
}

#[test]
fn corrections_compose_left_to_right() {
    let mut data = vec![sample(0, "T1", "k", 10)];
    let rules = vec![
        rule("T1", "k", OperationType::Add, 5),
        rule("T1", "k", OperationType::Multiply, 2),
    ];
    apply_operations_to_data(&mut data, &rules);
    assert_eq!(data[0].value, 30);
}

#[test]
fn corrections_respect_matching_and_validity() {
    let mut data = vec![
        sample(100, "T1", "k", 10),
        sample(100, "T2", "k", 10),
        sample(900, "T1", "k", 10),
    ];
    let mut scoped = rule("T1", "k", OperationType::Add, 1);
    scoped.start_time_ms = Some(0);
    scoped.end_time_ms = Some(500);
    let mut inactive = rule("T2", "k", OperationType::Add, 7);
    inactive.is_active = false;
    let rules = vec![scoped, inactive];
    apply_operations_to_data(&mut data, &rules);
    assert_eq!(data[0].value, 11);
    assert_eq!(data[1].value, 10);
    assert_eq!(data[2].value, 10);
}

#[test]
fn division_by_zero_operand_is_a_no_op() {
    let mut data = vec![sample(0, "T1", "k", 10)];
    let rules = vec![rule("T1", "k", OperationType::Divide, 0)];
    apply_operations_to_data(&mut data, &rules);
    assert_eq!(data[0].value, 10);
}

#[test]
fn division_truncates_toward_zero() {
    let mut data = vec![sample(0, "T1", "k", -7)];
    let rules = vec![rule("T1", "k", OperationType::Divide, 2)];
    apply_operations_to_data(&mut data, &rules);
    assert_eq!(data[0].value, -3);
}

#[test]
fn end_to_end_reference_then_resample() {
    let data = vec![
        sample(0, "T1", "disp_x", 10),
        sample(30_000, "T1", "disp_x", 20),
    ];
    let mut p = plain_params();
    p.target_names = vec![String::from("T1")];
    p.key_names = vec![String::from("disp_x")];
    p.sampling_config = Some(SamplingConfig { interval_ms: 60_000, method: SamplingMethod::Avg });
    p.reference_values = Some(vec![ReferenceValue {
        target_name: String::from("T1"),
        key_name: String::from("disp_x"),
        reference_value: 5,
    }]);
    let resp = run_query(&data, &p, &Vec::new()).unwrap();
    assert_eq!(resp.data.len(), 1);
    assert_eq!(resp.data[0].timestamp_ms, 0);
    assert_eq!(resp.data[0].value, 10);
    assert_eq!(resp.stats.total_points, 1);
    assert_eq!(resp.stats.target_count, 1);
    assert_eq!(resp.stats.time_range, Some((0, 0)));
}

#[test]
fn base_filter_narrows_by_names_times_and_values() {
    let data = vec![
        sample(0, "T1", "k", 5),
        sample(10, "T2", "k", 5),
        sample(20, "T1", "k", 50),
        sample(2_000, "T1", "k", 5),
    ];
    let mut p = plain_params();
    p.target_names = vec![String::from("T1")];
    p.end_time_ms = Some(1_000);
    p.custom_filter = Some(CustomFilter {
        min_value: None,
        max_value: Some(40),
        exclude_values: Vec::new(),
    });
    let resp = run_query(&data, &p, &Vec::new()).unwrap();
    assert_eq!(resp.data.len(), 1);
    assert_eq!(resp.data[0].timestamp_ms, 0);
}

#[test]
fn exclusion_list_drops_exact_values() {
    let data = vec![sample(0, "T1", "k", 5), sample(1, "T1", "k", 6)];
    let mut p = plain_params();
    p.custom_filter = Some(CustomFilter {
        min_value: None,
        max_value: None,
        exclude_values: vec![6],
    });
    let resp = run_query(&data, &p, &Vec::new()).unwrap();
    assert_eq!(resp.data.len(), 1);
    assert_eq!(resp.data[0].value, 5);
}

#[test]
fn limit_caps_the_final_result() {
    let data = vec![
        sample(0, "T1", "k", 1),
        sample(1, "T1", "k", 2),
        sample(2, "T1", "k", 3),
    ];
    let mut p = plain_params();
    p.limit = Some(2);
    let resp = run_query(&data, &p, &Vec::new()).unwrap();
    assert_eq!(resp.data.len(), 2);
    assert_eq!(resp.stats.total_points, 2);
}

#[test]
fn compile_emits_the_fixed_stage_order() {
    let mut p = plain_params();
    p.remove_outliers = true;
    p.reference_values = Some(Vec::new());
    p.time_of_day_filter = Some(TimeOfDayFilter { time_ranges: Vec::new() });
    let sc = SamplingConfig { interval_ms: 1_000, method: SamplingMethod::Max };
    p.sampling_config = Some(sc);
    p.limit = Some(9);
    let stages = compile(&p).unwrap();
    assert_eq!(
        stages,
        vec![
            Stage::BaseFilter,
            Stage::OutlierRemoval(OutlierMethod::Iqr),
            Stage::ReferenceNormalization,
            Stage::TimeOfDayWindow,
            Stage::Resampling(sc),
            Stage::ResultCap(9),
        ]
    );
}

#[test]
fn compile_rejects_non_positive_interval() {
    let mut p = plain_params();
    p.sampling_config = Some(SamplingConfig { interval_ms: 0, method: SamplingMethod::Avg });
    assert_eq!(compile(&p), Err(InvalidSpec::NonPositiveInterval));
    let resp = run_query(&Vec::new(), &p, &Vec::new());
    assert_eq!(resp.err(), Some(InvalidSpec::NonPositiveInterval));
}

#[test]
fn compile_rejects_out_of_range_window() {
    let mut p = plain_params();
    p.time_of_day_filter = Some(TimeOfDayFilter {
        time_ranges: vec![
            TimeRange { start_hour: 1, start_minute: 2, end_hour: 3, end_minute: 4 },
            TimeRange { start_hour: 24, start_minute: 0, end_hour: 6, end_minute: 0 },
        ],
    });
    assert_eq!(compile(&p), Err(InvalidSpec::TimeWindowOutOfRange { index: 1 }));
}

#[test]
fn query_on_empty_data_reports_empty_stats() {
    let p = plain_params();
    let resp = run_query(&Vec::new(), &p, &Vec::new()).unwrap();
    assert_eq!(resp.data.len(), 0);
    assert_eq!(resp.stats.total_points, 0);
    assert_eq!(resp.stats.target_count, 0);
    assert_eq!(resp.stats.time_range, None);
    assert_eq!(resp.stats.outliers_removed, None);
    assert_eq!(resp.stats.outlier_method, None);
}

#[test]
fn window_bounds_are_inclusive() {
    let data = vec![
        sample(22 * 3_600_000, "T1", "k", 1),             // 22:00 exactly
        sample(6 * 3_600_000, "T1", "k", 2),              // 06:00 exactly
        sample(6 * 3_600_000 + 60_000, "T1", "k", 3),     // 06:01
    ];
    let ranges = vec![TimeRange { start_hour: 22, start_minute: 0, end_hour: 6, end_minute: 0 }];
    let out = apply_time_of_day_filter(&data, &ranges);
    assert_eq!(out.len(), 2);
}

#[test]
fn windows_work_before_nineteen_seventy() {
    // one minute before midnight of 1970-01-01 is 23:59
    let data = vec![sample(-60_000, "T1", "k", 1)];
    let ranges = vec![TimeRange { start_hour: 22, start_minute: 0, end_hour: 6, end_minute: 0 }];
    let out = apply_time_of_day_filter(&data, &ranges);
    assert_eq!(out.len(), 1);
}

#[test]
fn buckets_floor_toward_minus_infinity() {
    let data = vec![sample(-30_000, "T1", "k", 4)];
    let out = resample(&data, 60_000, SamplingMethod::First);
    assert_eq!(out.len(), 1);
    assert_eq!(out[0].timestamp_ms, -60_000);
}
