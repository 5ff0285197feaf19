use telemetry_core::parsing::{parse_time_ranges, parse_time_string, split_and_trim};
use telemetry_core::requests::{
    build_create_operation, build_import_operations, build_query_params, build_update_operation,
    export_operations, CreateOperationRequest, ImportData, ImportOperation, TelemetryQuery,
    UpdateOperationRequest,
};
use telemetry_core::types::{
    ApiResponse, DataOperation, InvalidSpec, OperationType, ReferenceValue, SamplingMethod,
};

fn empty_query() -> TelemetryQuery {
    TelemetryQuery {
        asset_name: None,
        device_name: None,
        target_names: None,
        key_names: None,
        start_time: None,
        end_time: None,
        remove_outliers: None,
        outlier_method: None,
        min_value: None,
        max_value: None,
        exclude_values: None,
        limit: None,
        sampling_interval: None,
        sampling_method: None,
        reference_values: None,
        time_ranges: None,
    }
}

#[test]
fn operation_tags_roundtrip_and_unknown_tags_fail() {
    assert_eq!(OperationType::from_str("add"), Some(OperationType::Add));
    assert_eq!(OperationType::from_str("subtract"), Some(OperationType::Subtract));
    assert_eq!(OperationType::from_str("multiply"), Some(OperationType::Multiply));
    assert_eq!(OperationType::from_str("divide"), Some(OperationType::Divide));
    assert_eq!(OperationType::from_str("modulo"), None);
    assert_eq!(OperationType::Add.as_str(), "add");
    assert_eq!(OperationType::from_str(OperationType::Divide.as_str()), Some(OperationType::Divide));
}

#[test]
fn time_strings_parse_within_calendar_range() {
    assert_eq!(parse_time_string("22:00"), Some((22, 0)));
    assert_eq!(parse_time_string("6:5"), Some((6, 5)));
    assert_eq!(parse_time_string("23:59"), Some((23, 59)));
    assert_eq!(parse_time_string("+07:08"), Some((7, 8)));
    assert_eq!(parse_time_string("24:00"), None);
    assert_eq!(parse_time_string("12:60"), None);
    assert_eq!(parse_time_string("12"), None);
    assert_eq!(parse_time_string("12:30:00"), None);
    assert_eq!(parse_time_string("a:b"), None);
    assert_eq!(parse_time_string(":30"), None);
    assert_eq!(parse_time_string("999:0"), None);
}

#[test]
fn time_range_pairs_build_windows_or_name_the_bad_index() {
    let pairs = vec![
        (String::from("22:00"), String::from("06:00")),
        (String::from("09:15"), String::from("10:45")),
    ];
    let trs = parse_time_ranges(&pairs).unwrap();
    assert_eq!(trs.len(), 2);
    assert_eq!(trs[0].start_hour, 22);
    assert_eq!(trs[0].end_hour, 6);
    assert_eq!(trs[1].start_minute, 15);
    let bad = vec![
        (String::from("22:00"), String::from("06:00")),
        (String::from("25:00"), String::from("06:00")),
    ];
    assert_eq!(parse_time_ranges(&bad), Err(InvalidSpec::BadTimeText { index: 1 }));
}

#[test]
fn splitting_trims_each_segment() {
    let out = split_and_trim("a, b ,  c d ,");
    assert_eq!(out, vec!["a", "b", "c d", ""]);
    assert_eq!(split_and_trim(""), vec![""]);
    assert_eq!(split_and_trim("  one  "), vec!["one"]);
}

#[test]
fn query_build_resolves_names_times_and_sampling() {
    let mut q = empty_query();
    q.target_names = Some(String::from("T1, T2"));
    q.start_time = Some(String::from("2024-01-01T00:00:00Z"));
    q.end_time = Some(String::from("2024-01-01T08:00:00+08:00"));
    q.remove_outliers = Some(true);
    q.sampling_interval = Some(60_000);
    q.sampling_method = Some(String::from("avg"));
    q.limit = Some(100);
    let p = build_query_params(&q).unwrap();
    assert_eq!(p.target_names, vec!["T1", "T2"]);
    assert_eq!(p.key_names.len(), 0);
    assert_eq!(p.start_time_ms, Some(1_704_067_200_000));
    // the same instant, written with an offset
    assert_eq!(p.end_time_ms, Some(1_704_067_200_000));
    assert!(p.remove_outliers);
    assert_eq!(p.outlier_method, "iqr");
    assert_eq!(p.limit, Some(100));
    let sc = p.sampling_config.unwrap();
    assert_eq!(sc.interval_ms, 60_000);
    assert_eq!(sc.method, SamplingMethod::Avg);
    assert!(p.custom_filter.is_none());
    assert!(p.time_of_day_filter.is_none());
}

#[test]
fn query_build_rejects_bad_instants_and_unknown_methods() {
    let mut q = empty_query();
    q.start_time = Some(String::from("yesterday"));
    assert_eq!(build_query_params(&q).err(), Some(InvalidSpec::BadStartTimeText));

    let mut q2 = empty_query();
    q2.end_time = Some(String::from("2024-13-01T00:00:00Z"));
    assert_eq!(build_query_params(&q2).err(), Some(InvalidSpec::BadEndTimeText));

    let mut q3 = empty_query();
    q3.sampling_interval = Some(1_000);
    q3.sampling_method = Some(String::from("median"));
    assert_eq!(build_query_params(&q3).err(), Some(InvalidSpec::UnknownSamplingMethod));

    let mut q4 = empty_query();
    q4.time_ranges = Some(vec![(String::from("22:70"), String::from("06:00"))]);
    assert_eq!(build_query_params(&q4).err(), Some(InvalidSpec::BadTimeText { index: 0 }));
}

#[test]
fn query_build_assembles_filters_and_windows() {
    let mut q = empty_query();
    q.min_value = Some(-5);
    q.exclude_values = Some(vec![7, 9]);
    q.reference_values = Some(vec![ReferenceValue {
        target_name: String::from("T1"),
        key_name: String::from("k"),
        reference_value: 3,
    }]);
    q.time_ranges = Some(vec![(String::from("08:00"), String::from("18:00"))]);
    let p = build_query_params(&q).unwrap();
    let cf = p.custom_filter.unwrap();
    assert_eq!(cf.min_value, Some(-5));
    assert_eq!(cf.max_value, None);
    assert_eq!(cf.exclude_values, vec![7, 9]);
    let refs = p.reference_values.unwrap();
    assert_eq!(refs.len(), 1);
    assert_eq!(refs[0].reference_value, 3);
    let tf = p.time_of_day_filter.unwrap();
    assert_eq!(tf.time_ranges.len(), 1);
    assert_eq!(tf.time_ranges[0].start_hour, 8);
    // an empty window list configures no filter at all
    let mut q2 = empty_query();
    q2.time_ranges = Some(Vec::new());
    assert!(build_query_params(&q2).unwrap().time_of_day_filter.is_none());
}

#[test]
fn create_request_builds_an_active_rule() {
    let req = CreateOperationRequest {
        name: Some(String::from("shift")),
        description: None,
        target_name: String::from("T1"),
        key_name: String::from("k"),
        operation_type: String::from("subtract"),
        value: 4,
        start_time: Some(String::from("2024-01-01T00:00:00Z")),
        end_time: None,
    };
    let op = build_create_operation(&req, 77).unwrap();
    assert_eq!(op.id, None);
    assert_eq!(op.name.as_deref(), Some("shift"));
    assert_eq!(op.operation_type, OperationType::Subtract);
    assert_eq!(op.value, 4);
    assert_eq!(op.start_time_ms, Some(1_704_067_200_000));
    assert_eq!(op.end_time_ms, None);
    assert!(op.is_active);
    assert_eq!(op.created_at_ms, 77);
    assert_eq!(op.updated_at_ms, 77);
}

#[test]
fn rule_requests_reject_unknown_tags_and_bad_instants() {
    let mut req = CreateOperationRequest {
        name: None,
        description: None,
        target_name: String::from("T1"),
        key_name: String::from("k"),
        operation_type: String::from("shift"),
        value: 4,
        start_time: None,
        end_time: None,
    };
    assert_eq!(build_create_operation(&req, 0).err(), Some(InvalidSpec::UnknownOperationType));
    req.operation_type = String::from("add");
    req.end_time = Some(String::from("soon"));
    assert_eq!(build_create_operation(&req, 0).err(), Some(InvalidSpec::BadEndTimeText));
}

#[test]
fn update_request_keeps_id_and_active_flag() {
    let req = UpdateOperationRequest {
        id: 12,
        name: None,
        description: None,
        target_name: String::from("T1"),
        key_name: String::from("k"),
        operation_type: String::from("multiply"),
        value: 2,
        start_time: None,
        end_time: None,
        is_active: false,
    };
    let op = build_update_operation(&req, 5).unwrap();
    assert_eq!(op.id, Some(12));
    assert_eq!(op.operation_type, OperationType::Multiply);
    assert!(!op.is_active);
    assert_eq!(op.updated_at_ms, 5);
}

fn rule(target: &str, v: i64) -> DataOperation {
    DataOperation {
        id: None,
        name: None,
        description: None,
        target_name: String::from(target),
        key_name: String::from("k"),
        operation_type: OperationType::Add,
        value: v,
        start_time_ms: None,
        end_time_ms: None,
        is_active: true,
        created_at_ms: 0,
        updated_at_ms: 0,
    }
}

#[test]
fn export_groups_rules_by_target_in_first_appearance_order() {
    let ops = vec![rule("A", 1), rule("B", 2), rule("A", 3)];
    let groups = export_operations(&ops, 400);
    assert_eq!(groups.len(), 2);
    assert_eq!(groups[0].target_name, "A");
    assert_eq!(groups[0].operations.len(), 2);
    assert_eq!(groups[0].operations[0].value, 1);
    assert_eq!(groups[0].operations[1].value, 3);
    assert_eq!(groups[1].target_name, "B");
    assert_eq!(groups[1].operations.len(), 1);
    assert_eq!(groups[0].export_time_ms, 400);
}

#[test]
fn bulk_import_builds_every_entry_or_names_the_first_error() {
    let entry = |tag: &str, active: bool| ImportOperation {
        name: None,
        description: None,
        key_name: String::from("k"),
        operation_type: String::from(tag),
        value: 2,
        start_time: None,
        end_time: None,
        is_active: active,
    };
    let groups = vec![
        ImportData { target_name: String::from("A"), operations: vec![entry("add", true)] },
        ImportData {
            target_name: String::from("B"),
            operations: vec![entry("divide", false), entry("multiply", true)],
        },
    ];
    let ops = build_import_operations(&groups, 9).unwrap();
    assert_eq!(ops.len(), 3);
    assert_eq!(ops[0].target_name, "A");
    assert_eq!(ops[1].target_name, "B");
    assert_eq!(ops[1].operation_type, OperationType::Divide);
    assert!(!ops[1].is_active);
    assert_eq!(ops[2].operation_type, OperationType::Multiply);
    assert_eq!(ops[0].created_at_ms, 9);

    let bad = vec![ImportData {
        target_name: String::from("A"),
        operations: vec![entry("add", true), entry("nope", true)],
    }];
    assert_eq!(build_import_operations(&bad, 9).err(), Some(InvalidSpec::UnknownOperationType));
}

#[test]
fn api_envelope_marks_success_and_failure() {
    let ok: ApiResponse<u32> = ApiResponse::success(5);
    assert!(ok.success);
    assert_eq!(ok.data, Some(5));
    assert_eq!(ok.error, None);
    let err: ApiResponse<u32> = ApiResponse::error(String::from("boom"));
    assert!(!err.success);
    assert_eq!(err.data, None);
    assert_eq!(err.error.as_deref(), Some("boom"));
}
