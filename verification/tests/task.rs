use vergissmeinnicht::num::{i64_to_string, parse_i64};
use vergissmeinnicht::task::{
    build_task_info, followup_plan, listing_plan, non_empty, parse_uuid, ping,
    timestamp_from_secs, validate_sync_url, AnnotationInfo, RawStatus, RecordTag, TaskRecord, TaskStatus,
    VmError,
};

#[test]
fn ping_pong() {
    assert_eq!(ping(), "pong");
}

#[test]
fn timestamp_from_secs_valid() {
    assert!(timestamp_from_secs(0).is_ok());
    assert!(timestamp_from_secs(1_700_000_000).is_ok());
}

#[test]
fn timestamp_from_secs_out_of_range() {
    let result = timestamp_from_secs(i64::MAX);
    assert!(matches!(result, Err(VmError::Conversion { .. })));
}

#[test]
fn timestamp_error_names_the_seconds() {
    match timestamp_from_secs(i64::MAX) {
        Err(e) => assert_eq!(
            e.message(),
            "Conversion: due timestamp out of range: 9223372036854775807"
        ),
        Ok(_) => panic!("out of range"),
    }
    assert_eq!(timestamp_from_secs(-5).unwrap(), -5);
}

#[test]
fn parse_uuid_invalid_returns_conversion_error() {
    let result = parse_uuid("not-a-uuid");
    assert!(matches!(result, Err(VmError::Conversion { .. })));
}

#[test]
fn parse_uuid_valid() {
    let result = parse_uuid("550e8400-e29b-41d4-a716-446655440000");
    assert!(result.is_ok());
}

#[test]
fn parse_uuid_gives_the_value() {
    assert_eq!(
        parse_uuid("550e8400-e29b-41d4-a716-446655440000").unwrap(),
        0x550e8400_e29b_41d4_a716_446655440000u128
    );
}

#[test]
fn validate_sync_url_http_ok() {
    assert!(validate_sync_url("http://sync.example.com").is_ok());
}

#[test]
fn validate_sync_url_https_with_path_ok() {
    assert!(validate_sync_url("https://sync.example.com/v1/client/add-version/").is_ok());
}

#[test]
fn validate_sync_url_https_with_port_ok() {
    assert!(validate_sync_url("https://localhost:8080").is_ok());
}

#[test]
fn validate_sync_url_missing_schema() {
    let result = validate_sync_url("sync.example.com");
    assert!(matches!(result, Err(VmError::Sync { .. })));
}

#[test]
fn validate_sync_url_wrong_schema() {
    let result = validate_sync_url("ftp://sync.example.com");
    assert!(matches!(result, Err(VmError::Sync { .. })));
}

#[test]
fn validate_sync_url_empty_host() {
    let result = validate_sync_url("http://");
    assert!(matches!(result, Err(VmError::Sync { .. })));
}

#[test]
fn validate_sync_url_messages() {
    match validate_sync_url("http://") {
        Err(e) => assert_eq!(e.message(), "Sync: server_url has no host: \"http://\""),
        Ok(()) => panic!("no host"),
    }
    match validate_sync_url("http:///pfad") {
        Err(VmError::Sync { .. }) => {}
        _ => panic!("no host before the path"),
    }
}

#[test]
fn decimal_numbers_roundtrip() {
    assert_eq!(i64_to_string(0), "0");
    assert_eq!(i64_to_string(-42), "-42");
    assert_eq!(i64_to_string(i64::MIN), "-9223372036854775808");
    assert_eq!(parse_i64("1700000000"), Some(1_700_000_000));
    assert_eq!(parse_i64("-7"), Some(-7));
    assert_eq!(parse_i64("+7"), Some(7));
    assert_eq!(parse_i64("9223372036854775808"), None);
    assert_eq!(parse_i64("12a"), None);
    assert_eq!(parse_i64(""), None);
}

fn raw_record() -> TaskRecord {
    TaskRecord {
        description: "Steuer".into(),
        project: Some(String::new()),
        tags: vec![
            RecordTag { name: "amt".into(), user: true },
            RecordTag { name: "PENDING".into(), user: false },
        ],
        due: Some(100),
        entry: Some(50),
        priority: "H".into(),
        annotations: vec![AnnotationInfo {
            entry: 60,
            description: "Belege".into(),
        }],
        wait: None,
        recur: Some("monthly".into()),
        scheduled: Some("70".into()),
        depends: vec![],
        parent: None,
        imask: Some("3".into()),
        start: Some("kaputt".into()),
        until: None,
        modified: Some(80),
        udas: vec![
            ("".into(), "kunde".into(), "ACME".into()),
            ("".into(), "rtype".into(), "periodic".into()),
            ("gh".into(), "nr".into(), "7".into()),
        ],
        status: RawStatus::Unknown,
    }
}

#[test]
fn build_task_info_normalises_the_record() {
    let t = build_task_info(raw_record(), "abc".into(), Some(4), true, false);
    assert_eq!(t.uuid, "abc");
    assert_eq!(t.tags, vec!["amt".to_string()]);
    assert_eq!(t.project, None);
    assert_eq!(t.priority.as_deref(), Some("H"));
    assert_eq!(t.recur.as_deref(), Some("monthly"));
    assert_eq!(t.scheduled, Some(70));
    assert_eq!(t.start, None);
    assert_eq!(t.status, TaskStatus::Deleted);
    assert!(t.is_recurring_child);
    assert!(t.is_blocked && !t.is_blocking);
    assert_eq!(t.working_set_id, Some(4));
    assert_eq!(t.udas.len(), 2);
    assert_eq!(t.udas[0], ("kunde".to_string(), "ACME".to_string()));
    assert_eq!(t.udas[1], ("gh.nr".to_string(), "7".to_string()));
}

#[test]
fn non_empty_drops_empty_text() {
    assert_eq!(non_empty(Some(String::new())), None);
    assert_eq!(non_empty(Some("x".into())), Some("x".to_string()));
    assert_eq!(non_empty(None), None);
}

#[test]
fn followup_only_for_recurring_with_new_due() {
    let p = followup_plan(
        Some(500),
        Some("weekly".into()),
        Some(String::new()),
        Some("Haus".into()),
        vec!["putzen".into()],
        "Bad".into(),
    )
    .unwrap();
    assert_eq!(p.due, 500);
    assert_eq!(p.recur, "weekly");
    assert_eq!(p.priority, None);
    assert_eq!(p.project.as_deref(), Some("Haus"));
    assert_eq!(p.description, "Bad");
    assert!(followup_plan(None, Some("weekly".into()), None, None, vec![], "x".into()).is_none());
    assert!(followup_plan(Some(1), Some(String::new()), None, None, vec![], "x".into()).is_none());
}

#[test]
fn listing_shows_working_set_then_rest_by_uuid() {
    let ws = vec![
        (1u32, 30u128, RawStatus::Pending),
        (2u32, 10u128, RawStatus::Completed),
        (3u32, 20u128, RawStatus::Pending),
    ];
    let all = vec![
        (40u128, RawStatus::Completed),
        (30u128, RawStatus::Pending),
        (5u128, RawStatus::Deleted),
        (20u128, RawStatus::Pending),
        (15u128, RawStatus::Pending),
        (35u128, RawStatus::Recurring),
    ];
    assert_eq!(
        listing_plan(&ws, all.clone(), false),
        vec![(30, Some(1)), (20, Some(3))]
    );
    assert_eq!(
        listing_plan(&ws, all, true),
        vec![(30, Some(1)), (20, Some(3)), (15, None), (35, None), (40, None)]
    );
}
