use outlook_email::clock::{
    instant_not_after, parse_scheduler_timestamp, scheduler_due, share_record_status, share_status_at,
    UtcInstant,
};
use outlook_email::storage::refresh_job_result;

#[test]
fn timestamps_in_both_stored_forms() {
    let a = parse_scheduler_timestamp("2024-01-02T03:04:05+00:00").expect("rfc3339");
    assert_eq!(a, UtcInstant { seconds: 1704164645, nanos: 0 });
    let b = parse_scheduler_timestamp("2024-01-02 03:04:05").expect("plain");
    assert_eq!(a, b);
    let c = parse_scheduler_timestamp("2024-01-02T04:04:05.5+01:00").expect("offset");
    assert_eq!(c, UtcInstant { seconds: 1704164645, nanos: 500_000_000 });
    assert_eq!(parse_scheduler_timestamp("yesterday"), None);
}

#[test]
fn share_states() {
    let now = UtcInstant { seconds: 100, nanos: 0 };
    assert_eq!(share_status_at(None, true, now), "revoked");
    assert_eq!(share_status_at(Some(UtcInstant { seconds: 100, nanos: 0 }), false, now), "expired");
    assert_eq!(share_status_at(Some(UtcInstant { seconds: 100, nanos: 1 }), false, now), "active");
    assert_eq!(share_status_at(None, false, now), "active");
    assert!(instant_not_after(UtcInstant { seconds: 1, nanos: 5 }, UtcInstant { seconds: 2, nanos: 0 }));
    assert_eq!(share_record_status(Some("2000-01-01T00:00:00Z"), None), "expired");
    assert_eq!(share_record_status(Some("2999-01-01T00:00:00Z"), None), "active");
    assert_eq!(share_record_status(None, Some("x")), "revoked");
}

#[test]
fn scheduled_refresh_comes_due_after_whole_interval() {
    // 2024-01-01T00:00:00Z
    let start = 1_704_067_200_i64;
    let at = |seconds: i64, nanos: u32| UtcInstant { seconds, nanos };
    let last = Some("2024-01-01T00:00:00Z");
    assert!(!scheduler_due(last, 15, at(start + 14 * 60 + 59, 999_999_999)));
    assert!(scheduler_due(last, 15, at(start + 15 * 60, 0)));
    assert!(scheduler_due(Some("2024-01-01 00:00:00"), 15, at(start + 20 * 60, 0)));
    assert!(!scheduler_due(last, 15, at(start - 60 * 60, 0)));
    assert!(scheduler_due(None, 15, at(start, 0)));
    assert!(scheduler_due(Some("not a time"), 15, at(start, 0)));
    assert!(!scheduler_due(None, 0, at(start, 0)));
    assert!(!scheduler_due(None, -5, at(start, 0)));
}

#[test]
fn refresh_reports_count_and_failures() {
    let ok = refresh_job_result(2, 17, &Vec::new());
    assert!(ok.success);
    assert_eq!(ok.message, "Refreshed 2 account(s), cached 17 message(s)");
    assert_eq!((ok.refreshed, ok.failed), (2, 0));
    let failures = vec![
        ("a@x.com".to_string(), "token expired".to_string()),
        ("b@y.com".to_string(), "timeout".to_string()),
    ];
    let bad = refresh_job_result(1, 0, &failures);
    assert!(!bad.success);
    assert_eq!(
        bad.message,
        "Refreshed 1 account(s), cached 0 message(s), 2 failed: a@x.com: token expired; b@y.com: timeout"
    );
    assert_eq!((bad.refreshed, bad.failed), (1, 2));
}
