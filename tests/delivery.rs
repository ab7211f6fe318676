use notifications::{
    add_notification, get_all_notifications, get_latest_notifications, is_visible,
    parse_timestamp, select_visible, validate_request, CreateError, Notification,
    NotificationStore, NONE_SEEN,
};

const NOW: i64 = 1_735_689_600; // 2025-01-01 00:00:00 UTC

fn ids(v: &[Notification]) -> Vec<i64> {
    v.iter().map(|n| n.id).collect()
}

fn record(id: i64, scheduled_for: Option<i64>) -> Notification {
    Notification {
        id,
        title: format!("t{}", id),
        message: format!("m{}", id),
        created_at: 0,
        scheduled_for,
    }
}

#[test]
fn unscheduled_notification_is_visible_at_once() {
    let mut store = NotificationStore::new();
    let n = add_notification(&mut store, "Build failed", "job 42", None, NOW).unwrap();
    assert_eq!(n.id, 1);
    assert_eq!(n.title, "Build failed");
    assert_eq!(n.message, "job 42");
    assert_eq!(n.created_at, NOW);
    assert_eq!(n.scheduled_for, None);
    let polled = get_latest_notifications(&store, 0, NOW);
    assert_eq!(ids(&polled), vec![1]);
    assert_eq!(polled[0].title, "Build failed");
}

#[test]
fn scheduled_notification_appears_when_due() {
    let mut store = NotificationStore::new();
    assert_eq!(parse_timestamp("2025-01-01 00:00:00"), Some(NOW));
    let n = add_notification(&mut store, "Release", "v2 ships", Some("2025-01-01 01:00:00"), NOW)
        .unwrap();
    assert_eq!(n.scheduled_for, Some(NOW + 3600));
    assert!(get_latest_notifications(&store, 0, NOW).is_empty());
    assert_eq!(ids(&get_latest_notifications(&store, 0, NOW + 7200)), vec![1]);
}

#[test]
fn poll_skips_record_scheduled_far_ahead() {
    let mut store = NotificationStore::new();
    for i in 1..=10 {
        let sched = if i == 7 { Some("9999-12-31 23:59:59") } else { None };
        let n = add_notification(&mut store, "title", "message", sched, NOW).unwrap();
        assert_eq!(n.id, i);
    }
    assert_eq!(ids(&get_latest_notifications(&store, 5, NOW)), vec![6, 8, 9, 10]);
}

#[test]
fn malformed_schedule_is_rejected_and_stores_nothing() {
    let mut store = NotificationStore::new();
    add_notification(&mut store, "a", "b", None, NOW).unwrap();
    let r = add_notification(&mut store, "a", "b", Some("next tuesday"), NOW);
    assert_eq!(r.unwrap_err(), CreateError::MalformedSchedule);
    assert_eq!(ids(&get_all_notifications(&store)), vec![1]);
    let n = add_notification(&mut store, "a", "b", None, NOW).unwrap();
    assert_eq!(n.id, 2);
}

#[test]
fn empty_title_or_message_is_rejected() {
    let mut store = NotificationStore::new();
    assert_eq!(
        add_notification(&mut store, "", "b", None, NOW).unwrap_err(),
        CreateError::EmptyTitle
    );
    assert_eq!(
        add_notification(&mut store, "a", "", None, NOW).unwrap_err(),
        CreateError::EmptyMessage
    );
    assert!(get_all_notifications(&store).is_empty());
}

#[test]
fn created_ids_strictly_increase() {
    let mut store = NotificationStore::new();
    let mut seen = Vec::new();
    for i in 0..20 {
        let title = if i % 3 == 0 { "" } else { "x" };
        if let Ok(n) = add_notification(&mut store, title, "y", None, NOW + i) {
            seen.push(n.id);
        }
    }
    assert_eq!(seen.len(), 13);
    for w in seen.windows(2) {
        assert!(w[0] < w[1]);
    }
    assert_eq!(seen, (1..=13).collect::<Vec<i64>>());
}

#[test]
fn unscheduled_is_visible_at_every_time() {
    let n = record(1, None);
    assert!(is_visible(&n, i64::MIN));
    assert!(is_visible(&n, 0));
    assert!(is_visible(&n, i64::MAX));
}

#[test]
fn scheduled_is_visible_from_its_time_on() {
    let n = record(1, Some(100));
    assert!(!is_visible(&n, 99));
    assert!(is_visible(&n, 100));
    assert!(is_visible(&n, 101));
}

#[test]
fn poll_equals_filtered_dump() {
    let mut store = NotificationStore::new();
    let schedules = [None, Some("2025-01-01 00:00:00"), Some("2025-01-02"), None, Some("2024-12-31T23:00Z")];
    for s in schedules {
        add_notification(&mut store, "t", "m", s, NOW).unwrap();
    }
    let dump = get_all_notifications(&store);
    assert_eq!(ids(&dump), vec![1, 2, 3, 4, 5]);
    for w in [NONE_SEEN, 0, 1, 2, 3, 5] {
        for now in [NOW - 1, NOW, NOW + 86_400] {
            let expected: Vec<i64> = dump
                .iter()
                .filter(|n| n.id > w && is_visible(n, now))
                .map(|n| n.id)
                .collect();
            assert_eq!(ids(&get_latest_notifications(&store, w, now)), expected);
        }
    }
    assert_eq!(ids(&get_latest_notifications(&store, NONE_SEEN, NOW)), vec![1, 2, 4, 5]);
}

#[test]
fn poll_from_last_seen_id_does_not_redeliver() {
    let mut store = NotificationStore::new();
    add_notification(&mut store, "t", "m", None, NOW).unwrap();
    add_notification(&mut store, "t", "m", Some("2025-01-01 00:10:00"), NOW).unwrap();
    add_notification(&mut store, "t", "m", None, NOW).unwrap();
    let first = get_latest_notifications(&store, NONE_SEEN, NOW);
    assert_eq!(ids(&first), vec![1, 3]);
    let m = first.last().unwrap().id;
    add_notification(&mut store, "t", "m", None, NOW).unwrap();
    let second = get_latest_notifications(&store, m, NOW + 3600);
    assert_eq!(ids(&second), vec![4]);
}

#[test]
fn select_visible_keeps_order_and_filters() {
    let records = vec![record(2, None), record(4, Some(50)), record(7, Some(10)), record(9, None)];
    assert_eq!(ids(&select_visible(&records, 2, 20)), vec![7, 9]);
    assert_eq!(ids(&select_visible(&records, NONE_SEEN, 50)), vec![2, 4, 7, 9]);
    assert!(select_visible(&Vec::new(), NONE_SEEN, 0).is_empty());
}

#[test]
fn parses_timestamps() {
    assert_eq!(parse_timestamp("1970-01-01 00:00:00"), Some(0));
    assert_eq!(parse_timestamp("1969-12-31 23:59:59"), Some(-1));
    assert_eq!(parse_timestamp("2000-03-01T12:34:56Z"), Some(951_914_096));
    assert_eq!(parse_timestamp("2024-02-29"), Some(1_709_164_800));
    assert_eq!(parse_timestamp("2024-01-01 10:30"), Some(1_704_105_000));
    assert_eq!(parse_timestamp("0000-01-01"), Some(-62_167_219_200));
}

#[test]
fn rejects_malformed_timestamps() {
    for s in [
        "",
        "Z",
        "2023-02-29",
        "2024-13-01",
        "2024-00-10",
        "2024-04-31",
        "2024-01-01 24:00",
        "2024-01-01 10:60",
        "2024-01-01 10:00:60",
        "2024/01/01",
        "2024-01-01 10",
        "2024-01-01X10:00",
        "2024-01-01 10:00ZZ",
        "２024-01-01",
    ] {
        assert_eq!(parse_timestamp(s), None, "{}", s);
    }
}

#[test]
fn validates_requests() {
    assert_eq!(validate_request("a", "b", None), Ok(None));
    assert_eq!(validate_request("a", "b", Some("1970-01-02")), Ok(Some(86_400)));
    assert_eq!(validate_request("", "", Some("bad")), Err(CreateError::EmptyTitle));
    assert_eq!(validate_request("a", "", Some("bad")), Err(CreateError::EmptyMessage));
    assert_eq!(validate_request("a", "b", Some("bad")), Err(CreateError::MalformedSchedule));
}
