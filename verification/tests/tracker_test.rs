use time_checker::data::{DataStore, TimeEntry};
use time_checker::time::{Timestamp, now_local};
use time_checker::tracker::Tracker;

fn wait_for_clock_tick() {
    let t0 = now_local();
    loop {
        if now_local() != t0 {
            break;
        }
    }
}

fn today_at(hour: u8, minute: u8) -> Timestamp {
    let now = now_local();
    let d = now.date();
    Timestamp::new(d.year, d.month, d.day, hour, minute, 0, now.offset_seconds)
        .expect("valid timestamp")
}

#[test]
fn test_tracker_start_new_task() {
    let store = DataStore::new("tracker.json".to_string());
    let tracker = Tracker::new(store);
    let mut entries: Vec<TimeEntry> = Vec::new();

    tracker.start_task(&mut entries, "プログラミング".to_string(), None);

    assert_eq!(entries.len(), 1);
    assert_eq!(entries[0].task, "プログラミング");
    assert!(entries[0].end.is_none());
}

#[test]
fn test_tracker_start_task_auto_ends_previous() {
    let store = DataStore::new("tracker_auto_end.json".to_string());
    let tracker = Tracker::new(store);
    let mut entries: Vec<TimeEntry> = Vec::new();

    tracker.start_task(&mut entries, "タスク1".to_string(), None);

    wait_for_clock_tick();
    tracker.start_task(&mut entries, "タスク2".to_string(), None);

    assert_eq!(entries.len(), 2);

    assert_eq!(entries[0].task, "タスク1");
    assert!(entries[0].end.is_some());

    assert_eq!(entries[1].task, "タスク2");
    assert!(entries[1].end.is_none());
}

#[test]
fn test_tracker_stop_task() {
    let store = DataStore::new("tracker_stop.json".to_string());
    let tracker = Tracker::new(store);
    let mut entries: Vec<TimeEntry> = Vec::new();

    tracker.start_task(&mut entries, "作業".to_string(), None);

    tracker.stop_task(&mut entries).expect("タスクの停止に失敗");

    let current = DataStore::get_current_task(&entries);
    assert!(current.is_none());
}

#[test]
fn test_tracker_stop_task_no_active_task() {
    let store = DataStore::new("tracker_no_active.json".to_string());
    let tracker = Tracker::new(store);
    let mut entries: Vec<TimeEntry> = Vec::new();

    let result = tracker.stop_task(&mut entries);
    assert!(result.is_err());
}

#[test]
fn test_tracker_get_today_summary() {
    let store = DataStore::new("tracker_summary.json".to_string());
    let tracker = Tracker::new(store);

    let entries = vec![
        TimeEntry {
            task: "プログラミング".to_string(),
            start: today_at(9, 0),
            end: Some(today_at(10, 0)),
            note: None,
        },
        TimeEntry {
            task: "会議".to_string(),
            start: today_at(10, 0),
            end: Some(today_at(11, 30)),
            note: None,
        },
    ];

    let summary = tracker.get_today_summary(&entries);

    assert_eq!(summary.len(), 2);
    assert_eq!(summary.get("プログラミング").unwrap(), 3600); // 1 hour
    assert_eq!(summary.get("会議").unwrap(), 5400); // 1.5 hours
}

#[test]
fn test_tracker_aggregate_same_task_names() {
    let store = DataStore::new("tracker_aggregate.json".to_string());
    let tracker = Tracker::new(store);

    let entries = vec![
        TimeEntry {
            task: "プログラミング".to_string(),
            start: today_at(9, 0),
            end: Some(today_at(10, 0)),
            note: None,
        },
        TimeEntry {
            task: "プログラミング".to_string(),
            start: today_at(11, 0),
            end: Some(today_at(12, 0)),
            note: None,
        },
    ];

    let summary = tracker.get_today_summary(&entries);

    assert_eq!(summary.len(), 1);
    assert_eq!(summary.get("プログラミング").unwrap(), 7200); // 2 hours
}

#[test]
fn test_tracker_start_with_note() {
    let store = DataStore::new("tracker_note.json".to_string());
    let tracker = Tracker::new(store);
    let mut entries: Vec<TimeEntry> = Vec::new();

    tracker.start_task(
        &mut entries,
        "ドキュメント作成".to_string(),
        Some("設計書更新".to_string()),
    );

    assert_eq!(entries.len(), 1);
    assert_eq!(entries[0].task, "ドキュメント作成");
    assert_eq!(entries[0].note, Some("設計書更新".to_string()));
}

#[test]
fn test_summary_examples_fixed_clock() {
    // entries {A, 09:00-10:00} and {B, 10:00-11:30} on one day
    let noon = Timestamp::new(2025, 11, 14, 12, 0, 0, 0).expect("valid timestamp");
    let at = |h: u8, m: u8| Timestamp::new(2025, 11, 14, h, m, 0, 0).expect("valid timestamp");
    let entries = vec![
        TimeEntry { task: "A".to_string(), start: at(9, 0), end: Some(at(10, 0)), note: None },
        TimeEntry { task: "B".to_string(), start: at(10, 0), end: Some(at(11, 30)), note: None },
    ];
    let summary = Tracker::get_today_summary_at(&entries, noon);
    assert_eq!(summary.get("A").unwrap(), 3600);
    assert_eq!(summary.get("B").unwrap(), 5400);
    assert_eq!(summary.len(), 2);
}

#[test]
fn test_summary_open_entry_counts_elapsed_time() {
    let at = |h: u8, m: u8| Timestamp::new(2025, 11, 14, h, m, 0, 0).expect("valid timestamp");
    let entries = vec![TimeEntry {
        task: "running".to_string(),
        start: at(9, 0),
        end: None,
        note: None,
    }];
    let summary = Tracker::get_today_summary_at(&entries, at(10, 0));
    assert_eq!(summary.get("running").unwrap(), 3600);
}

#[test]
fn test_summary_negative_duration_counts_zero() {
    let at = |h: u8, m: u8| Timestamp::new(2025, 11, 14, h, m, 0, 0).expect("valid timestamp");
    let entries = vec![
        TimeEntry { task: "skewed".to_string(), start: at(10, 0), end: Some(at(9, 0)), note: None },
        TimeEntry { task: "skewed".to_string(), start: at(11, 0), end: Some(at(12, 0)), note: None },
    ];
    let summary = Tracker::get_today_summary_at(&entries, at(12, 0));
    // the negative span adds nothing, never subtracts
    assert_eq!(summary.get("skewed").unwrap(), 3600);
}

#[test]
fn test_repeated_starts_keep_one_open_entry() {
    let store = DataStore::new("one_open.json".to_string());
    let tracker = Tracker::new(store);
    let mut entries: Vec<TimeEntry> = Vec::new();

    for name in ["a", "b", "c", "d"] {
        tracker.start_task(&mut entries, name.to_string(), None);
        let mut open = 0;
        for e in &entries {
            if e.end.is_none() {
                open += 1;
            }
        }
        assert_eq!(open, 1);
        assert!(entries[entries.len() - 1].end.is_none());
    }
    assert_eq!(entries.len(), 4);
}

#[test]
fn test_stop_with_no_open_entry_leaves_log_unchanged() {
    let tracker = Tracker::new(DataStore::new("unchanged.json".to_string()));
    let at = |h: u8| Timestamp::new(2025, 11, 14, h, 0, 0, 0).expect("valid timestamp");
    let mut entries = vec![TimeEntry {
        task: "done".to_string(),
        start: at(9),
        end: Some(at(10)),
        note: None,
    }];
    let before = entries.clone();
    let result = tracker.stop_task(&mut entries);
    assert!(result.is_err());
    assert_eq!(entries, before);
}
