use time_checker::codec::log_to_json;
use time_checker::data::{DataStore, TimeEntry};
use time_checker::parse::log_from_json;
use time_checker::time::{Date, Timestamp, days_in_month_of, now_local};
use time_checker::tracker::Tracker;


fn wait_for_clock_tick() {
    let t0 = now_local();
    loop {
        if now_local() != t0 {
            break;
        }
    }
}

fn prev_day(d: Date) -> Date {
    if d.day > 1 {
        Date { year: d.year, month: d.month, day: d.day - 1 }
    } else if d.month > 1 {
        let pm = d.month - 1;
        Date { year: d.year, month: pm, day: days_in_month_of(d.year, pm) }
    } else {
        Date { year: d.year - 1, month: 12, day: 31 }
    }
}

fn on_day_at(d: Date, hour: u8, minute: u8, offset_seconds: i32) -> Timestamp {
    Timestamp::new(d.year, d.month, d.day, hour, minute, 0, offset_seconds)
        .expect("valid timestamp")
}

#[test]
fn test_complete_workflow() {
    let store = DataStore::new("workflow.json".to_string());
    let tracker = Tracker::new(store);
    let mut entries: Vec<TimeEntry> = Vec::new();

    // 1. start the first task
    tracker.start_task(&mut entries, "プログラミング".to_string(), None);

    let current = DataStore::get_current_task(&entries);
    assert!(current.is_some());
    assert_eq!(current.unwrap().task, "プログラミング");

    // 2. start another task (the first one is closed automatically)
    wait_for_clock_tick();
    tracker.start_task(
        &mut entries,
        "会議".to_string(),
        Some("週次定例".to_string()),
    );

    let current = DataStore::get_current_task(&entries);
    assert!(current.is_some());
    let current_task = current.unwrap();
    assert_eq!(current_task.task, "会議");
    assert_eq!(current_task.note, Some("週次定例".to_string()));

    assert_eq!(entries.len(), 2);

    assert!(entries[0].end.is_some());
    assert!(entries[1].end.is_none());

    // 3. stop
    wait_for_clock_tick();
    tracker.stop_task(&mut entries).expect("タスク停止に失敗");

    let current = DataStore::get_current_task(&entries);
    assert!(current.is_none());

    // 4. summary
    let summary = tracker.get_today_summary(&entries);

    assert_eq!(summary.len(), 2);
    assert!(summary.contains_key("プログラミング"));
    assert!(summary.contains_key("会議"));

    assert!(summary.get("プログラミング").unwrap() > 0);
    assert!(summary.get("会議").unwrap() > 0);
}

#[test]
fn test_same_task_aggregation() {
    let store = DataStore::new("aggregation.json".to_string());
    let tracker = Tracker::new(store);
    let mut entries: Vec<TimeEntry> = Vec::new();

    tracker.start_task(&mut entries, "コーディング".to_string(), None);
    wait_for_clock_tick();

    tracker.start_task(&mut entries, "休憩".to_string(), None);
    wait_for_clock_tick();

    tracker.start_task(&mut entries, "コーディング".to_string(), None);
    wait_for_clock_tick();

    tracker.stop_task(&mut entries).expect("失敗");

    let summary = tracker.get_today_summary(&entries);

    assert_eq!(summary.len(), 2);

    let coding_duration = summary.get("コーディング").unwrap();
    let break_duration = summary.get("休憩").unwrap();

    assert!(coding_duration > 0);
    assert!(break_duration > 0);
}

#[test]
fn test_start_from_empty() {
    let store = DataStore::new("empty.json".to_string());
    let tracker = Tracker::new(store);
    let mut entries: Vec<TimeEntry> = Vec::new();

    let current = DataStore::get_current_task(&entries);
    assert!(current.is_none());

    let summary = tracker.get_today_summary(&entries);
    assert!(summary.is_empty());

    tracker.start_task(&mut entries, "初回タスク".to_string(), None);

    let current = DataStore::get_current_task(&entries);
    assert!(current.is_some());
}

#[test]
fn test_stop_without_active_task() {
    let store = DataStore::new("no_active.json".to_string());
    let tracker = Tracker::new(store);
    let mut entries: Vec<TimeEntry> = Vec::new();

    let result = tracker.stop_task(&mut entries);
    assert!(result.is_err());
}

#[test]
fn test_data_persistence() {
    // first session: record a task and write the log out
    let written;
    {
        let store = DataStore::new("persistence.json".to_string());
        let tracker = Tracker::new(store);
        let mut entries: Vec<TimeEntry> = Vec::new();

        tracker.start_task(&mut entries, "タスクA".to_string(), None);
        tracker.stop_task(&mut entries).expect("失敗");

        written = log_to_json(&entries);
    }

    // second session: read the log back and summarize
    {
        let store = DataStore::new("persistence.json".to_string());
        let tracker = Tracker::new(store);
        let entries = log_from_json(&written).expect("読み込みに失敗");

        let summary = tracker.get_today_summary(&entries);

        assert_eq!(summary.len(), 1);
        assert!(summary.contains_key("タスクA"));
    }
}

#[test]
fn test_today_filtering() {
    let store = DataStore::new("filtering.json".to_string());

    let now = now_local();
    let today = now.date();
    let yesterday = prev_day(today);
    let off = now.offset_seconds;

    let entries = vec![
        TimeEntry {
            task: "昨日のタスク".to_string(),
            start: on_day_at(yesterday, 10, 0, off),
            end: Some(on_day_at(yesterday, 11, 0, off)),
            note: None,
        },
        TimeEntry {
            task: "今日のタスク".to_string(),
            start: on_day_at(today, 10, 0, off),
            end: Some(on_day_at(today, 11, 0, off)),
            note: None,
        },
    ];

    let tracker = Tracker::new(store);
    let summary = tracker.get_today_summary(&entries);

    assert_eq!(summary.len(), 1);
    assert!(summary.contains_key("今日のタスク"));
    assert!(!summary.contains_key("昨日のタスク"));
}

#[test]
fn test_yesterday_and_today_fixed_clock() {
    // one entry from the day before, one from the day of the call
    let at = |day: u8, h: u8| {
        Timestamp::new(2025, 11, day, h, 0, 0, 0).expect("valid timestamp")
    };
    let entries = vec![
        TimeEntry { task: "old".to_string(), start: at(13, 9), end: Some(at(13, 10)), note: None },
        TimeEntry { task: "new".to_string(), start: at(14, 9), end: Some(at(14, 10)), note: None },
    ];
    let summary = Tracker::get_today_summary_at(&entries, at(14, 12));
    assert_eq!(summary.len(), 1);
    assert!(summary.contains_key("new"));
    assert!(!summary.contains_key("old"));
}

#[test]
fn test_empty_log_summary_and_current() {
    let entries: Vec<TimeEntry> = Vec::new();
    let noon = Timestamp::new(2025, 11, 14, 12, 0, 0, 0).expect("valid timestamp");
    let summary = Tracker::get_today_summary_at(&entries, noon);
    assert!(summary.is_empty());
    assert_eq!(summary.len(), 0);
    assert!(DataStore::get_current_task(&entries).is_none());
}

#[test]
fn test_stop_closes_entry_at_call_time() {
    let mut entries = vec![TimeEntry {
        task: "work".to_string(),
        start: Timestamp::new(2025, 11, 14, 9, 0, 0, 0).expect("valid timestamp"),
        end: None,
        note: None,
    }];
    let noon = Timestamp::new(2025, 11, 14, 12, 0, 0, 0).expect("valid timestamp");
    Tracker::stop_task_at(&mut entries, noon).expect("stop failed");
    assert_eq!(entries[0].end, Some(noon));
    assert!(DataStore::get_current_task(&entries).is_none());
}
