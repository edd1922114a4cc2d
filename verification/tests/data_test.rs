use time_checker::codec::entry_to_json;
use time_checker::data::{DataStore, TimeEntry};
use time_checker::parse::{decode_content, entry_from_json, log_from_json};
use time_checker::error::TimeCheckerError;
use time_checker::time::{Date, Timestamp};

const JST: i32 = 9 * 3600;

fn ts(year: u16, month: u8, day: u8, hour: u8, minute: u8, second: u8) -> Timestamp {
    Timestamp::new(year, month, day, hour, minute, second, JST).expect("valid timestamp")
}

#[test]
fn test_timeentry_serialization_with_all_fields() {
    let start_time = ts(2025, 11, 14, 9, 0, 0);
    let end_time = ts(2025, 11, 14, 10, 30, 0);

    let entry = TimeEntry {
        task: "プログラミング".to_string(),
        start: start_time,
        end: Some(end_time),
        note: Some("Rust実装".to_string()),
    };

    let json = entry_to_json(&entry);

    assert!(json.contains("\"task\":\"プログラミング\""));
    assert!(json.contains("\"note\":\"Rust実装\""));
}

#[test]
fn test_timeentry_serialization_without_optional_fields() {
    let start_time = ts(2025, 11, 14, 9, 0, 0);

    let entry = TimeEntry {
        task: "会議".to_string(),
        start: start_time,
        end: None,
        note: None,
    };

    let json = entry_to_json(&entry);

    assert!(!json.contains("\"note\""));
    assert!(!json.contains("\"end\""));
    assert!(json.contains("\"task\":\"会議\""));
}

#[test]
fn test_timeentry_deserialization() {
    let json = r#"{
        "task": "テスト作業",
        "start": "2025-11-14T09:00:00+09:00",
        "end": "2025-11-14T10:00:00+09:00"
    }"#;

    let entry = entry_from_json(json).expect("deserialization failed");

    assert_eq!(entry.task, "テスト作業");
    assert!(entry.end.is_some());
    assert!(entry.note.is_none());
}

#[test]
fn test_timeentry_roundtrip() {
    let start_time = ts(2025, 11, 14, 14, 0, 0);
    let end_time = ts(2025, 11, 14, 15, 30, 0);

    let original = TimeEntry {
        task: "ドキュメント作成".to_string(),
        start: start_time,
        end: Some(end_time),
        note: Some("設計書更新".to_string()),
    };

    let json = entry_to_json(&original);
    let deserialized = entry_from_json(&json).expect("deserialization failed");

    assert_eq!(original, deserialized);
}

#[test]
fn test_timeentry_roundtrip_with_escapes() {
    let original = TimeEntry {
        task: "quote \" backslash \\ slash / newline \n tab \t".to_string(),
        start: ts(2025, 1, 1, 0, 0, 0),
        end: None,
        note: Some("control \u{1} and \u{1f} chars".to_string()),
    };

    let json = entry_to_json(&original);
    let deserialized = entry_from_json(&json).expect("deserialization failed");

    assert_eq!(original, deserialized);
}

#[test]
fn test_log_roundtrip_negative_offset() {
    let start = Timestamp::new(2025, 11, 14, 9, 0, 0, -5 * 3600).expect("valid timestamp");
    let entries = vec![TimeEntry {
        task: "remote work".to_string(),
        start,
        end: None,
        note: None,
    }];

    let json = time_checker::codec::log_to_json(&entries);
    let loaded = log_from_json(&json).expect("load failed");

    assert_eq!(entries, loaded);
}

#[test]
fn test_datastore_save_and_load() {
    let start_time = ts(2025, 11, 14, 9, 0, 0);
    let end_time = ts(2025, 11, 14, 10, 0, 0);

    let entries = vec![TimeEntry {
        task: "タスク1".to_string(),
        start: start_time,
        end: Some(end_time),
        note: None,
    }];

    let json = time_checker::codec::log_to_json(&entries);
    let loaded = log_from_json(&json).expect("読み込みに失敗");

    assert_eq!(loaded.len(), 1);
    assert_eq!(loaded[0].task, "タスク1");
}

#[test]
fn test_datastore_load_empty_file() {
    let loaded = decode_content("").expect("読み込みに失敗");
    assert_eq!(loaded.len(), 0);
}

#[test]
fn test_decode_whitespace_only_content() {
    let loaded = decode_content("  \n\t \r\n ").expect("load failed");
    assert_eq!(loaded.len(), 0);
    let loaded2 = decode_content("[]").expect("load failed");
    assert_eq!(loaded2.len(), 0);
}

#[test]
fn test_decode_malformed_content() {
    let err = decode_content("not json at all").unwrap_err();
    assert!(matches!(err, TimeCheckerError::DataLoadError(_)));
    let err2 = decode_content("[{\"task\":\"x\"}]").unwrap_err();
    assert!(matches!(err2, TimeCheckerError::DataLoadError(_)));
}

#[test]
fn test_datastore_get_current_task() {
    let start_time1 = ts(2025, 11, 14, 9, 0, 0);
    let end_time1 = ts(2025, 11, 14, 10, 0, 0);
    let start_time2 = ts(2025, 11, 14, 10, 0, 0);

    let entries = vec![
        TimeEntry {
            task: "完了タスク".to_string(),
            start: start_time1,
            end: Some(end_time1),
            note: None,
        },
        TimeEntry {
            task: "進行中タスク".to_string(),
            start: start_time2,
            end: None,
            note: None,
        },
    ];

    let current = DataStore::get_current_task(&entries);

    assert!(current.is_some());
    assert_eq!(current.unwrap().task, "進行中タスク");
}

#[test]
fn test_datastore_get_current_task_none() {
    let start_time = ts(2025, 11, 14, 9, 0, 0);
    let end_time = ts(2025, 11, 14, 10, 0, 0);

    let entries = vec![TimeEntry {
        task: "完了タスク".to_string(),
        start: start_time,
        end: Some(end_time),
        note: None,
    }];

    let current = DataStore::get_current_task(&entries);
    assert!(current.is_none());
}

#[test]
fn test_datastore_get_today_entries() {
    let entries = vec![
        TimeEntry {
            task: "昨日のタスク".to_string(),
            start: ts(2025, 11, 13, 9, 0, 0),
            end: Some(ts(2025, 11, 13, 10, 0, 0)),
            note: None,
        },
        TimeEntry {
            task: "今日のタスク".to_string(),
            start: ts(2025, 11, 14, 9, 0, 0),
            end: Some(ts(2025, 11, 14, 10, 0, 0)),
            note: None,
        },
    ];

    let today = Date { year: 2025, month: 11, day: 14 };
    let today_entries = DataStore::get_today_entries(&entries, today);

    assert_eq!(today_entries.len(), 1);
    assert_eq!(today_entries[0].task, "今日のタスク");
}

#[test]
fn test_timestamp_new_rejects_invalid_fields() {
    assert!(Timestamp::new(2025, 13, 1, 0, 0, 0, 0).is_none());
    assert!(Timestamp::new(2025, 2, 29, 0, 0, 0, 0).is_none());
    assert!(Timestamp::new(2024, 2, 29, 0, 0, 0, 0).is_some());
    assert!(Timestamp::new(2025, 1, 1, 24, 0, 0, 0).is_none());
    assert!(Timestamp::new(2025, 1, 1, 0, 0, 0, 90000).is_none());
    assert!(Timestamp::new(2025, 1, 1, 0, 0, 0, 30).is_none());
}

#[test]
fn test_error_messages() {
    assert_eq!(TimeCheckerError::NoActiveTask.message(), "no active task");
    assert_eq!(
        TimeCheckerError::DataLoadError("bad".to_string()).message(),
        "failed to load data: bad"
    );
    assert_eq!(
        TimeCheckerError::DataSaveError("disk".to_string()).message(),
        "failed to save data: disk"
    );
    assert_eq!(
        TimeCheckerError::InvalidPeriod("week".to_string()).message(),
        "invalid period: week"
    );
}

#[test]
fn test_log_deserialization_with_whitespace() {
    let json = "[\n  { \"task\": \"a\", \"start\": \"2025-11-14T09:00:00+00:00\",\n    \"end\": \"2025-11-14T10:00:00+00:00\", \"note\": \"first\" },\n  { \"task\": \"b\", \"start\": \"2025-11-14T10:00:00+00:00\" }\n]\n";
    let loaded = log_from_json(json).expect("load failed");
    assert_eq!(loaded.len(), 2);
    assert_eq!(loaded[0].task, "a");
    assert_eq!(loaded[0].note, Some("first".to_string()));
    assert_eq!(loaded[1].task, "b");
    assert!(loaded[1].end.is_none());
    assert!(loaded[1].note.is_none());
}

#[test]
fn test_get_today_entries_keeps_order() {
    let entries = vec![
        TimeEntry { task: "first".to_string(), start: ts(2025, 11, 14, 9, 0, 0), end: None, note: None },
        TimeEntry { task: "other day".to_string(), start: ts(2025, 11, 12, 9, 0, 0), end: None, note: None },
        TimeEntry { task: "second".to_string(), start: ts(2025, 11, 14, 11, 0, 0), end: None, note: None },
    ];
    let today = Date { year: 2025, month: 11, day: 14 };
    let filtered = DataStore::get_today_entries(&entries, today);
    assert_eq!(filtered.len(), 2);
    assert_eq!(filtered[0].task, "first");
    assert_eq!(filtered[1].task, "second");
}

#[test]
fn test_log_roundtrip_multiple_entries() {
    let entries = vec![
        TimeEntry {
            task: "one".to_string(),
            start: ts(2025, 11, 14, 9, 0, 0),
            end: Some(ts(2025, 11, 14, 10, 0, 0)),
            note: None,
        },
        TimeEntry {
            task: "two".to_string(),
            start: ts(2025, 11, 14, 10, 0, 0),
            end: None,
            note: Some("still going".to_string()),
        },
    ];
    let json = time_checker::codec::log_to_json(&entries);
    let loaded = decode_content(&json).expect("load failed");
    assert_eq!(entries, loaded);
}
