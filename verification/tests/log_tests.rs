use pomodoro::log::Date;
use pomodoro::log::LogEntry;
use pomodoro::log::PersistenceError;
use pomodoro::log::parse_log;
use pomodoro::log::read_all;
use pomodoro::log::record_completion;
use pomodoro::log::serialize_log;

fn date(year: u32, month: u32, day: u32) -> Date {
    Date { year, month, day }
}

#[test]
fn read_all_on_missing_store_is_empty_not_an_error() {
    let r = read_all(None);
    assert_eq!(r, Ok(Vec::new()));
}

#[test]
fn recording_same_date_twice_counts_two() {
    let d = date(2024, 1, 1);
    // Each call reads the store fresh, as the accessor does on disk.
    let store1 = record_completion(None, d).unwrap();
    let store2 = record_completion(Some(&store1), d).unwrap();
    let entries = read_all(Some(&store2)).unwrap();
    assert_eq!(entries.len(), 1);
    assert_eq!(entries[0].date, date(2024, 1, 1));
    assert_eq!(entries[0].work_sessions, 2);
}

#[test]
fn two_distinct_dates_get_two_entries_of_one_each() {
    let d1 = date(2024, 1, 1);
    let d2 = date(2024, 1, 2);
    let store1 = record_completion(None, d1).unwrap();
    let store2 = record_completion(Some(&store1), d2).unwrap();
    let entries = read_all(Some(&store2)).unwrap();
    assert_eq!(entries.len(), 2);
    assert_eq!(entries[0], LogEntry { date: d1, work_sessions: 1 });
    assert_eq!(entries[1], LogEntry { date: d2, work_sessions: 1 });
    // Lookup goes by date, not by position: bumping the first-stored date
    // still finds it behind the later one.
    let store3 = record_completion(Some(&store2), d1).unwrap();
    let after = read_all(Some(&store3)).unwrap();
    assert_eq!(after[0], LogEntry { date: d1, work_sessions: 2 });
    assert_eq!(after[1], LogEntry { date: d2, work_sessions: 1 });
}

#[test]
fn round_trip_reproduces_all_entries() {
    let entries = vec![
        LogEntry { date: date(2023, 12, 31), work_sessions: 4 },
        LogEntry { date: date(2024, 1, 1), work_sessions: 1 },
        LogEntry { date: date(2024, 2, 29), work_sessions: 17 },
        LogEntry { date: date(1999, 6, 5), work_sessions: 4294967295 },
    ];
    let bytes = serialize_log(&entries);
    let back = parse_log(&bytes).unwrap();
    assert_eq!(back, entries);
}

#[test]
fn empty_log_round_trips() {
    let entries: Vec<LogEntry> = Vec::new();
    let bytes = serialize_log(&entries);
    assert!(bytes.is_empty());
    assert_eq!(parse_log(&bytes).unwrap(), entries);
}

#[test]
fn store_format_is_one_readable_line_per_day() {
    let entries = vec![LogEntry { date: date(2024, 1, 1), work_sessions: 2 }];
    let bytes = serialize_log(&entries);
    assert_eq!(bytes, b"2024-01-01 0000000002\n".to_vec());
    let two = vec![
        LogEntry { date: date(2024, 1, 1), work_sessions: 2 },
        LogEntry { date: date(987, 10, 30), work_sessions: 41 },
    ];
    assert_eq!(
        serialize_log(&two),
        b"2024-01-01 0000000002\n0987-10-30 0000000041\n".to_vec()
    );
}

#[test]
fn corrupt_store_is_reported_not_replaced() {
    let garbage = b"not a session log".to_vec();
    assert_eq!(
        record_completion(Some(&garbage), date(2024, 1, 1)),
        Err(PersistenceError::Corrupt)
    );
    assert_eq!(read_all(Some(&garbage)), Err(PersistenceError::Corrupt));
    // A truncated trailing line is corrupt too.
    let truncated = b"2024-01-01 0000000002\n2024-01".to_vec();
    assert_eq!(read_all(Some(&truncated)), Err(PersistenceError::Corrupt));
    // So is a line with an impossible month.
    let bad_month = b"2024-13-01 0000000002\n".to_vec();
    assert_eq!(read_all(Some(&bad_month)), Err(PersistenceError::Corrupt));
    // And a zero counter, which no completion could have produced.
    let zero_count = b"2024-01-01 0000000000\n".to_vec();
    assert_eq!(read_all(Some(&zero_count)), Err(PersistenceError::Corrupt));
}

#[test]
fn an_empty_existing_store_parses_as_no_history() {
    let empty = Vec::new();
    assert_eq!(read_all(Some(&empty)), Ok(Vec::new()));
}
