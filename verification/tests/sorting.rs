use canister_logs::order::sort_entries;
use canister_logs::{Log, LogEntry, Priority, Sort};

fn entry(timestamp: u64, counter: u64) -> LogEntry {
    LogEntry {
        timestamp,
        priority: Priority::Info,
        file: "a.rs".to_string(),
        line: 1,
        message: format!("entry {}", counter),
        counter,
    }
}

fn stamps(log: &Log) -> Vec<(u64, u64)> {
    log.entries.iter().map(|e| (e.timestamp, e.counter)).collect()
}

fn mixed() -> Log {
    Log {
        entries: vec![
            entry(5, 1),
            entry(3, 2),
            entry(5, 3),
            entry(1, 4),
            entry(3, 5),
            entry(9, 6),
            entry(5, 7),
        ],
    }
}

#[test]
fn sort_asc_puts_the_smallest_timestamp_first() {
    let mut log = mixed();
    log.sort_asc();
    assert_eq!(stamps(&log), vec![(1, 4), (3, 2), (3, 5), (5, 1), (5, 3), (5, 7), (9, 6)]);
}

#[test]
fn sort_desc_puts_the_largest_timestamp_first() {
    let mut log = mixed();
    log.sort_desc();
    assert_eq!(stamps(&log), vec![(9, 6), (5, 1), (5, 3), (5, 7), (3, 2), (3, 5), (1, 4)]);
}

#[test]
fn sort_logs_goes_by_the_direction() {
    let mut up = mixed();
    up.sort_logs(Sort::Ascending);
    let mut asc = mixed();
    asc.sort_asc();
    assert_eq!(up.entries, asc.entries);
    let mut down = mixed();
    down.sort_logs(Sort::Descending);
    let mut desc = mixed();
    desc.sort_desc();
    assert_eq!(down.entries, desc.entries);
}

#[test]
fn sorting_keeps_every_field_of_an_entry() {
    let mut log = Log {
        entries: vec![
            LogEntry {
                timestamp: 2,
                priority: Priority::Error,
                file: "late.rs".to_string(),
                line: 20,
                message: "late".to_string(),
                counter: 8,
            },
            LogEntry {
                timestamp: 1,
                priority: Priority::Debug,
                file: "early.rs".to_string(),
                line: 10,
                message: "early".to_string(),
                counter: 9,
            },
        ],
    };
    log.sort_asc();
    assert_eq!(log.entries[0].file, "early.rs");
    assert_eq!(log.entries[0].priority, Priority::Debug);
    assert_eq!(log.entries[0].line, 10);
    assert_eq!(log.entries[0].message, "early");
    assert_eq!(log.entries[0].counter, 9);
    assert_eq!(log.entries[1].file, "late.rs");
    assert_eq!(log.entries[1].priority, Priority::Error);
}

#[test]
fn sorting_a_sorted_log_changes_nothing() {
    let mut log = mixed();
    log.sort_asc();
    let once = log.entries.clone();
    log.sort_asc();
    assert_eq!(log.entries, once);
    log.sort_desc();
    let down = log.entries.clone();
    log.sort_desc();
    assert_eq!(log.entries, down);
}

#[test]
fn sorting_there_and_back_gives_the_first_result() {
    let mut log = mixed();
    log.sort_asc();
    let once = log.entries.clone();
    log.sort_desc();
    log.sort_asc();
    assert_eq!(log.entries, once);
}

#[test]
fn sorting_an_empty_or_single_log_changes_nothing() {
    let mut empty = Log::default();
    empty.sort_asc();
    assert!(empty.entries.is_empty());
    empty.sort_desc();
    assert!(empty.entries.is_empty());
    let mut single = Log { entries: vec![entry(4, 1)] };
    single.sort_desc();
    assert_eq!(stamps(&single), vec![(4, 1)]);
}

#[test]
fn equal_timestamps_keep_their_order_in_both_directions() {
    let mut log = Log { entries: vec![entry(7, 1), entry(7, 2), entry(7, 3), entry(7, 4)] };
    log.sort_asc();
    assert_eq!(stamps(&log), vec![(7, 1), (7, 2), (7, 3), (7, 4)]);
    log.sort_desc();
    assert_eq!(stamps(&log), vec![(7, 1), (7, 2), (7, 3), (7, 4)]);
}

#[test]
fn sort_agrees_with_the_stable_sort_of_the_standard_library() {
    let mut seed: u64 = 12345;
    let mut entries = Vec::new();
    for counter in 0..500u64 {
        seed = seed.wrapping_mul(6364136223846793005).wrapping_add(1442695040888963407);
        entries.push(entry((seed >> 33) % 40, counter));
    }
    let mut expected_up = entries.clone();
    expected_up.sort_by(|a, b| a.timestamp.cmp(&b.timestamp));
    let mut expected_down = entries.clone();
    expected_down.sort_by(|a, b| b.timestamp.cmp(&a.timestamp));
    assert_eq!(sort_entries(entries.clone(), Sort::Ascending), expected_up);
    assert_eq!(sort_entries(entries, Sort::Descending), expected_down);
}

#[test]
fn sort_handles_the_extreme_timestamps() {
    let mut log = Log { entries: vec![entry(u64::MAX, 1), entry(0, 2), entry(u64::MAX, 3), entry(0, 4)] };
    log.sort_asc();
    assert_eq!(stamps(&log), vec![(0, 2), (0, 4), (u64::MAX, 1), (u64::MAX, 3)]);
    log.sort_desc();
    assert_eq!(stamps(&log), vec![(u64::MAX, 1), (u64::MAX, 3), (0, 2), (0, 4)]);
}
